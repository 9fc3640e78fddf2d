//! Thumbnails laid out in rows of a fixed width.
use vstd::prelude::*;

verus! {

/// The texts of a list of rows.
pub open spec fn row_views<T>(rows: Seq<Vec<T>>) -> Seq<Seq<T>> {
    rows.map_values(|r: Vec<T>| r@)
}

/// `rows` lays out `items` `cols` to a row: read row by row they give the
/// items in order, every row but the last holds exactly `cols` items, and
/// the last holds between one and `cols`.
pub open spec fn is_grid<T>(rows: Seq<Seq<T>>, items: Seq<T>, cols: nat) -> bool {
    &&& rows.flatten() == items
    &&& forall|k: int| 0 <= k < rows.len() - 1 ==> (#[trigger] rows[k]).len() == cols
    &&& rows.len() > 0 ==> 0 < rows.last().len() <= cols
}

/// The width a row really has: `cols`, or one where `cols` is zero.
pub open spec fn row_width(cols: nat) -> nat {
    if cols == 0 {
        1
    } else {
        cols
    }
}

/// Lays out `items` in rows of `cols` (rows of one where `cols` is zero),
/// left to right and top to bottom.
pub fn grid_rows<T>(items: Vec<T>, cols: usize) -> (rows: Vec<Vec<T>>)
    ensures
        is_grid(row_views(rows@), items@, row_width(cols as nat)),
{
    let width: usize = if cols == 0 {
        1
    } else {
        cols
    };
    let ghost all = items@;
    let mut rest = items;
    let mut rows: Vec<Vec<T>> = Vec::new();
    let mut current: Vec<T> = Vec::new();
    let n = rest.len();
    let mut i: usize = 0;
    while i < n
        invariant
            width == row_width(cols as nat),
            n == all.len(),
            i <= n,
            rest@ == all.skip(i as int),
            row_views(rows@).flatten() + current@ == all.take(i as int),
            forall|k: int| 0 <= k < rows@.len() ==> (#[trigger] rows@[k])@.len() == width,
            current@.len() < width,
        decreases n - i,
    {
        let ghost before_rows = rows@;
        let ghost before_current = current@;
        let x = rest.remove(0);
        assert(x == all[i as int]);
        assert(rest@ =~= all.skip(i + 1));
        current.push(x);
        assert(all.take(i + 1) =~= all.take(i as int).push(x));
        if current.len() >= width {
            let full = current;
            current = Vec::new();
            rows.push(full);
            proof {
                assert(row_views(rows@) =~= row_views(before_rows).push(full@));
                row_views(before_rows).lemma_flatten_push(full@);
                assert(row_views(rows@).flatten() + current@ =~= all.take(i + 1));
            }
        }
        i = i + 1;
    }
    let ghost full_rows = rows@;
    assert(all.take(n as int) =~= all);
    if current.len() > 0 {
        let last = current;
        rows.push(last);
        proof {
            assert(row_views(rows@) =~= row_views(full_rows).push(last@));
            row_views(full_rows).lemma_flatten_push(last@);
        }
    } else {
        assert(row_views(rows@).flatten() =~= all);
    }
    proof {
        let v = row_views(rows@);
        assert forall|k: int| 0 <= k < v.len() - 1 implies (#[trigger] v[k]).len() == row_width(cols as nat) by {
            assert(v[k] == rows@[k]@);
        }
        if v.len() > 0 {
            assert(v.last() == rows@[rows@.len() - 1]@);
        }
    }
    rows
}

} // verus!
