//! The most-recently-sent stickers list: its model, the update that a send
//! makes to it, and the rules it keeps.
use vstd::prelude::*;
use std::collections::VecDeque;
use super::{is_valid_id, PackId, StickerId, StickerRef};

verus! {

/// Most stickers the recents list keeps.
pub const MAX_RECENTS: usize = 24;

/// A sticker reference as (pack id, sticker id) text.
pub type RefView = (Seq<char>, Seq<char>);

/// The texts of a sequence of references.
pub open spec fn views(s: Seq<StickerRef>) -> Seq<RefView> {
    s.map_values(|r: StickerRef| r@)
}

/// `l` with every occurrence of `r` taken out, the rest in order.
pub open spec fn without(l: Seq<RefView>, r: RefView) -> Seq<RefView>
    decreases l.len(),
{
    if l.len() == 0 {
        l
    } else if l.last() == r {
        without(l.drop_last(), r)
    } else {
        without(l.drop_last(), r).push(l.last())
    }
}

/// The recents list after sending `r`: `r` first, then the earlier list
/// without `r`, cut to `MAX_RECENTS` entries.
pub open spec fn mru_push(l: Seq<RefView>, r: RefView) -> Seq<RefView> {
    let kept = seq![r] + without(l, r);
    if kept.len() > MAX_RECENTS {
        kept.take(MAX_RECENTS as int)
    } else {
        kept
    }
}

pub proof fn lemma_without_excludes(l: Seq<RefView>, r: RefView)
    ensures
        !without(l, r).contains(r),
        without(l, r).len() <= l.len(),
        forall|x: RefView| #[trigger] without(l, r).contains(x) ==> l.contains(x),
    decreases l.len(),
{
    if l.len() > 0 {
        lemma_without_excludes(l.drop_last(), r);
        let w = without(l.drop_last(), r);
        assert forall|x: RefView| #[trigger] without(l, r).contains(x) implies l.contains(x) by {
            if w.contains(x) {
                let k = choose|k: int| 0 <= k < w.len() && w[k] == x;
                assert(l.drop_last().contains(x));
                let j = choose|j: int| 0 <= j < l.drop_last().len() && l.drop_last()[j] == x;
                assert(l[j] == x);
            } else {
                assert(x == l.last());
                assert(l[l.len() - 1] == x);
            }
        }
        if l.last() != r {
            assert forall|k: int| 0 <= k < w.push(l.last()).len() implies w.push(l.last())[k] != r by {
                if k < w.len() {
                    assert(w.push(l.last())[k] == w[k]);
                }
            }
        }
    }
}

pub proof fn lemma_without_absent(l: Seq<RefView>, r: RefView)
    requires
        !l.contains(r),
    ensures
        without(l, r) == l,
    decreases l.len(),
{
    if l.len() > 0 {
        assert(!l.drop_last().contains(r)) by {
            if l.drop_last().contains(r) {
                let j = choose|j: int| 0 <= j < l.drop_last().len() && l.drop_last()[j] == r;
                assert(l[j] == r);
            }
        }
        lemma_without_absent(l.drop_last(), r);
        assert(l[l.len() - 1] != r);
        assert(l.drop_last().push(l.last()) =~= l);
    }
}

pub proof fn lemma_without_no_duplicates(l: Seq<RefView>, r: RefView)
    requires
        l.no_duplicates(),
    ensures
        without(l, r).no_duplicates(),
    decreases l.len(),
{
    if l.len() > 0 {
        let d = l.drop_last();
        assert(d.no_duplicates()) by {
            assert forall|i: int, j: int| 0 <= i < d.len() && 0 <= j < d.len() && i != j implies d[i] != d[j] by {
                assert(d[i] == l[i] && d[j] == l[j]);
            }
        }
        lemma_without_no_duplicates(d, r);
        lemma_without_excludes(d, r);
        let w = without(d, r);
        if l.last() != r {
            assert(!w.contains(l.last())) by {
                if w.contains(l.last()) {
                    assert(d.contains(l.last()));
                    let j = choose|j: int| 0 <= j < d.len() && d[j] == l.last();
                    assert(l[j] == l[l.len() - 1]);
                }
            }
            let wp = w.push(l.last());
            assert forall|i: int, j: int| 0 <= i < wp.len() && 0 <= j < wp.len() && i != j implies wp[i] != wp[j] by {
                if i < w.len() && j < w.len() {
                    assert(wp[i] == w[i] && wp[j] == w[j]);
                } else if i < w.len() {
                    assert(wp[i] == w[i]);
                    assert(w.contains(wp[i]));
                } else if j < w.len() {
                    assert(wp[j] == w[j]);
                    assert(w.contains(wp[j]));
                }
            }
        }
    }
}

/// The front of the list after a send is the sticker just sent.
pub proof fn lemma_push_front(l: Seq<RefView>, r: RefView)
    ensures
        mru_push(l, r).len() >= 1,
        mru_push(l, r)[0] == r,
{
}

/// The sticker just sent appears exactly once.
pub proof fn lemma_push_once(l: Seq<RefView>, r: RefView)
    ensures
        forall|i: int| 0 < i < mru_push(l, r).len() ==> mru_push(l, r)[i] != r,
{
    lemma_without_excludes(l, r);
    let w = without(l, r);
    assert forall|i: int| 0 < i < mru_push(l, r).len() implies mru_push(l, r)[i] != r by {
        assert(mru_push(l, r)[i] == w[i - 1]);
    }
}

/// The list never holds more than `MAX_RECENTS` entries after a send.
pub proof fn lemma_push_bounded(l: Seq<RefView>, r: RefView)
    ensures
        mru_push(l, r).len() <= MAX_RECENTS,
{
}

/// Every entry after the first was already in the list.
pub proof fn lemma_push_from_before(l: Seq<RefView>, r: RefView)
    ensures
        forall|i: int| 0 < i < mru_push(l, r).len() ==> l.contains(#[trigger] mru_push(l, r)[i]),
{
    lemma_without_excludes(l, r);
    let w = without(l, r);
    assert forall|i: int| 0 < i < mru_push(l, r).len() implies l.contains(#[trigger] mru_push(l, r)[i]) by {
        assert(mru_push(l, r)[i] == w[i - 1]);
        assert(w.contains(w[i - 1]));
    }
}

/// A list without repeats keeps having none after a send.
pub proof fn lemma_push_no_duplicates(l: Seq<RefView>, r: RefView)
    requires
        l.no_duplicates(),
    ensures
        mru_push(l, r).no_duplicates(),
{
    lemma_without_no_duplicates(l, r);
    lemma_without_excludes(l, r);
    let w = without(l, r);
    let kept = seq![r] + w;
    assert forall|i: int, j: int| 0 <= i < kept.len() && 0 <= j < kept.len() && i != j implies kept[i] != kept[j] by {
        if i == 0 {
            assert(kept[j] == w[j - 1]);
            assert(w.contains(w[j - 1]));
        } else if j == 0 {
            assert(kept[i] == w[i - 1]);
            assert(w.contains(w[i - 1]));
        } else {
            assert(kept[i] == w[i - 1] && kept[j] == w[j - 1]);
        }
    }
}

/// Sending the same sticker twice in a row leaves the list as one send did.
pub proof fn lemma_push_idempotent(l: Seq<RefView>, r: RefView)
    ensures
        mru_push(mru_push(l, r), r) == mru_push(l, r),
{
    let m = mru_push(l, r);
    lemma_without_excludes(l, r);
    let tail = m.drop_first();
    assert(!tail.contains(r)) by {
        lemma_push_once(l, r);
        if tail.contains(r) {
            let k = choose|k: int| 0 <= k < tail.len() && tail[k] == r;
            assert(m[k + 1] == r);
        }
    }
    lemma_without_split(m, r);
    lemma_without_absent(tail, r);
    assert(seq![r] + without(m, r) =~= m);
}

/// Taking the first entry off, when it is `r`, is what `without` does at the
/// front.
proof fn lemma_without_split(m: Seq<RefView>, r: RefView)
    requires
        m.len() >= 1,
        m[0] == r,
    ensures
        without(m, r) == without(m.drop_first(), r),
    decreases m.len(),
{
    if m.len() == 1 {
        assert(m.last() == r);
        assert(m.drop_last().len() == 0);
        assert(m.drop_first().len() == 0);
        assert(without(m.drop_last(), r) == m.drop_last());
        assert(without(m.drop_first(), r) == m.drop_first());
        assert(m.drop_last() =~= m.drop_first());
    } else {
        assert(m.drop_last()[0] == r);
        lemma_without_split(m.drop_last(), r);
        assert(m.drop_last().drop_first() =~= m.drop_first().drop_last());
        assert(m.drop_first().last() == m.last());
    }
}

/// The texts of a list of (pack, sticker) text pairs.
pub open spec fn entry_views(e: Seq<(String, String)>) -> Seq<RefView> {
    e.map_values(|x: (String, String)| (x.0@, x.1@))
}

/// A pair of a valid pack id and a valid sticker id.
pub open spec fn valid_pair(p: RefView) -> bool {
    is_valid_id(p.0) && is_valid_id(p.1)
}

/// Every pair holds a valid pack id and a valid sticker id.
pub open spec fn all_valid(e: Seq<RefView>) -> bool {
    forall|i: int| 0 <= i < e.len() ==> #[trigger] valid_pair(e[i])
}

/// What loading entries gives: all of them where every pack and sticker id
/// is well formed, none at all otherwise.
pub open spec fn loaded(e: Seq<RefView>) -> Seq<RefView> {
    if all_valid(e) {
        e
    } else {
        Seq::empty()
    }
}

/// The (pack, sticker) text pairs saved for a recents list, in its order.
/// Every id in it is well formed.
pub fn recents_entries(refs: &Vec<StickerRef>) -> (r: Vec<(String, String)>)
    ensures
        entry_views(r@) == views(refs@),
        all_valid(entry_views(r@)),
{
    let mut out: Vec<(String, String)> = Vec::new();
    let n = refs.len();
    let mut i: usize = 0;
    while i < n
        invariant
            n == refs@.len(),
            i <= n,
            entry_views(out@) == views(refs@).take(i as int),
            all_valid(entry_views(out@)),
        decreases n - i,
    {
        let ghost before = out@;
        refs[i].pack.lemma_valid();
        refs[i].sticker.lemma_valid();
        out.push((refs[i].pack.as_str().to_owned(), refs[i].sticker.as_str().to_owned()));
        assert(entry_views(out@) =~= entry_views(before).push(refs@[i as int]@));
        assert(views(refs@).take(i + 1) =~= views(refs@).take(i as int).push(refs@[i as int]@));
        assert(valid_pair(entry_views(out@)[i as int]));
        assert forall|k: int| 0 <= k < entry_views(out@).len() implies #[trigger] valid_pair(entry_views(out@)[k]) by {
            if k < i {
                assert(entry_views(out@)[k] == entry_views(before)[k]);
            }
        }
        i = i + 1;
    }
    assert(views(refs@).take(n as int) =~= views(refs@));
    out
}

/// Loading what was saved gives the list back whole, in order, duplicates
/// and all: the saved entries of a list are its pairs, all well formed,
/// and loading keeps such entries as they are.
pub proof fn lemma_load_after_save(list: Seq<RefView>, saved: Seq<(String, String)>)
    requires
        entry_views(saved) == list,
        all_valid(entry_views(saved)),
    ensures
        loaded(entry_views(saved)) == list,
{
}

/// Turns the entries read from the recents file into references: all of
/// them, in order, where every pack and sticker id is well formed; none at
/// all (the user starts with empty recents) where any of them is malformed.
pub fn recents_from_entries(entries: Vec<(String, String)>) -> (r: VecDeque<StickerRef>)
    ensures
        views(r@) == loaded(entry_views(entries@)),
{
    let ghost e = entry_views(entries@);
    let mut out: VecDeque<StickerRef> = VecDeque::new();
    let n = entries.len();
    let mut i: usize = 0;
    while i < n
        invariant
            n == entries@.len(),
            e == entry_views(entries@),
            i <= n,
            views(out@) == e.take(i as int),
            all_valid(e.take(i as int)),
        decreases n - i,
    {
        let ghost before = out@;
        let pack = PackId::new(entries[i].0.as_str());
        let sticker = StickerId::new(entries[i].1.as_str());
        assert(e[i as int] == (entries@[i as int].0@, entries@[i as int].1@));
        if pack.is_none() || sticker.is_none() {
            assert(!valid_pair(e[i as int]));
            let none: VecDeque<StickerRef> = VecDeque::new();
            assert(views(none@) =~= Seq::<RefView>::empty());
            return none;
        }
        out.push_back(StickerRef { pack: pack.unwrap(), sticker: sticker.unwrap() });
        assert(views(out@) =~= views(before).push(out@.last()@));
        assert(valid_pair(e[i as int]));
        assert(e.take(i + 1) =~= e.take(i as int).push(e[i as int]));
        i = i + 1;
    }
    assert(e.take(n as int) =~= e);
    out
}

} // verus!
