//! Locally unique pack ids: the id a pack enters the registry under when
//! another loaded pack already has its manifest id.
use vstd::prelude::*;
use crate::text::{hex_digits, lemma_hex_digits_chars};
use vstd::utf8::encode_utf8;
use super::pack::{Pack, seahash_of};
use super::registry::index_of_id;

verus! {

/// The suffix that makes an id from the address `url_text` locally unique:
/// `_` and six hexadecimal digits of the SeaHash of the address.
pub open spec fn id_suffix(url_text: Seq<char>) -> Seq<char> {
    seq!['_'] + hex_digits((seahash_of(encode_utf8(url_text)) & 0xFF_FFFFu64) as nat, 6)
}

/// The id with the address's suffix added once.
pub open spec fn local_id(id: Seq<char>, url_text: Seq<char>) -> Seq<char> {
    id + id_suffix(url_text)
}

/// The id with the address's suffix added `n` times.
pub open spec fn suffixed(id: Seq<char>, url_text: Seq<char>, n: nat) -> Seq<char>
    decreases n,
{
    if n == 0 {
        id
    } else {
        local_id(suffixed(id, url_text, (n - 1) as nat), url_text)
    }
}

/// The ids of the loaded packs, in order.
pub open spec fn ids_of(s: Seq<Pack>) -> Seq<Seq<char>> {
    s.map_values(|p: Pack| p.id@)
}

/// `n` suffixes give the first form of `id` that none of `ids` has.
pub open spec fn first_free(ids: Seq<Seq<char>>, id: Seq<char>, url_text: Seq<char>, n: nat) -> bool {
    &&& !ids.contains(suffixed(id, url_text, n))
    &&& forall|m: nat| m < n ==> ids.contains(#[trigger] suffixed(id, url_text, m))
}

/// The id a pack with manifest id `id` from `url_text` enters a registry
/// holding `ids` under: `id` itself where it is free, else the first of
/// `id_xxxxxx`, `id_xxxxxx_xxxxxx`, ... that is free.
pub open spec fn entering(ids: Seq<Seq<char>>, id: Seq<char>, url_text: Seq<char>) -> Seq<char> {
    suffixed(id, url_text, choose|n: nat| first_free(ids, id, url_text, n))
}

/// The id a pack enters the registry `s` under.
pub open spec fn entering_id(s: Seq<Pack>, id: Seq<char>, url_text: Seq<char>) -> Seq<char> {
    entering(ids_of(s), id, url_text)
}

/// How many of `ids` are at least `n` characters long.
pub open spec fn count_long(ids: Seq<Seq<char>>, n: nat) -> nat
    decreases ids.len(),
{
    if ids.len() == 0 {
        0
    } else {
        count_long(ids.drop_last(), n) + if ids.last().len() >= n {
            1nat
        } else {
            0nat
        }
    }
}

pub proof fn lemma_suffixed_len(id: Seq<char>, url_text: Seq<char>, n: nat)
    ensures
        suffixed(id, url_text, n).len() == id.len() + 7 * n,
    decreases n,
{
    let h = (seahash_of(encode_utf8(url_text)) & 0xFF_FFFFu64) as nat;
    lemma_hex_digits_chars(h, 6);
    if n > 0 {
        lemma_suffixed_len(id, url_text, (n - 1) as nat);
    }
}

proof fn lemma_count_long(ids: Seq<Seq<char>>, x: Seq<char>, a: nat, b: nat)
    requires
        a <= b,
    ensures
        count_long(ids, b) <= count_long(ids, a),
        ids.contains(x) && x.len() == a && a < b ==> count_long(ids, b) < count_long(ids, a),
    decreases ids.len(),
{
    if ids.len() > 0 {
        lemma_count_long(ids.drop_last(), x, a, b);
        if ids.contains(x) && x.len() == a && a < b && ids.last() != x {
            let i = choose|i: int| 0 <= i < ids.len() && ids[i] == x;
            assert(ids.drop_last()[i] == x);
        }
    }
}

/// Going from a loaded id to a longer candidate leaves fewer long ids.
pub proof fn lemma_count_long_step(ids: Seq<Seq<char>>, taken: Seq<char>, longer: Seq<char>)
    requires
        ids.contains(taken),
        taken.len() < longer.len(),
    ensures
        count_long(ids, longer.len()) < count_long(ids, taken.len()),
{
    lemma_count_long(ids, taken, taken.len(), longer.len());
}

proof fn lemma_first_free_from(ids: Seq<Seq<char>>, id: Seq<char>, url_text: Seq<char>, k: nat)
    requires
        forall|m: nat| m < k ==> ids.contains(#[trigger] suffixed(id, url_text, m)),
    ensures
        exists|n: nat| first_free(ids, id, url_text, n),
    decreases count_long(ids, suffixed(id, url_text, k).len()),
{
    let x = suffixed(id, url_text, k);
    if !ids.contains(x) {
        assert(first_free(ids, id, url_text, k));
    } else {
        lemma_suffixed_len(id, url_text, k);
        lemma_suffixed_len(id, url_text, k + 1);
        lemma_count_long(ids, x, x.len(), suffixed(id, url_text, k + 1).len());
        assert forall|m: nat| m < k + 1 implies ids.contains(#[trigger] suffixed(id, url_text, m)) by {
            if m < k {
            }
        }
        lemma_first_free_from(ids, id, url_text, k + 1);
    }
}

/// The first free form is one: there is always one (the registry is
/// finite and the forms grow longer), and no two.
pub proof fn lemma_first_free_unique(ids: Seq<Seq<char>>, id: Seq<char>, url_text: Seq<char>, n: nat)
    requires
        first_free(ids, id, url_text, n),
    ensures
        (choose|k: nat| first_free(ids, id, url_text, k)) == n,
        entering(ids, id, url_text) == suffixed(id, url_text, n),
{
    let k = choose|k: nat| first_free(ids, id, url_text, k);
    assert(first_free(ids, id, url_text, k));
    if k < n {
        assert(ids.contains(suffixed(id, url_text, k)));
    } else if n < k {
        assert(ids.contains(suffixed(id, url_text, n)));
    }
}

/// The id a pack enters under is free, and it is the manifest id itself
/// exactly where that is free.
pub proof fn lemma_entering(ids: Seq<Seq<char>>, id: Seq<char>, url_text: Seq<char>)
    ensures
        exists|n: nat| first_free(ids, id, url_text, n) && entering(ids, id, url_text) == suffixed(id, url_text, n),
        !ids.contains(entering(ids, id, url_text)),
        (entering(ids, id, url_text) == id) <==> !ids.contains(id),
{
    lemma_first_free_from(ids, id, url_text, 0);
    let n = choose|n: nat| first_free(ids, id, url_text, n);
    lemma_first_free_unique(ids, id, url_text, n);
    if n > 0 {
        assert(ids.contains(suffixed(id, url_text, 0)));
    }
}

/// A pack id is loaded exactly when it is among the loaded ids.
pub proof fn lemma_ids_of_contains(s: Seq<Pack>, x: Seq<char>)
    ensures
        (index_of_id(s, x) is Some) <==> ids_of(s).contains(x),
{
    if index_of_id(s, x) is Some {
        let i = index_of_id(s, x)->0;
        assert(ids_of(s)[i] == x);
    }
    if ids_of(s).contains(x) {
        let i = choose|i: int| 0 <= i < ids_of(s).len() && ids_of(s)[i] == x;
        assert(s[i].id@ == x);
    }
}

/// The ids configured packs (manifest id, address) enter an empty registry
/// under, taken one after another in configuration order.
pub open spec fn entered_ids(configured: Seq<(Seq<char>, Seq<char>)>) -> Seq<Seq<char>>
    decreases configured.len(),
{
    if configured.len() == 0 {
        Seq::empty()
    } else {
        let before = entered_ids(configured.drop_last());
        before.push(entering(before, configured.last().0, configured.last().1))
    }
}

proof fn lemma_entered_ids_step(configured: Seq<(Seq<char>, Seq<char>)>, j: int)
    requires
        0 <= j < configured.len(),
    ensures
        entered_ids(configured).len() == configured.len(),
        entered_ids(configured)[j] == entering(entered_ids(configured).take(j), configured[j].0, configured[j].1),
    decreases configured.len(),
{
    let e = entered_ids(configured);
    let d = configured.drop_last();
    if j < configured.len() - 1 {
        lemma_entered_ids_step(d, j);
        assert(e.take(j) =~= entered_ids(d).take(j));
        assert(d[j] == configured[j]);
    } else {
        if d.len() > 0 {
            lemma_entered_ids_step(d, 0);
        }
        assert(e.take(j) =~= entered_ids(d));
    }
}

/// The first configured pack with a manifest id enters the registry under
/// that id, and every later pack with the same manifest id under a suffixed
/// form of it (`id_xxxxxx`, or longer where that is taken). This fails only
/// where an earlier pack already entered under that very id (a suffixed
/// form of another id that reads the same).
pub proof fn lemma_first_configured_keeps_its_id(configured: Seq<(Seq<char>, Seq<char>)>, k: int)
    requires
        0 <= k < configured.len(),
        forall|j: int| 0 <= j < k ==> configured[j].0 != configured[k].0,
        !entered_ids(configured).take(k).contains(configured[k].0),
    ensures
        entered_ids(configured)[k] == configured[k].0,
        forall|j: int|
            k < j < configured.len() && configured[j].0 == configured[k].0 ==> {
                &&& #[trigger] entered_ids(configured)[j] != configured[k].0
                &&& exists|n: nat| n >= 1 && entered_ids(configured)[j] == suffixed(configured[j].0, configured[j].1, n)
            },
{
    let e = entered_ids(configured);
    let x = configured[k].0;
    lemma_entered_ids_step(configured, k);
    lemma_entering(e.take(k), x, configured[k].1);
    assert forall|j: int| k < j < configured.len() && configured[j].0 == x implies {
        &&& #[trigger] e[j] != x
        &&& exists|n: nat| n >= 1 && e[j] == suffixed(configured[j].0, configured[j].1, n)
    } by {
        lemma_entered_ids_step(configured, j);
        let before = e.take(j);
        assert(before[k] == x);
        assert(before.contains(x));
        lemma_entering(before, x, configured[j].1);
        let n = choose|n: nat| first_free(before, x, configured[j].1, n) && e[j] == suffixed(x, configured[j].1, n);
        if n == 0 {
            assert(!before.contains(suffixed(x, configured[j].1, 0)));
        }
    }
}

} // verus!
