//! The loaded packs, in the user's order, each under its own id.
use vstd::prelude::*;
use indexmap::IndexMap;
use super::PackId;
use super::pack::Pack;
use super::weburl::opt_text;
use crate::text::{trim, trimmed, is_space, lemma_trimmed_bounds};

verus! {

#[verifier::external_type_specification]
#[verifier::external_body]
#[verifier::reject_recursive_types(K)]
#[verifier::reject_recursive_types(V)]
#[verifier::reject_recursive_types(S)]
pub struct ExIndexMap<K, V, S>(IndexMap<K, V, S>);

/// The (key, value) entries of an `IndexMap`, in its order. Keys are found
/// by `PackId`'s derived `Eq` and `Hash`, which compare and hash the id's
/// text, so two keys are the same key exactly when their texts are equal.
pub uninterp spec fn index_map_entries(m: IndexMap<PackId, Pack>) -> Seq<(PackId, Pack)>;

/// No key text occurs twice.
pub open spec fn keys_distinct(e: Seq<(PackId, Pack)>) -> bool {
    forall|i: int, j: int| 0 <= i < e.len() && 0 <= j < e.len() && i != j ==> #[trigger] e[i].0@ != #[trigger] e[j].0@
}

/// The position of the entry whose key has the text `k`.
pub open spec fn key_index(e: Seq<(PackId, Pack)>, k: Seq<char>) -> Option<int> {
    if exists|i: int| 0 <= i < e.len() && #[trigger] e[i].0@ == k {
        Some(choose|i: int| 0 <= i < e.len() && #[trigger] e[i].0@ == k)
    } else {
        None
    }
}

/// Calls `IndexMap::new`.
#[verifier::external_body]
fn map_new() -> (m: IndexMap<PackId, Pack>)
    ensures
        index_map_entries(m) == Seq::<(PackId, Pack)>::empty(),
{
    IndexMap::new()
}

/// Calls `IndexMap::insert`: an existing key keeps its place and gets the
/// new value; a new key goes last. Keys never repeat.
#[verifier::external_body]
fn map_insert(m: &mut IndexMap<PackId, Pack>, key: PackId, value: Pack)
    ensures
        keys_distinct(index_map_entries(*final(m))),
        match key_index(index_map_entries(*old(m)), key@) {
            Some(i) => index_map_entries(*final(m)) == index_map_entries(*old(m)).update(
                i,
                (index_map_entries(*old(m))[i].0, value),
            ),
            None => index_map_entries(*final(m)) == index_map_entries(*old(m)).push((key, value)),
        },
{
    m.insert(key, value);
}

/// Calls `IndexMap::shift_remove`: the entry goes, the others keep their
/// order.
#[verifier::external_body]
fn map_shift_remove(m: &mut IndexMap<PackId, Pack>, key: &PackId) -> (r: Option<Pack>)
    ensures
        keys_distinct(index_map_entries(*final(m))),
        match key_index(index_map_entries(*old(m)), key@) {
            Some(i) => {
                &&& index_map_entries(*final(m)) == index_map_entries(*old(m)).remove(i)
                &&& r == Some(index_map_entries(*old(m))[i].1)
            },
            None => {
                &&& index_map_entries(*final(m)) == index_map_entries(*old(m))
                &&& r is None
            },
        },
{
    m.shift_remove(key)
}

/// Calls `IndexMap::get_index_of`.
#[verifier::external_body]
fn map_get_index_of(m: &IndexMap<PackId, Pack>, key: &PackId) -> (r: Option<usize>)
    ensures
        match r {
            Some(j) => key_index(index_map_entries(*m), key@) == Some(j as int),
            None => key_index(index_map_entries(*m), key@) is None,
        },
{
    m.get_index_of(key)
}

/// Calls `IndexMap::get_index`.
#[verifier::external_body]
fn map_get_index(m: &IndexMap<PackId, Pack>, i: usize) -> (r: Option<(&PackId, &Pack)>)
    ensures
        i < index_map_entries(*m).len() ==> r == Some(
            (&index_map_entries(*m)[i as int].0, &index_map_entries(*m)[i as int].1),
        ),
        i >= index_map_entries(*m).len() ==> r is None,
{
    m.get_index(i)
}

/// Calls `IndexMap::get_index_mut`, giving access to the value at `i`.
#[verifier::external_body]
fn map_value_mut(m: &mut IndexMap<PackId, Pack>, i: usize) -> (r: &mut Pack)
    requires
        i < index_map_entries(*old(m)).len(),
    ensures
        *r == index_map_entries(*old(m))[i as int].1,
        index_map_entries(*final(m)) == index_map_entries(*old(m)).update(
            i as int,
            (index_map_entries(*old(m))[i as int].0, *final(r)),
        ),
{
    m.get_index_mut(i).unwrap().1
}

/// Calls `IndexMap::len`.
#[verifier::external_body]
fn map_len(m: &IndexMap<PackId, Pack>) -> (r: usize)
    ensures
        r == index_map_entries(*m).len(),
{
    m.len()
}

/// Calls `IndexMap::swap_indices` (which panics outside the map).
#[verifier::external_body]
fn map_swap_indices(m: &mut IndexMap<PackId, Pack>, a: usize, b: usize)
    requires
        a < index_map_entries(*old(m)).len(),
        b < index_map_entries(*old(m)).len(),
    ensures
        index_map_entries(*final(m)) == index_map_entries(*old(m)).update(
            a as int,
            index_map_entries(*old(m))[b as int],
        ).update(b as int, index_map_entries(*old(m))[a as int]),
{
    m.swap_indices(a, b)
}

/// The values of the entries, in order.
pub open spec fn entry_packs(e: Seq<(PackId, Pack)>) -> Seq<Pack> {
    e.map_values(|x: (PackId, Pack)| x.1)
}

/// No pack id occurs twice.
pub open spec fn ids_distinct(s: Seq<Pack>) -> bool {
    forall|i: int, j: int| 0 <= i < s.len() && 0 <= j < s.len() && i != j ==> #[trigger] s[i].id@ != #[trigger] s[j].id@
}

/// The position of the pack with id `id`.
pub open spec fn index_of_id(s: Seq<Pack>, id: Seq<char>) -> Option<int> {
    if exists|i: int| 0 <= i < s.len() && #[trigger] s[i].id@ == id {
        Some(choose|i: int| 0 <= i < s.len() && #[trigger] s[i].id@ == id)
    } else {
        None
    }
}

/// The packs after inserting `p`: it replaces the pack with its id in that
/// pack's place, or goes last.
pub open spec fn inserted(s: Seq<Pack>, p: Pack) -> Seq<Pack> {
    match index_of_id(s, p.id@) {
        Some(i) => s.update(i, p),
        None => s.push(p),
    }
}

/// The packs after removing the one with id `id` (the others keep their
/// order).
pub open spec fn removed(s: Seq<Pack>, id: Seq<char>) -> Seq<Pack> {
    match index_of_id(s, id) {
        Some(i) => s.remove(i),
        None => s,
    }
}

/// The packs with those at positions `a` and `b` exchanged.
pub open spec fn swapped(s: Seq<Pack>, a: int, b: int) -> Seq<Pack> {
    s.update(a, s[b]).update(b, s[a])
}

/// Whether the pack with id `id` exists and is not first.
pub open spec fn can_move_up(s: Seq<Pack>, id: Seq<char>) -> bool {
    index_of_id(s, id) matches Some(i) && i > 0
}

/// Whether the pack with id `id` exists and is not last.
pub open spec fn can_move_down(s: Seq<Pack>, id: Seq<char>) -> bool {
    index_of_id(s, id) matches Some(i) && i + 1 < s.len()
}

/// The packs after moving the one with id `id` one place earlier.
pub open spec fn moved_up(s: Seq<Pack>, id: Seq<char>) -> Seq<Pack> {
    if can_move_up(s, id) {
        let i = index_of_id(s, id)->0;
        swapped(s, i, i - 1)
    } else {
        s
    }
}

/// The packs after moving the one with id `id` one place later.
pub open spec fn moved_down(s: Seq<Pack>, id: Seq<char>) -> Seq<Pack> {
    if can_move_down(s, id) {
        let i = index_of_id(s, id)->0;
        swapped(s, i, i + 1)
    } else {
        s
    }
}

/// In a registry without repeated ids, the pack with a given id is found
/// at its position.
pub proof fn lemma_index_of_unique(s: Seq<Pack>, id: Seq<char>, i: int)
    requires
        ids_distinct(s),
        0 <= i < s.len(),
        s[i].id@ == id,
    ensures
        index_of_id(s, id) == Some(i),
{
    let j = choose|j: int| 0 <= j < s.len() && #[trigger] s[j].id@ == id;
    if j != i {
        assert(s[i].id@ != s[j].id@);
    }
}

proof fn lemma_swapped_distinct(s: Seq<Pack>, a: int, b: int)
    requires
        ids_distinct(s),
        0 <= a < s.len(),
        0 <= b < s.len(),
    ensures
        ids_distinct(swapped(s, a, b)),
{
    let t = swapped(s, a, b);
    assert forall|i: int, j: int| 0 <= i < t.len() && 0 <= j < t.len() && i != j implies #[trigger] t[i].id@ != #[trigger] t[j].id@ by {
        let oi = if i == a { b } else if i == b { a } else { i };
        let oj = if j == a { b } else if j == b { a } else { j };
        assert(t[i] == s[oi] && t[j] == s[oj]);
    }
}

/// Moving a pack up and then down again restores the order.
pub proof fn lemma_move_up_then_down(s: Seq<Pack>, id: Seq<char>)
    requires
        ids_distinct(s),
        can_move_up(s, id),
    ensures
        can_move_down(moved_up(s, id), id),
        moved_down(moved_up(s, id), id) == s,
{
    let i = index_of_id(s, id)->0;
    let t = swapped(s, i, i - 1);
    lemma_swapped_distinct(s, i, i - 1);
    lemma_index_of_unique(t, id, i - 1);
    assert(swapped(t, i - 1, i) =~= s);
}

/// Moving a pack down and then up again restores the order.
pub proof fn lemma_move_down_then_up(s: Seq<Pack>, id: Seq<char>)
    requires
        ids_distinct(s),
        can_move_down(s, id),
    ensures
        can_move_up(moved_down(s, id), id),
        moved_up(moved_down(s, id), id) == s,
{
    let i = index_of_id(s, id)->0;
    let t = swapped(s, i, i + 1);
    lemma_swapped_distinct(s, i, i + 1);
    lemma_index_of_unique(t, id, i + 1);
    assert(swapped(t, i + 1, i) =~= s);
}

/// A move keeps the same packs, only their order changes, and it keeps ids
/// distinct.
pub proof fn lemma_moves_keep_packs(s: Seq<Pack>, id: Seq<char>)
    requires
        ids_distinct(s),
    ensures
        moved_up(s, id).to_multiset() == s.to_multiset(),
        moved_down(s, id).to_multiset() == s.to_multiset(),
        ids_distinct(moved_up(s, id)),
        ids_distinct(moved_down(s, id)),
{
    broadcast use vstd::seq_lib::group_to_multiset_ensures;
    if can_move_up(s, id) {
        let i = index_of_id(s, id)->0;
        lemma_swapped_distinct(s, i, i - 1);
        lemma_swap_multiset(s, i, i - 1);
    }
    if can_move_down(s, id) {
        let i = index_of_id(s, id)->0;
        lemma_swapped_distinct(s, i, i + 1);
        lemma_swap_multiset(s, i, i + 1);
    }
}

proof fn lemma_swap_multiset(s: Seq<Pack>, a: int, b: int)
    requires
        0 <= a < s.len(),
        0 <= b < s.len(),
    ensures
        swapped(s, a, b).to_multiset() == s.to_multiset(),
{
    broadcast use vstd::seq_lib::group_to_multiset_ensures;
    let t = s.update(a, s[b]);
    assert(t.to_multiset() == s.to_multiset().remove(s[a]).insert(s[b]));
    assert(swapped(s, a, b).to_multiset() == t.to_multiset().remove(t[b]).insert(s[a]));
    if a != b {
        assert(t[b] == s[b]);
    }
    assert(swapped(s, a, b).to_multiset() =~= s.to_multiset());
}

/// After an insert the registry holds the new pack under its id, ids stay
/// distinct, and the number of packs grows by one exactly when the id was
/// new.
pub proof fn lemma_insert_then_get(s: Seq<Pack>, p: Pack)
    requires
        ids_distinct(s),
    ensures
        ids_distinct(inserted(s, p)),
        index_of_id(inserted(s, p), p.id@) matches Some(j) && inserted(s, p)[j] == p,
        inserted(s, p).len() == s.len() + (if index_of_id(s, p.id@) is Some { 0int } else { 1int }),
{
    let t = inserted(s, p);
    match index_of_id(s, p.id@) {
        Some(i) => {
            assert forall|a: int, b: int| 0 <= a < t.len() && 0 <= b < t.len() && a != b implies #[trigger] t[a].id@ != #[trigger] t[b].id@ by {
                if a != i && b != i {
                    assert(t[a] == s[a] && t[b] == s[b]);
                } else if a == i {
                    assert(t[b] == s[b]);
                    assert(s[i].id@ != s[b].id@);
                } else {
                    assert(t[a] == s[a]);
                    assert(s[i].id@ != s[a].id@);
                }
            }
            lemma_index_of_unique(t, p.id@, i);
        },
        None => {
            assert forall|a: int, b: int| 0 <= a < t.len() && 0 <= b < t.len() && a != b implies #[trigger] t[a].id@ != #[trigger] t[b].id@ by {
                if a < s.len() && b < s.len() {
                    assert(t[a] == s[a] && t[b] == s[b]);
                } else if a == s.len() {
                    assert(t[b] == s[b]);
                    assert(s[b].id@ != p.id@);
                } else {
                    assert(t[a] == s[a]);
                    assert(s[a].id@ != p.id@);
                }
            }
            lemma_index_of_unique(t, p.id@, s.len() as int);
        },
    }
}

/// After a remove no pack has the id, and the other packs stay, in order.
pub proof fn lemma_remove_then_get(s: Seq<Pack>, id: Seq<char>)
    requires
        ids_distinct(s),
    ensures
        index_of_id(removed(s, id), id) is None,
        ids_distinct(removed(s, id)),
        forall|k: int| 0 <= k < s.len() && s[k].id@ != id ==> removed(s, id).contains(#[trigger] s[k]),
{
    let t = removed(s, id);
    match index_of_id(s, id) {
        Some(i) => {
            assert forall|k: int| 0 <= k < t.len() implies #[trigger] t[k].id@ != id by {
                let o = if k < i { k } else { k + 1 };
                assert(t[k] == s[o]);
                assert(s[i].id@ != s[o].id@);
            }
            assert forall|a: int, b: int| 0 <= a < t.len() && 0 <= b < t.len() && a != b implies #[trigger] t[a].id@ != #[trigger] t[b].id@ by {
                let oa = if a < i { a } else { a + 1 };
                let ob = if b < i { b } else { b + 1 };
                assert(t[a] == s[oa] && t[b] == s[ob]);
            }
            assert forall|k: int| 0 <= k < s.len() && s[k].id@ != id implies t.contains(#[trigger] s[k]) by {
                if k < i {
                    assert(t[k] == s[k]);
                } else {
                    assert(t[k - 1] == s[k]);
                }
            }
        },
        None => {
            assert forall|k: int| 0 <= k < s.len() && s[k].id@ != id implies t.contains(#[trigger] s[k]) by {
                assert(t[k] == s[k]);
            }
        },
    }
}

/// The loaded packs, in order, each under its id.
#[derive(Debug)]
pub struct Registry {
    packs: IndexMap<PackId, Pack>,
}

impl View for Registry {
    type V = Seq<Pack>;

    closed spec fn view(&self) -> Seq<Pack> {
        entry_packs(index_map_entries(self.packs))
    }
}

proof fn lemma_key_index_matches(e: Seq<(PackId, Pack)>, k: Seq<char>)
    requires
        keys_distinct(e),
        forall|i: int| 0 <= i < e.len() ==> (#[trigger] e[i]).0@ == e[i].1.id@,
    ensures
        key_index(e, k) == index_of_id(entry_packs(e), k),
        ids_distinct(entry_packs(e)),
{
    let s = entry_packs(e);
    assert forall|i: int| 0 <= i < e.len() implies #[trigger] s[i].id@ == e[i].0@ by {}
    if exists|i: int| 0 <= i < e.len() && #[trigger] e[i].0@ == k {
        let a = choose|i: int| 0 <= i < e.len() && #[trigger] e[i].0@ == k;
        assert(s[a].id@ == k);
        let b = choose|i: int| 0 <= i < s.len() && #[trigger] s[i].id@ == k;
        assert(e[b].0@ == k);
    } else {
        assert forall|i: int| 0 <= i < s.len() implies #[trigger] s[i].id@ != k by {
            assert(e[i].0@ != k);
        }
    }
    assert forall|i: int, j: int| 0 <= i < s.len() && 0 <= j < s.len() && i != j implies #[trigger] s[i].id@ != #[trigger] s[j].id@ by {
        assert(e[i].0@ != e[j].0@);
    }
}

impl Registry {
    #[verifier::type_invariant]
    closed spec fn inv(self) -> bool {
        &&& keys_distinct(index_map_entries(self.packs))
        &&& forall|i: int|
            0 <= i < index_map_entries(self.packs).len() ==> (#[trigger] index_map_entries(
                self.packs,
            )[i]).0@ == index_map_entries(self.packs)[i].1.id@
    }

    /// Every pack in the registry has its own id.
    pub fn lemma_ids_distinct(&self)
        ensures
            ids_distinct(self@),
    {
        proof {
            use_type_invariant(self);
            lemma_key_index_matches(index_map_entries(self.packs), Seq::empty());
        }
    }

    /// An empty registry.
    pub fn new() -> (r: Registry)
        ensures
            r@ == Seq::<Pack>::empty(),
    {
        let r = Registry { packs: map_new() };
        assert(r@ =~= Seq::<Pack>::empty());
        r
    }

    /// Adds `pack` under its id, replacing the pack with that id in its
    /// place, or appending it.
    pub fn insert(&mut self, pack: Pack)
        ensures
            final(self)@ == inserted(old(self)@, pack),
    {
        proof {
            use_type_invariant(&*self);
            lemma_key_index_matches(index_map_entries(self.packs), pack.id@);
        }
        let ghost e = index_map_entries(self.packs);
        let key = pack.id.duplicate();
        let mut packs = map_new();
        std::mem::swap(&mut packs, &mut self.packs);
        let ghost pv = pack;
        map_insert(&mut packs, key, pack);
        proof {
            let e2 = index_map_entries(packs);
            match key_index(e, pv.id@) {
                Some(i) => {
                    assert forall|j: int| 0 <= j < e2.len() implies (#[trigger] e2[j]).0@ == e2[j].1.id@ by {
                        if j != i {
                            assert(e2[j] == e[j]);
                        }
                    }
                    assert(entry_packs(e2) =~= inserted(
                        entry_packs(e),
                        pv,
                    ));
                },
                None => {
                    assert forall|j: int| 0 <= j < e2.len() implies (#[trigger] e2[j]).0@ == e2[j].1.id@ by {
                        if j < e.len() {
                            assert(e2[j] == e[j]);
                        }
                    }
                    assert(entry_packs(e2) =~= inserted(
                        entry_packs(e),
                        pv,
                    ));
                },
            }
        }
        self.packs = packs;
    }

    /// Removes the pack with id `id`, if there is one, and returns it.
    pub fn remove(&mut self, id: &PackId) -> (r: Option<Pack>)
        ensures
            final(self)@ == removed(old(self)@, id@),
            match index_of_id(old(self)@, id@) {
                Some(i) => r == Some(old(self)@[i]),
                None => r is None,
            },
    {
        proof {
            use_type_invariant(&*self);
            lemma_key_index_matches(index_map_entries(self.packs), id@);
        }
        let ghost e = index_map_entries(self.packs);
        let mut packs = map_new();
        std::mem::swap(&mut packs, &mut self.packs);
        let r = map_shift_remove(&mut packs, id);
        proof {
            let e2 = index_map_entries(packs);
            if let Some(i) = key_index(e, id@) {
                assert forall|j: int| 0 <= j < e2.len() implies (#[trigger] e2[j]).0@ == e2[j].1.id@ by {
                    if j < i {
                        assert(e2[j] == e[j]);
                    } else {
                        assert(e2[j] == e[j + 1]);
                    }
                }
            }
            assert(entry_packs(e2) =~= removed(
                entry_packs(e),
                id@,
            ));
        }
        self.packs = packs;
        r
    }

    /// The pack with id `id`.
    pub fn get(&self, id: &PackId) -> (r: Option<&Pack>)
        ensures
            match index_of_id(self@, id@) {
                Some(i) => r == Some(&self@[i]),
                None => r is None,
            },
    {
        proof {
            use_type_invariant(self);
            lemma_key_index_matches(index_map_entries(self.packs), id@);
        }
        match map_get_index_of(&self.packs, id) {
            Some(i) => {
                match map_get_index(&self.packs, i) {
                    Some((_, p)) => Some(p),
                    None => None,
                }
            },
            None => None,
        }
    }

    /// The pack at position `i`.
    pub fn get_index(&self, i: usize) -> (r: Option<&Pack>)
        ensures
            i < self@.len() ==> r == Some(&self@[i as int]),
            i >= self@.len() ==> r is None,
    {
        match map_get_index(&self.packs, i) {
            Some((_, p)) => Some(p),
            None => None,
        }
    }

    /// The packs in order.
    pub fn iter(&self) -> (r: Vec<&Pack>)
        ensures
            r@.len() == self@.len(),
            forall|i: int| 0 <= i < r@.len() ==> *r@[i] == self@[i],
    {
        let n = self.len();
        let mut out: Vec<&Pack> = Vec::new();
        let mut i: usize = 0;
        while i < n
            invariant
                n == self@.len(),
                i <= n,
                out@.len() == i,
                forall|j: int| 0 <= j < i ==> *out@[j] == self@[j],
            decreases n - i,
        {
            match self.get_index(i) {
                Some(p) => out.push(p),
                None => {},
            }
            i = i + 1;
        }
        out
    }

    pub fn len(&self) -> (r: usize)
        ensures
            r == self@.len(),
    {
        map_len(&self.packs)
    }

    pub fn is_empty(&self) -> (r: bool)
        ensures
            r == (self@.len() == 0),
    {
        map_len(&self.packs) == 0
    }

    /// Exchanges the packs at positions `a` and `b`.
    fn swap(&mut self, a: usize, b: usize)
        requires
            a < old(self)@.len(),
            b < old(self)@.len(),
        ensures
            final(self)@ == swapped(old(self)@, a as int, b as int),
    {
        proof { use_type_invariant(&*self); }
        let ghost e = index_map_entries(self.packs);
        let mut packs = map_new();
        std::mem::swap(&mut packs, &mut self.packs);
        map_swap_indices(&mut packs, a, b);
        proof {
            let e2 = index_map_entries(packs);
            assert forall|i: int, j: int| 0 <= i < e2.len() && 0 <= j < e2.len() && i != j implies #[trigger] e2[i].0@ != #[trigger] e2[j].0@ by {
                let oi = if i == a { b as int } else if i == b { a as int } else { i };
                let oj = if j == a { b as int } else if j == b { a as int } else { j };
                assert(e2[i] == e[oi] && e2[j] == e[oj]);
            }
            assert forall|j: int| 0 <= j < e2.len() implies (#[trigger] e2[j]).0@ == e2[j].1.id@ by {
                let oj = if j == a { b as int } else if j == b { a as int } else { j };
                assert(e2[j] == e[oj]);
            }
            assert(entry_packs(e2) =~= swapped(
                entry_packs(e),
                a as int,
                b as int,
            ));
        }
        self.packs = packs;
    }

    /// Moves the pack with id `id` one place earlier. `false` (and no
    /// change) where there is no such pack or it is already first.
    pub fn move_up(&mut self, id: &PackId) -> (r: bool)
        ensures
            r == can_move_up(old(self)@, id@),
            final(self)@ == moved_up(old(self)@, id@),
    {
        proof {
            use_type_invariant(&*self);
            lemma_key_index_matches(index_map_entries(self.packs), id@);
        }
        match map_get_index_of(&self.packs, id) {
            Some(idx) => {
                if idx > 0 {
                    self.swap(idx, idx - 1);
                    true
                } else {
                    false
                }
            },
            None => false,
        }
    }

    /// Moves the pack with id `id` one place later. `false` (and no change)
    /// where there is no such pack or it is already last.
    pub fn move_down(&mut self, id: &PackId) -> (r: bool)
        ensures
            r == can_move_down(old(self)@, id@),
            final(self)@ == moved_down(old(self)@, id@),
    {
        proof {
            use_type_invariant(&*self);
            lemma_key_index_matches(index_map_entries(self.packs), id@);
        }
        let n = map_len(&self.packs);
        match map_get_index_of(&self.packs, id) {
            Some(idx) => {
                if idx + 1 < n {
                    self.swap(idx, idx + 1);
                    true
                } else {
                    false
                }
            },
            None => false,
        }
    }
}

/// The label a user's text gives: the text without surrounding white
/// space, or no label where nothing is left.
pub open spec fn label_from(text: Seq<char>) -> Option<Seq<char>> {
    if trimmed(text).len() == 0 {
        None
    } else {
        Some(trimmed(text))
    }
}

/// A label is the user's text with only the white space around it taken
/// off: it is the part of the text between its leading and its trailing
/// white space, with every character inside kept (white space between
/// words included), starting and ending with a character that is not white
/// space; and there is no label exactly where the text is all white space.
pub proof fn lemma_label_is_trimmed_text(text: Seq<char>)
    ensures
        label_from(text) is None <==> forall|j: int| 0 <= j < text.len() ==> is_space(#[trigger] text[j]),
        label_from(text) is Some ==> exists|a: int, b: int|
            {
                &&& 0 <= a < b <= text.len()
                &&& label_from(text)->0 == #[trigger] text.subrange(a, b)
                &&& forall|j: int| 0 <= j < a ==> is_space(#[trigger] text[j])
                &&& forall|j: int| b <= j < text.len() ==> is_space(#[trigger] text[j])
                &&& !is_space(text[a]) && !is_space(text[b - 1])
            },
{
    lemma_trimmed_bounds(text);
}

/// `q` is `p` with only its label changed, to `label`.
pub open spec fn relabeled(p: Pack, q: Pack, label: Option<Seq<char>>) -> bool {
    &&& q.id == p.id
    &&& q.base_url == p.base_url
    &&& q.manifest == p.manifest
    &&& q.cover_path == p.cover_path
    &&& q.sticker_paths == p.sticker_paths
    &&& opt_text(q.label) == label
}

impl Registry {
    /// Sets the display label of the pack with id `id` from the user's
    /// text (all white space clears it). `false`, and no change, where there
    /// is no such pack.
    pub fn set_label(&mut self, id: &PackId, label: &str) -> (r: bool)
        ensures
            r == index_of_id(old(self)@, id@) is Some,
            !r ==> final(self)@ == old(self)@,
            r ==> {
                let i = index_of_id(old(self)@, id@)->0;
                &&& final(self)@.len() == old(self)@.len()
                &&& forall|k: int| 0 <= k < old(self)@.len() && k != i ==> final(self)@[k] == old(self)@[k]
                &&& relabeled(old(self)@[i], final(self)@[i], label_from(label@))
            },
    {
        proof {
            use_type_invariant(&*self);
            lemma_key_index_matches(index_map_entries(self.packs), id@);
        }
        let t = trim(label);
        let new_label = if t.unicode_len() == 0 {
            None
        } else {
            Some(t.to_owned())
        };
        assert(opt_text(new_label) == label_from(label@));
        match map_get_index_of(&self.packs, id) {
            Some(i) => {
                let ghost e = index_map_entries(self.packs);
                let mut packs = map_new();
                std::mem::swap(&mut packs, &mut self.packs);
                let p = map_value_mut(&mut packs, i);
                p.label = new_label;
                proof {
                    let e2 = index_map_entries(packs);
                    assert forall|j: int| 0 <= j < e2.len() implies (#[trigger] e2[j]).0@ == e2[j].1.id@ by {
                        if j != i {
                            assert(e2[j] == e[j]);
                        }
                    }
                    assert forall|a: int, b: int| 0 <= a < e2.len() && 0 <= b < e2.len() && a != b implies #[trigger] e2[a].0@ != #[trigger] e2[b].0@ by {
                        assert(e2[a].0 == e[a].0 && e2[b].0 == e[b].0);
                    }
                    assert(entry_packs(e2).len() == entry_packs(e).len());
                }
                self.packs = packs;
                true
            },
            None => false,
        }
    }
}

impl Default for Registry {
    fn default() -> (r: Registry)
        ensures
            r@ == Seq::<Pack>::empty(),
    {
        Registry::new()
    }
}

} // verus!
