//! Local files: the type of a local path, and the table of cached sticker
//! files of a pack, kept in the order of their sticker ids.
use vstd::prelude::*;
use std::path::PathBuf;

verus! {

#[verifier::external_type_specification]
#[verifier::external_body]
pub struct ExPathBuf(std::path::PathBuf);

/// Calls `PathBuf::clone`, which gives an equal path.
#[verifier::external_body]
pub(crate) fn clone_path(p: &PathBuf) -> (r: PathBuf)
    ensures
        r == *p,
{
    p.clone()
}

/// What `Path::join` gives: `base` with `segment` adjoined as one more
/// component (or `segment` alone where it is an absolute path). It is a
/// function of the two arguments alone; the separator is that of the
/// platform the crate is built for.
pub uninterp spec fn path_joined(base: PathBuf, segment: Seq<char>) -> PathBuf;

/// Calls `Path::join`.
#[verifier::external_body]
pub(crate) fn join_path(base: &PathBuf, segment: &str) -> (r: PathBuf)
    ensures
        r == path_joined(*base, segment@),
{
    base.join(segment)
}

/// Text order, character by character (the order of `String`, since
/// UTF-8 keeps the order of code points).
pub open spec fn text_lt(a: Seq<char>, b: Seq<char>) -> bool
    decreases a.len(),
{
    if a.len() == 0 {
        b.len() > 0
    } else if b.len() == 0 {
        false
    } else if (a[0] as int) < (b[0] as int) {
        true
    } else if a[0] == b[0] {
        text_lt(a.drop_first(), b.drop_first())
    } else {
        false
    }
}

pub proof fn lemma_text_lt_irreflexive(a: Seq<char>)
    ensures
        !text_lt(a, a),
    decreases a.len(),
{
    if a.len() > 0 {
        lemma_text_lt_irreflexive(a.drop_first());
    }
}

pub proof fn lemma_text_lt_transitive(a: Seq<char>, b: Seq<char>, c: Seq<char>)
    requires
        text_lt(a, b),
        text_lt(b, c),
    ensures
        text_lt(a, c),
    decreases a.len(),
{
    if a.len() > 0 && b.len() > 0 && c.len() > 0 {
        if a[0] == b[0] && b[0] == c[0] {
            lemma_text_lt_transitive(a.drop_first(), b.drop_first(), c.drop_first());
        }
    }
}

pub proof fn lemma_text_lt_total(a: Seq<char>, b: Seq<char>)
    requires
        a != b,
    ensures
        text_lt(a, b) || text_lt(b, a),
    decreases a.len(),
{
    if a.len() > 0 && b.len() > 0 {
        if a[0] == b[0] {
            if a.drop_first() == b.drop_first() {
                assert(a =~= seq![a[0]] + a.drop_first());
                assert(b =~= seq![b[0]] + b.drop_first());
            }
            lemma_text_lt_total(a.drop_first(), b.drop_first());
        } else {
            assert((a[0] as int) != (b[0] as int));
        }
    } else if a.len() == 0 && b.len() == 0 {
        assert(a =~= b);
    }
}

/// Decides `text_lt`.
pub fn text_less(a: &str, b: &str) -> (r: bool)
    ensures
        r == text_lt(a@, b@),
{
    let n = a.unicode_len();
    let m = b.unicode_len();
    let mut i: usize = 0;
    assert(a@.skip(0) =~= a@);
    assert(b@.skip(0) =~= b@);
    while i < n && i < m
        invariant
            n == a@.len(),
            m == b@.len(),
            i <= n,
            i <= m,
            text_lt(a@, b@) == text_lt(a@.skip(i as int), b@.skip(i as int)),
        decreases n - i,
    {
        let x = a.get_char(i);
        let y = b.get_char(i);
        let ghost sa = a@.skip(i as int);
        let ghost sb = b@.skip(i as int);
        assert(sa[0] == x && sb[0] == y);
        if (x as u32) < (y as u32) {
            return true;
        }
        if x != y {
            return false;
        }
        assert(sa.drop_first() =~= a@.skip(i + 1));
        assert(sb.drop_first() =~= b@.skip(i + 1));
        i = i + 1;
    }
    i < m
}

/// Keys in strictly increasing order (so each occurs once).
pub open spec fn sorted_keys(s: Seq<(Seq<char>, PathBuf)>) -> bool {
    forall|i: int, j: int| 0 <= i < j < s.len() ==> text_lt(#[trigger] s[i].0, #[trigger] s[j].0)
}

/// The file recorded for `key` in a table without repeated keys.
pub open spec fn lookup(s: Seq<(Seq<char>, PathBuf)>, key: Seq<char>) -> Option<PathBuf> {
    if exists|i: int| 0 <= i < s.len() && #[trigger] s[i].0 == key {
        Some(s[choose|i: int| 0 <= i < s.len() && #[trigger] s[i].0 == key].1)
    } else {
        None
    }
}

/// In a sorted table, the entry with a key is the one `lookup` reports.
pub proof fn lemma_lookup_at(s: Seq<(Seq<char>, PathBuf)>, i: int)
    requires
        sorted_keys(s),
        0 <= i < s.len(),
    ensures
        lookup(s, s[i].0) == Some(s[i].1),
{
    let k = choose|k: int| 0 <= k < s.len() && #[trigger] s[k].0 == s[i].0;
    if k < i {
        lemma_text_lt_irreflexive(s[i].0);
    } else if k > i {
        lemma_text_lt_irreflexive(s[i].0);
    }
}

/// The cached file of each sticker of a pack, by sticker id, in the
/// order of the ids. A sorted vector of entries, because vstd's contracts
/// for `BTreeMap` hold only for key types whose order vstd knows, and it
/// does not know `String`'s: after an insert into a `BTreeMap<String, _>`
/// nothing is known of the map, not even its length.
#[derive(Debug)]
pub struct StickerPaths {
    entries: Vec<(String, PathBuf)>,
}

impl View for StickerPaths {
    type V = Seq<(Seq<char>, PathBuf)>;

    closed spec fn view(&self) -> Seq<(Seq<char>, PathBuf)> {
        self.entries@.map_values(|e: (String, PathBuf)| (e.0@, e.1))
    }
}

impl StickerPaths {
    #[verifier::type_invariant]
    closed spec fn inv(self) -> bool {
        sorted_keys(self@)
    }

    /// No files.
    pub fn new() -> (r: StickerPaths)
        ensures
            r@ == Seq::<(Seq<char>, PathBuf)>::empty(),
    {
        let r = StickerPaths { entries: Vec::new() };
        assert(r@ =~= Seq::<(Seq<char>, PathBuf)>::empty());
        r
    }

    /// The entries are in increasing key order.
    pub fn lemma_sorted(&self)
        ensures
            sorted_keys(self@),
    {
        proof { use_type_invariant(self); }
    }

    pub fn len(&self) -> (r: usize)
        ensures
            r == self@.len(),
    {
        self.entries.len()
    }

    /// Records the file of `key`, replacing an earlier one; the keys stay in
    /// order.
    pub fn insert(&mut self, key: String, path: PathBuf)
        ensures
            (exists|i: int| 0 <= i < old(self)@.len() && old(self)@[i].0 == key@) ==> (exists|i: int|
                0 <= i < old(self)@.len() && old(self)@[i].0 == key@ && final(self)@ == old(self)@.update(
                    i,
                    (key@, path),
                )),
            (forall|i: int| 0 <= i < old(self)@.len() ==> old(self)@[i].0 != key@) ==> (exists|i: int|
                0 <= i <= old(self)@.len() && final(self)@ == old(self)@.insert(i, (key@, path))),
            sorted_keys(final(self)@),
            lookup(final(self)@, key@) == Some(path),
            forall|k: Seq<char>| k != key@ ==> lookup(final(self)@, k) == lookup(old(self)@, k),
    {
        proof { use_type_invariant(&*self); }
        let ghost s = self@;
        let ghost kv = key@;
        let ghost pv = path;
        let n = self.entries.len();
        let mut p: usize = 0;
        while p < n && text_less(self.entries[p].0.as_str(), key.as_str())
            invariant
                n == self.entries@.len(),
                s == self@,
                sorted_keys(s),
                p <= n,
                forall|j: int| 0 <= j < p ==> text_lt(s[j].0, key@),
            decreases n - p,
        {
            p = p + 1;
        }
        proof {
            lemma_text_lt_irreflexive(key@);
            assert forall|j: int| 0 <= j < p implies s[j].0 != key@ by {}
            if p < n {
                assert(!text_lt(s[p as int].0, key@));
                assert forall|j: int| p < j < n implies text_lt(key@, #[trigger] s[j].0) || key@ == s[p as int].0 by {
                    if key@ != s[p as int].0 {
                        lemma_text_lt_total(key@, s[p as int].0);
                        lemma_text_lt_transitive(key@, s[p as int].0, s[j].0);
                    }
                }
            }
        }
        if p < n && crate::text::str_eq(self.entries[p].0.as_str(), key.as_str()) {
            proof {
                assert forall|j: int| 0 <= j < n && j != p implies s[j].0 != key@ by {
                    if j > p {
                        assert(text_lt(s[p as int].0, s[j].0));
                        lemma_text_lt_irreflexive(key@);
                    }
                }
            }
            let mut entries: Vec<(String, PathBuf)> = Vec::new();
            std::mem::swap(&mut entries, &mut self.entries);
            entries.set(p, (key, path));
            proof {
                let t = s.update(p as int, (key@, path));
                assert(entries@.map_values(|e: (String, PathBuf)| (e.0@, e.1)) =~= t);
                assert forall|i: int, j: int| 0 <= i < j < t.len() implies text_lt(
                    #[trigger] t[i].0,
                    #[trigger] t[j].0,
                ) by {
                    assert(s[i].0 == t[i].0);
                    assert(s[j].0 == t[j].0);
                }
            }
            proof {
                let t = s.update(p as int, (kv, pv));
                lemma_lookup_at(t, p as int);
                assert forall|k: Seq<char>| k != kv implies lookup(t, k) == lookup(s, k) by {
                    if exists|i: int| 0 <= i < s.len() && #[trigger] s[i].0 == k {
                        let i = choose|i: int| 0 <= i < s.len() && #[trigger] s[i].0 == k;
                        assert(i != p);
                        assert(t[i] == s[i]);
                        lemma_lookup_at(t, i);
                        lemma_lookup_at(s, i);
                    } else {
                        assert forall|i: int| 0 <= i < t.len() implies #[trigger] t[i].0 != k by {
                            if i != p {
                                assert(t[i] == s[i]);
                            }
                        }
                    }
                }
            }
            self.entries = entries;
        } else {
            proof {
                assert forall|j: int| p <= j < n implies text_lt(key@, #[trigger] s[j].0) by {
                    if j == p {
                        lemma_text_lt_total(key@, s[p as int].0);
                    } else {
                        lemma_text_lt_total(key@, s[p as int].0);
                        lemma_text_lt_transitive(key@, s[p as int].0, s[j].0);
                    }
                }
                assert forall|j: int| 0 <= j < n implies s[j].0 != key@ by {
                    if j >= p {
                        lemma_text_lt_irreflexive(key@);
                    }
                }
            }
            let mut entries: Vec<(String, PathBuf)> = Vec::new();
            std::mem::swap(&mut entries, &mut self.entries);
            entries.insert(p, (key, path));
            proof {
                let t = s.insert(p as int, (key@, path));
                assert(entries@.map_values(|e: (String, PathBuf)| (e.0@, e.1)) =~= t);
                assert forall|i: int, j: int| 0 <= i < j < t.len() implies text_lt(
                    #[trigger] t[i].0,
                    #[trigger] t[j].0,
                ) by {
                    if i < p && j < p {
                        assert(t[i] == s[i] && t[j] == s[j]);
                    } else if i < p && j == p {
                    } else if i < p {
                        assert(t[i] == s[i] && t[j] == s[j - 1]);
                    } else if i == p {
                        assert(t[j] == s[j - 1]);
                    } else {
                        assert(t[i] == s[i - 1] && t[j] == s[j - 1]);
                    }
                }
            }
            proof {
                let t = s.insert(p as int, (kv, pv));
                lemma_lookup_at(t, p as int);
                assert forall|k: Seq<char>| k != kv implies lookup(t, k) == lookup(s, k) by {
                    if exists|i: int| 0 <= i < s.len() && #[trigger] s[i].0 == k {
                        let i = choose|i: int| 0 <= i < s.len() && #[trigger] s[i].0 == k;
                        let o = if i < p { i } else { i + 1 };
                        assert(t[o] == s[i]);
                        lemma_lookup_at(t, o);
                        lemma_lookup_at(s, i);
                    } else {
                        assert forall|i: int| 0 <= i < t.len() implies #[trigger] t[i].0 != k by {
                            if i < p {
                                assert(t[i] == s[i]);
                            } else if i > p {
                                assert(t[i] == s[i - 1]);
                            }
                        }
                    }
                }
            }
            self.entries = entries;
        }
    }

    /// The file recorded for `key`, if any.
    pub fn get(&self, key: &str) -> (r: Option<&PathBuf>)
        ensures
            match r {
                Some(p) => lookup(self@, key@) == Some(*p),
                None => lookup(self@, key@) is None,
            },
            match r {
                Some(p) => exists|i: int| 0 <= i < self@.len() && self@[i].0 == key@ && self@[i].1 == *p,
                None => forall|i: int| 0 <= i < self@.len() ==> self@[i].0 != key@,
            },
    {
        let n = self.entries.len();
        let mut i: usize = 0;
        while i < n
            invariant
                n == self@.len(),
                i <= n,
                forall|j: int| 0 <= j < i ==> self@[j].0 != key@,
            decreases n - i,
        {
            if crate::text::str_eq(self.entries[i].0.as_str(), key) {
                assert(self@[i as int] == (self.entries@[i as int].0@, self.entries@[i as int].1));
                proof {
                    use_type_invariant(self);
                    lemma_lookup_at(self@, i as int);
                }
                return Some(&self.entries[i].1);
            }
            i = i + 1;
        }
        None
    }

    /// The recorded files, in key order.
    pub fn values(&self) -> (r: Vec<&PathBuf>)
        ensures
            r@.len() == self@.len(),
            forall|i: int| 0 <= i < r@.len() ==> *r@[i] == self@[i].1,
    {
        let n = self.entries.len();
        let mut out: Vec<&PathBuf> = Vec::new();
        let mut i: usize = 0;
        while i < n
            invariant
                n == self@.len(),
                i <= n,
                out@.len() == i,
                forall|j: int| 0 <= j < i ==> *out@[j] == self@[j].1,
            decreases n - i,
        {
            out.push(&self.entries[i].1);
            i = i + 1;
        }
        out
    }
}

impl Clone for StickerPaths {
    fn clone(&self) -> (r: Self)
        ensures
            r@ == self@,
    {
        proof { use_type_invariant(self); }
        let n = self.entries.len();
        let mut out: Vec<(String, PathBuf)> = Vec::new();
        let mut i: usize = 0;
        while i < n
            invariant
                n == self@.len(),
                i <= n,
                out@.map_values(|e: (String, PathBuf)| (e.0@, e.1)) == self@.take(i as int),
            decreases n - i,
        {
            let ghost before = out@;
            let e = (self.entries[i].0.clone(), clone_path(&self.entries[i].1));
            out.push(e);
            assert(out@ == before.push(e));
            assert(self@[i as int] == (self.entries@[i as int].0@, self.entries@[i as int].1));
            assert(out@.map_values(|e: (String, PathBuf)| (e.0@, e.1)) =~= before.map_values(
                |e: (String, PathBuf)| (e.0@, e.1),
            ).push((e.0@, e.1)));
            assert(out@.map_values(|e: (String, PathBuf)| (e.0@, e.1)) =~= self@.take(i + 1));
            i = i + 1;
        }
        assert(self@.take(n as int) =~= self@);
        StickerPaths { entries: out }
    }
}

} // verus!
