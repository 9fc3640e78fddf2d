//! Sticker packs: identifiers, the pack registry and the logic of the
//! operations the user interface performs on it.
pub mod cache;
pub mod fetch;
pub mod local_id;
pub mod pack;
pub mod paths;
pub mod persist;
pub mod recents;
pub mod registry;
pub mod weburl;
pub mod wire;

use vstd::prelude::*;
use crate::text::{is_space, char_is_space, append_hex, hex_digits, lemma_hex_digits_chars};
use std::path::PathBuf;
use pack::{Pack, seahash_bytes, sticker_url_of, url_opt_view};
use local_id::{id_suffix, local_id, suffixed, ids_of, first_free, entering, entering_id, count_long, lemma_suffixed_len, lemma_first_free_unique, lemma_entering, lemma_ids_of_contains, lemma_count_long_step};
use weburl::opt_text;
use paths::clone_path;
use registry::{Registry, index_of_id, ids_distinct, inserted, lemma_insert_then_get};
use weburl::{WebUrl, UrlView, url_join};
use std::collections::VecDeque;
use recents::{MAX_RECENTS, mru_push, views, without};

verus! {

/// What a pack id and a sticker id must look like: not empty, and free of
/// `/` and of white space (so that `pack/sticker` stays unambiguous).
pub open spec fn is_valid_id(s: Seq<char>) -> bool {
    &&& s.len() > 0
    &&& forall|i: int| 0 <= i < s.len() ==> #[trigger] s[i] != '/' && !is_space(s[i])
}

/// `.` or `..`: the names of a folder itself and of its parent.
pub open spec fn is_dot_name(s: Seq<char>) -> bool {
    s == seq!['.'] || s == seq!['.', '.']
}

/// Decides `is_dot_name` on a string.
pub fn check_dot_name(s: &str) -> (r: bool)
    ensures
        r == is_dot_name(s@),
{
    let n = s.unicode_len();
    if n == 1 {
        let r = s.get_char(0) == '.';
        assert(r ==> s@ =~= seq!['.']);
        r
    } else if n == 2 {
        let r = s.get_char(0) == '.' && s.get_char(1) == '.';
        assert(r ==> s@ =~= seq!['.', '.']);
        r
    } else {
        false
    }
}

/// Decides `is_valid_id` on a string.
pub fn check_id(s: &str) -> (r: bool)
    ensures
        r == is_valid_id(s@),
{
    let n = s.unicode_len();
    if n == 0 {
        return false;
    }
    let mut i: usize = 0;
    while i < n
        invariant
            n == s@.len(),
            i <= n,
            forall|j: int| 0 <= j < i ==> #[trigger] s@[j] != '/' && !is_space(s@[j]),
        decreases n - i,
    {
        let c = s.get_char(i);
        if c == '/' || char_is_space(c) {
            return false;
        }
        i = i + 1;
    }
    true
}

/// Identifier of a sticker pack, as used in the wire tag and as the key of
/// the registry.
#[derive(Debug, PartialEq, Eq, Hash)]
pub struct PackId(String);

impl View for PackId {
    type V = Seq<char>;

    closed spec fn view(&self) -> Seq<char> {
        self.0@
    }
}

impl PackId {
    #[verifier::type_invariant]
    closed spec fn inv(self) -> bool {
        is_valid_id(self.0@)
    }

    /// `Some` exactly when `s` is a valid id.
    pub fn new(s: &str) -> (r: Option<PackId>)
        ensures
            r is Some <==> is_valid_id(s@),
            r matches Some(id) ==> id@ == s@,
    {
        if check_id(s) {
            Some(PackId(s.to_owned()))
        } else {
            None
        }
    }

    pub fn as_str(&self) -> (r: &str)
        ensures
            r@ == self@,
    {
        self.0.as_str()
    }

    /// Every pack id is valid (a no-op at run time that brings the fact
    /// into the caller's proof).
    pub fn lemma_valid(&self)
        ensures
            is_valid_id(self@),
    {
        proof { use_type_invariant(self); }
    }

    /// A copy with the same text.
    pub fn duplicate(&self) -> (r: PackId)
        ensures
            r@ == self@,
    {
        proof { use_type_invariant(self); }
        PackId(self.0.clone())
    }

    /// Whether two ids have the same text.
    pub fn same(&self, other: &PackId) -> (r: bool)
        ensures
            r == (self@ == other@),
    {
        self.0 == other.0
    }
}

impl Clone for PackId {
    fn clone(&self) -> (r: Self)
        ensures
            r@ == self@,
    {
        self.duplicate()
    }
}

/// Identifier of a sticker inside its pack.
#[derive(Debug, PartialEq, Eq, Hash)]
pub struct StickerId(String);

impl View for StickerId {
    type V = Seq<char>;

    closed spec fn view(&self) -> Seq<char> {
        self.0@
    }
}

impl StickerId {
    #[verifier::type_invariant]
    closed spec fn inv(self) -> bool {
        is_valid_id(self.0@)
    }

    /// `Some` exactly when `s` is a valid id.
    pub fn new(s: &str) -> (r: Option<StickerId>)
        ensures
            r is Some <==> is_valid_id(s@),
            r matches Some(id) ==> id@ == s@,
    {
        if check_id(s) {
            Some(StickerId(s.to_owned()))
        } else {
            None
        }
    }

    pub fn as_str(&self) -> (r: &str)
        ensures
            r@ == self@,
    {
        self.0.as_str()
    }

    /// Every sticker id is valid (a no-op at run time that brings the fact
    /// into the caller's proof).
    pub fn lemma_valid(&self)
        ensures
            is_valid_id(self@),
    {
        proof { use_type_invariant(self); }
    }

    /// A copy with the same text.
    pub fn duplicate(&self) -> (r: StickerId)
        ensures
            r@ == self@,
    {
        proof { use_type_invariant(self); }
        StickerId(self.0.clone())
    }

    /// Whether two ids have the same text.
    pub fn same(&self, other: &StickerId) -> (r: bool)
        ensures
            r == (self@ == other@),
    {
        self.0 == other.0
    }
}

impl Clone for StickerId {
    fn clone(&self) -> (r: Self)
        ensures
            r@ == self@,
    {
        self.duplicate()
    }
}

/// A sticker named by its pack and its id in that pack.
#[derive(Debug, PartialEq, Eq, Hash)]
pub struct StickerRef {
    pub pack: PackId,
    pub sticker: StickerId,
}

impl View for StickerRef {
    type V = (Seq<char>, Seq<char>);

    open spec fn view(&self) -> (Seq<char>, Seq<char>) {
        (self.pack@, self.sticker@)
    }
}

impl StickerRef {
    /// A copy naming the same sticker.
    pub fn duplicate(&self) -> (r: StickerRef)
        ensures
            r@ == self@,
    {
        StickerRef { pack: self.pack.duplicate(), sticker: self.sticker.duplicate() }
    }

    /// Whether two references name the same sticker.
    pub fn same(&self, other: &StickerRef) -> (r: bool)
        ensures
            r == (self@ == other@),
    {
        self.pack.same(&other.pack) && self.sticker.same(&other.sticker)
    }
}

impl Clone for StickerRef {
    fn clone(&self) -> (r: Self)
        ensures
            r@ == self@,
    {
        self.duplicate()
    }
}

/// Errors of fetching and reading a pack that the library itself detects
/// (a failed request and a manifest that is not JSON are told apart where
/// the request is made).
#[derive(Debug)]
pub enum Error {
    /// The pack's address does not resolve.
    BadUrl(url::ParseError),
    /// The manifest's `id` is not a valid pack id.
    InvalidPackId(String),
    /// The manifest is larger than the configured limit.
    ManifestTooLarge { max: usize },
}

/// The address of a sticker's image, looked up in `registry`.
pub fn resolve_url(registry: &Registry, pack_id: &PackId, sticker_id: &StickerId) -> (r: Option<WebUrl>)
    ensures
        url_opt_view(r) == match index_of_id(registry@, pack_id@) {
            Some(i) => sticker_url_of(registry@[i], sticker_id@),
            None => None,
        },
{
    match registry.get(pack_id) {
        Some(p) => p.sticker_url(sticker_id),
        None => None,
    }
}

/// The local copy of a sticker's image, looked up in `registry`.
pub fn resolve_path(registry: &Registry, pack_id: &PackId, sticker_id: &StickerId) -> (r: Option<PathBuf>)
    ensures
        match index_of_id(registry@, pack_id@) {
            Some(i) => match r {
                Some(p) => exists|k: int|
                    0 <= k < registry@[i].sticker_paths@.len() && #[trigger] registry@[i].sticker_paths@[k]
                        == (sticker_id@, p),
                None => forall|k: int|
                    0 <= k < registry@[i].sticker_paths@.len() ==> (#[trigger] registry@[i].sticker_paths@[k]).0
                        != sticker_id@,
            },
            None => r is None,
        },
{
    match registry.get(pack_id) {
        Some(p) => match p.sticker_path(sticker_id) {
            Some(path) => Some(clone_path(path)),
            None => None,
        },
        None => None,
    }
}

/// Sticker `j` of pack `p` lives at the address `url`.
pub open spec fn sticker_at_url(p: Pack, j: int, url: UrlView) -> bool {
    &&& 0 <= j < p.manifest.stickers@.len()
    &&& url_join(p.base_url@, p.manifest.stickers@[j].file@) matches Some(c)
    &&& c.serialized == url.serialized
}

/// Some sticker of `p` lives at `url`.
pub open spec fn pack_owns_url(p: Pack, url: UrlView) -> bool {
    exists|j: int| sticker_at_url(p, j, url)
}

/// Whether some sticker of `p` lives at `url`.
fn pack_has_url(p: &Pack, url: &WebUrl) -> (r: bool)
    ensures
        r == pack_owns_url(*p, url@),
{
    let n = p.manifest.stickers.len();
    let mut j: usize = 0;
    while j < n
        invariant
            n == p.manifest.stickers@.len(),
            j <= n,
            forall|k: int| 0 <= k < j ==> !sticker_at_url(*p, k, url@),
        decreases n - j,
    {
        match p.base_url.join(p.manifest.stickers[j].file.as_str()) {
            Ok(candidate) => {
                if candidate.same(url) {
                    assert(sticker_at_url(*p, j as int, url@));
                    return true;
                }
            },
            Err(_) => {},
        }
        j = j + 1;
    }
    false
}

/// `r` is the answer to which pack owns `u` among `s`: the id of the first
/// pack that owns it, or none where no pack does.
pub open spec fn owner_answer(s: Seq<Pack>, u: UrlView, r: Option<Seq<char>>) -> bool {
    match r {
        Some(id) => exists|i: int|
            0 <= i < s.len() && pack_owns_url(#[trigger] s[i], u) && id == s[i].id@ && forall|k: int|
                0 <= k < i ==> !pack_owns_url(s[k], u),
        None => forall|i: int| 0 <= i < s.len() ==> !pack_owns_url(#[trigger] s[i], u),
    }
}

/// The id texts of an optional pack id.
pub open spec fn opt_id_text(r: Option<PackId>) -> Option<Seq<char>> {
    match r {
        Some(id) => Some(id@),
        None => None,
    }
}

/// Sticker `j` of pack `p`, whichever it is, has its image at `u`: its file
/// resolves against the pack's address to an address written as `u`.
pub open spec fn resolves_to(p: Pack, j: int, u: UrlView) -> bool {
    &&& 0 <= j < p.manifest.stickers@.len()
    &&& url_join(p.base_url@, p.manifest.stickers@[j].file@) is Some
    &&& url_join(p.base_url@, p.manifest.stickers@[j].file@)->0.serialized == u.serialized
}

/// The reverse lookup finds the owner through any of its stickers: where
/// some sticker `j` of pack `i` (the first, the second or any other) has
/// its image at `u`, and no sticker of an earlier pack does, the answer is
/// pack `i`; and where the answer is a pack, one of its stickers has its
/// image at `u`.
pub proof fn lemma_pack_for_url_any_sticker(s: Seq<Pack>, u: UrlView, r: Option<Seq<char>>, i: int, j: int)
    requires
        owner_answer(s, u, r),
        0 <= i < s.len(),
        resolves_to(s[i], j, u),
        forall|k: int, m: int| 0 <= k < i ==> !resolves_to(s[k], m, u),
    ensures
        r == Some(s[i].id@),
{
    assert(sticker_at_url(s[i], j, u));
    assert(pack_owns_url(s[i], u));
    match r {
        Some(id) => {
            let w = choose|w: int|
                0 <= w < s.len() && pack_owns_url(#[trigger] s[w], u) && id == s[w].id@ && forall|k: int|
                    0 <= k < w ==> !pack_owns_url(s[k], u);
            if w < i {
                let m = choose|m: int| sticker_at_url(s[w], m, u);
                assert(resolves_to(s[w], m, u));
            } else if w > i {
                assert(!pack_owns_url(s[i], u));
            }
        },
        None => {
            assert(!pack_owns_url(s[i], u));
        },
    }
}

/// Where the reverse lookup answers a pack, some sticker of that pack has
/// its image at the address.
pub proof fn lemma_pack_for_url_answer_owns(s: Seq<Pack>, u: UrlView, id: Seq<char>)
    requires
        owner_answer(s, u, Some(id)),
    ensures
        exists|i: int, j: int| 0 <= i < s.len() && s[i].id@ == id && #[trigger] resolves_to(s[i], j, u),
{
    let i = choose|i: int|
        0 <= i < s.len() && pack_owns_url(#[trigger] s[i], u) && id == s[i].id@ && forall|k: int|
            0 <= k < i ==> !pack_owns_url(s[k], u);
    let j = choose|j: int| sticker_at_url(s[i], j, u);
    assert(resolves_to(s[i], j, u));
}

/// The pack that owns a sticker image address: the first pack, in
/// registry order, with a sticker whose file resolves to `url`.
pub fn pack_for_url(registry: &Registry, url: &WebUrl) -> (r: Option<PackId>)
    ensures
        owner_answer(registry@, url@, opt_id_text(r)),
        match r {
            Some(id) => exists|i: int|
                0 <= i < registry@.len() && pack_owns_url(#[trigger] registry@[i], url@) && id@
                    == registry@[i].id@ && forall|k: int| 0 <= k < i ==> !pack_owns_url(registry@[k], url@),
            None => forall|i: int| 0 <= i < registry@.len() ==> !pack_owns_url(#[trigger] registry@[i], url@),
        },
{
    let n = registry.len();
    let mut i: usize = 0;
    while i < n
        invariant
            n == registry@.len(),
            i <= n,
            forall|k: int| 0 <= k < i ==> !pack_owns_url(registry@[k], url@),
        decreases n - i,
    {
        match registry.get_index(i) {
            Some(p) => {
                if pack_has_url(p, url) {
                    return Some(p.id.duplicate());
                }
            },
            None => {},
        }
        i = i + 1;
    }
    None
}

/// Gives `pack` a locally unique id when `existing` already holds a pack
/// with its id: the id with the suffix `_xxxxxx` (six hexadecimal digits of
/// the SeaHash of the pack's address), added again while that is taken too.
/// Where its id is free the pack is left alone. Only the id changes.
pub fn disambiguate_local_id(pack: &mut Pack, url: &WebUrl, existing: &Registry)
    ensures
        final(pack).id@ == entering_id(existing@, old(pack).id@, url@.serialized),
        index_of_id(existing@, final(pack).id@) is None,
        index_of_id(existing@, old(pack).id@) is None ==> *final(pack) == *old(pack),
        final(pack).base_url == old(pack).base_url,
        final(pack).manifest == old(pack).manifest,
        final(pack).cover_path == old(pack).cover_path,
        final(pack).sticker_paths == old(pack).sticker_paths,
        final(pack).label == old(pack).label,
{
    let ghost ids = ids_of(existing@);
    let ghost id = pack.id@;
    let ghost u = url@.serialized;
    if existing.get(&pack.id).is_none() {
        proof {
            lemma_ids_of_contains(existing@, id);
            assert(first_free(ids, id, u, 0));
            lemma_first_free_unique(ids, id, u, 0);
        }
        return;
    }
    proof {
        lemma_ids_of_contains(existing@, id);
    }
    let hash = seahash_bytes(url.as_str().as_bytes()) & 0xFF_FFFF;
    let mut suffix = String::new();
    let underscore = "_";
    proof { reveal_strlit("_"); }
    suffix.append(underscore);
    append_hex(&mut suffix, hash, 6);
    assert(suffix@ =~= id_suffix(u));
    pack.id.lemma_valid();
    proof {
        lemma_hex_digits_chars(hash as nat, 6);
        assert forall|i: int| 0 <= i < suffix@.len() implies #[trigger] suffix@[i] != '/' && !is_space(suffix@[i]) by {
            if i > 0 {
                assert(suffix@[i] == hex_digits(hash as nat, 6)[i - 1]);
            }
        }
    }
    let mut text = pack.id.as_str().to_owned();
    let ghost mut k: nat = 0;
    loop
        invariant
            suffix@ == id_suffix(u),
            u == url@.serialized,
            forall|i: int| 0 <= i < suffix@.len() ==> #[trigger] suffix@[i] != '/' && !is_space(suffix@[i]),
            suffix@.len() > 0,
            ids == ids_of(existing@),
            id == old(pack).id@,
            text@ == suffixed(id, u, k),
            is_valid_id(text@),
            ids.contains(text@),
            forall|m: nat| m <= k ==> ids.contains(#[trigger] suffixed(id, u, m)),
            *pack == *old(pack),
        decreases count_long(ids, text@.len()),
    {
        let ghost before = text@;
        text.append(suffix.as_str());
        proof {
            assert(text@ =~= local_id(before, u));
            assert forall|i: int| 0 <= i < text@.len() implies #[trigger] text@[i] != '/' && !is_space(text@[i]) by {
                if i < before.len() {
                    assert(text@[i] == before[i]);
                } else {
                    assert(text@[i] == suffix@[i - before.len()]);
                }
            }
            k = k + 1;
            lemma_suffixed_len(id, u, (k - 1) as nat);
            lemma_suffixed_len(id, u, k);
        }
        let candidate = PackId::new(text.as_str());
        match candidate {
            Some(c) => {
                if existing.get(&c).is_none() {
                    proof {
                        lemma_ids_of_contains(existing@, text@);
                        assert forall|m: nat| m < k implies ids.contains(#[trigger] suffixed(id, u, m)) by {}
                        assert(first_free(ids, id, u, k));
                        lemma_first_free_unique(ids, id, u, k);
                        assert(ids.contains(suffixed(id, u, 0)));
                        lemma_ids_of_contains(existing@, id);
                    }
                    pack.id = c;
                    return;
                }
                proof {
                    lemma_ids_of_contains(existing@, text@);
                    lemma_count_long_step(ids, before, text@);
                }
            },
            None => {
                assert(false);
                return;
            },
        }
    }
}

/// Admits a configured pack fetched from `url` into `registry`: it gets
/// the id it enters the registry under (its own id, or a locally unique
/// form where that is taken) and the label the configuration gives it.
pub fn admit_configured(registry: &Registry, pack: Pack, url: &WebUrl, label: Option<String>) -> (r: Pack)
    ensures
        r.id@ == entering_id(registry@, pack.id@, url@.serialized),
        index_of_id(registry@, r.id@) is None,
        opt_text(r.label) == opt_text(label),
        r.base_url == pack.base_url,
        r.manifest == pack.manifest,
        r.cover_path == pack.cover_path,
        r.sticker_paths == pack.sticker_paths,
{
    let mut pack = pack;
    disambiguate_local_id(&mut pack, url, registry);
    pack.label = label;
    pack
}

/// Two packs that share a manifest id are both kept: a pack inserted under
/// the id it enters with is added last, every loaded pack stays where it
/// was, and the loaded ids grow by that id.
pub proof fn lemma_disambiguated_insert_keeps_both(s: Seq<Pack>, p: Pack, id: Seq<char>, url_text: Seq<char>)
    requires
        ids_distinct(s),
        p.id@ == entering_id(s, id, url_text),
    ensures
        inserted(s, p) == s.push(p),
        inserted(s, p).len() == s.len() + 1,
        ids_distinct(inserted(s, p)),
        ids_of(inserted(s, p)) == ids_of(s).push(entering(ids_of(s), id, url_text)),
{
    lemma_entering(ids_of(s), id, url_text);
    lemma_ids_of_contains(s, p.id@);
    assert(index_of_id(s, p.id@) is None);
    lemma_insert_then_get(s, p);
    assert(ids_of(s.push(p)) =~= ids_of(s).push(p.id@));
}

/// Records a send in the most-recently-sent list `list`: the sticker moves
/// to the front (it appears only once), and the list is cut to
/// `MAX_RECENTS` entries. Returns the new list, most recent first, for
/// saving.
pub fn push_recent(list: &mut VecDeque<StickerRef>, pack_id: PackId, sticker_id: StickerId) -> (snapshot: Vec<StickerRef>)
    ensures
        views(final(list)@) == mru_push(views(old(list)@), (pack_id@, sticker_id@)),
        views(snapshot@) == views(final(list)@),
{
    let new_ref = StickerRef { pack: pack_id, sticker: sticker_id };
    let ghost r = new_ref@;
    let ghost old_views = views(list@);
    let mut kept: VecDeque<StickerRef> = VecDeque::new();
    let n = list.len();
    let mut i: usize = 0;
    while i < n
        invariant
            n == list@.len(),
            i <= n,
            old_views == views(list@),
            r == new_ref@,
            views(kept@) == without(old_views.take(i as int), r),
        decreases n - i,
    {
        let ghost before = kept@;
        assert(old_views.take(i + 1).drop_last() =~= old_views.take(i as int));
        assert(old_views.take(i + 1).last() == list@[i as int]@);
        if !list[i].same(&new_ref) {
            kept.push_back(list[i].duplicate());
            assert(views(kept@) =~= views(before).push(list@[i as int]@));
        }
        i = i + 1;
    }
    assert(old_views.take(n as int) =~= old_views);
    let ghost filtered = views(kept@);
    kept.push_front(new_ref);
    let ghost full = seq![r] + filtered;
    assert(views(kept@) =~= full);
    while kept.len() > MAX_RECENTS
        invariant
            views(kept@) == full.take(kept@.len() as int),
            kept@.len() <= full.len(),
            full.len() > MAX_RECENTS ==> kept@.len() >= MAX_RECENTS,
            full.len() <= MAX_RECENTS ==> kept@.len() == full.len(),
        decreases kept@.len(),
    {
        let ghost before = kept@;
        kept.pop_back();
        assert(views(kept@) =~= full.take(kept@.len() as int));
    }
    assert(full.len() <= MAX_RECENTS ==> full.take(kept@.len() as int) =~= full);
    *list = kept;
    recents(list)
}

/// Installs a list read back from disk in place of `list`.
pub fn replace_shared_recents(list: &mut VecDeque<StickerRef>, new: VecDeque<StickerRef>)
    ensures
        final(list)@ == new@,
{
    *list = new;
}

/// A copy of the recents list, most recently sent first.
pub fn recents(list: &VecDeque<StickerRef>) -> (r: Vec<StickerRef>)
    ensures
        views(r@) == views(list@),
{
    let mut out: Vec<StickerRef> = Vec::new();
    let n = list.len();
    let mut i: usize = 0;
    while i < n
        invariant
            n == list@.len(),
            i <= n,
            views(out@) == views(list@).take(i as int),
        decreases n - i,
    {
        let ghost before = out@;
        let item = list[i].duplicate();
        out.push(item);
        assert(out@ == before.push(item));
        assert(views(out@) =~= views(before).push(item@));
        assert(views(out@) =~= views(list@).take(i + 1));
        i = i + 1;
    }
    assert(views(list@).take(n as int) =~= views(list@));
    out
}

} // verus!
