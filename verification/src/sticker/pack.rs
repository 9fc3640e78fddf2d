//! A sticker pack: its `pack.json` manifest, where its files are, and the
//! local copies of them.
use vstd::prelude::*;
use std::path::PathBuf;
use crate::text::{append_hex, hex_digits, str_eq, lemma_hex_digits_chars};
use vstd::string::StringSliceAdditionalSpecFns;
use vstd::utf8::encode_utf8;
use super::{PackId, StickerId, is_dot_name, check_dot_name};
use super::paths::StickerPaths;
use super::weburl::{WebUrl, UrlView, url_parse, url_join};

verus! {

/// The `pack.json` manifest of a pack.
#[derive(Debug, Clone, PartialEq)]
pub struct PackManifest {
    pub id: String,
    pub name: String,
    pub author: Option<String>,
    pub description: Option<String>,
    pub version: u32,
    pub cover: Option<String>,
    pub stickers: Vec<StickerDef>,
}

/// The manifest's `version` when it gives none.
pub fn default_version() -> (r: u32)
    ensures
        r == 1,
{
    1
}

/// One sticker of a manifest.
#[derive(Debug, Clone, PartialEq)]
pub struct StickerDef {
    pub id: String,
    pub file: String,
    pub emoji: String,
    pub tags: Vec<String>,
}

/// A pack that has been fetched: its id (possibly made unique locally), the
/// folder it was fetched from, its manifest, and the local copies of its
/// images.
#[derive(Debug, Clone)]
pub struct Pack {
    pub id: PackId,
    pub base_url: WebUrl,
    pub manifest: PackManifest,
    /// Local copy of the cover image, once cached.
    pub cover_path: Option<PathBuf>,
    /// Local copy of each sticker image that was cached, by sticker id.
    pub sticker_paths: StickerPaths,
    /// Display name chosen by the user in place of the manifest's name.
    pub label: Option<String>,
}

pub open spec fn url_opt_view(o: Option<WebUrl>) -> Option<UrlView> {
    match o {
        Some(u) => Some(u@),
        None => None,
    }
}

/// What a manifest's `file` (or `cover`) names: an absolute `http` or
/// `https` address as it is, no address for any other absolute address,
/// and otherwise the file resolved against the pack's folder.
pub open spec fn resolved_file(base: UrlView, file: Seq<char>) -> Option<UrlView> {
    match url_parse(file) {
        Some(abs) => if abs.scheme == "http"@ || abs.scheme == "https"@ {
            Some(abs)
        } else {
            None
        },
        None => url_join(base, file),
    }
}

/// Resolves a manifest `file` entry to an address.
pub fn resolve_file_url(base_url: &WebUrl, file: &str) -> (r: Option<WebUrl>)
    ensures
        url_opt_view(r) == resolved_file(base_url@, file@),
{
    match WebUrl::parse(file) {
        Some(abs) => {
            if str_eq(abs.scheme(), "http") || str_eq(abs.scheme(), "https") {
                Some(abs)
            } else {
                None
            }
        },
        None => match base_url.join(file) {
            Ok(u) => Some(u),
            Err(_) => None,
        },
    }
}

/// `i` is the first sticker of `s` whose id is `id`.
pub open spec fn is_first_with_id(s: Seq<StickerDef>, id: Seq<char>, i: int) -> bool {
    &&& 0 <= i < s.len()
    &&& s[i].id@ == id
    &&& forall|j: int| 0 <= j < i ==> s[j].id@ != id
}

/// No sticker of `s` has the id `id`.
pub open spec fn has_no_id(s: Seq<StickerDef>, id: Seq<char>) -> bool {
    forall|j: int| 0 <= j < s.len() ==> s[j].id@ != id
}

/// The address of the image of the first sticker with id `id`, if any.
pub open spec fn sticker_url_of(p: Pack, id: Seq<char>) -> Option<UrlView> {
    let s = p.manifest.stickers@;
    if exists|i: int| is_first_with_id(s, id, i) {
        resolved_file(p.base_url@, s[choose|i: int| is_first_with_id(s, id, i)].file@)
    } else {
        None
    }
}

/// The name every screen shows for a pack: the user's label if there is
/// one, else the manifest's name.
pub open spec fn shown_name(p: Pack) -> Seq<char> {
    match p.label {
        Some(l) => l@,
        None => p.manifest.name@,
    }
}

impl Pack {
    /// A pack with nothing cached and no label yet.
    pub fn new(id: PackId, base_url: WebUrl, manifest: PackManifest) -> (r: Pack)
        ensures
            r.id == id,
            r.base_url == base_url,
            r.manifest == manifest,
            r.cover_path is None,
            r.sticker_paths@.len() == 0,
            r.label is None,
    {
        Pack {
            id,
            base_url,
            manifest,
            cover_path: None,
            sticker_paths: StickerPaths::new(),
            label: None,
        }
    }

    /// The first sticker of the manifest with the given id.
    pub fn find(&self, sticker_id: &StickerId) -> (r: Option<&StickerDef>)
        ensures
            match r {
                Some(d) => exists|i: int|
                    is_first_with_id(self.manifest.stickers@, sticker_id@, i) && *d
                        == self.manifest.stickers@[i],
                None => has_no_id(self.manifest.stickers@, sticker_id@),
            },
    {
        let stickers = &self.manifest.stickers;
        let n = stickers.len();
        let mut i: usize = 0;
        while i < n
            invariant
                stickers == &self.manifest.stickers,
                n == stickers@.len(),
                i <= n,
                forall|j: int| 0 <= j < i ==> stickers@[j].id@ != sticker_id@,
            decreases n - i,
        {
            if str_eq(stickers[i].id.as_str(), sticker_id.as_str()) {
                let d = &stickers[i];
                assert(is_first_with_id(stickers@, sticker_id@, i as int) && *d == stickers@[i as int]);
                return Some(d);
            }
            i = i + 1;
        }
        None
    }

    /// The address of a sticker's image.
    pub fn sticker_url(&self, sticker_id: &StickerId) -> (r: Option<WebUrl>)
        ensures
            url_opt_view(r) == sticker_url_of(*self, sticker_id@),
    {
        match self.find(sticker_id) {
            Some(d) => {
                proof {
                    let s = self.manifest.stickers@;
                    let i = choose|i: int| is_first_with_id(s, sticker_id@, i) && *d == s[i];
                    let k = choose|k: int| is_first_with_id(s, sticker_id@, k);
                    assert(k == i);
                }
                resolve_file_url(&self.base_url, d.file.as_str())
            },
            None => None,
        }
    }

    /// The local copy of a sticker's image, if it was cached.
    pub fn sticker_path(&self, sticker_id: &StickerId) -> (r: Option<&PathBuf>)
        ensures
            match r {
                Some(p) => exists|i: int|
                    0 <= i < self.sticker_paths@.len() && self.sticker_paths@[i].0 == sticker_id@
                        && self.sticker_paths@[i].1 == *p,
                None => forall|i: int|
                    0 <= i < self.sticker_paths@.len() ==> self.sticker_paths@[i].0 != sticker_id@,
            },
    {
        self.sticker_paths.get(sticker_id.as_str())
    }

    /// The address of the cover image, if the manifest names one.
    pub fn cover_url(&self) -> (r: Option<WebUrl>)
        ensures
            match self.manifest.cover {
                Some(c) => url_opt_view(r) == resolved_file(self.base_url@, c@),
                None => r is None,
            },
    {
        match &self.manifest.cover {
            Some(c) => resolve_file_url(&self.base_url, c.as_str()),
            None => None,
        }
    }

    /// The user's label if there is one, else the manifest's name: what
    /// every screen shows.
    pub fn display_name(&self) -> (r: &str)
        ensures
            r@ == shown_name(*self),
    {
        match &self.label {
            Some(l) => l.as_str(),
            None => self.manifest.name.as_str(),
        }
    }
}

/// SeaHash of a byte string (`seahash::hash`).
pub uninterp spec fn seahash_of(data: Seq<u8>) -> u64;

/// Calls `seahash::hash`.
#[verifier::external_body]
pub(crate) fn seahash_bytes(data: &[u8]) -> (r: u64)
    ensures
        r == seahash_of(data@),
{
    seahash::hash(data)
}

/// The text after the last `c` of `s` (all of `s` when it holds no `c`).
pub open spec fn after_last(s: Seq<char>, c: char) -> Seq<char>
    decreases s.len(),
{
    if s.len() == 0 {
        s
    } else if s.last() == c {
        Seq::empty()
    } else {
        after_last(s.drop_last(), c).push(s.last())
    }
}

pub open spec fn is_ascii_alnum(c: char) -> bool {
    ||| '0' <= c <= '9'
    ||| 'a' <= c <= 'z'
    ||| 'A' <= c <= 'Z'
}

/// A file extension worth keeping: one to five ASCII letters or digits.
pub open spec fn is_short_extension(e: Seq<char>) -> bool {
    &&& 0 < e.len() <= 5
    &&& forall|i: int| 0 <= i < e.len() ==> is_ascii_alnum(#[trigger] e[i])
}

/// A name that stands for a folder or file of its own inside a folder:
/// not empty, neither `.` nor `..`, and free of `/`, `\` and `:` (so that
/// no platform reads it as a path of several parts, a drive or an absolute
/// path).
pub open spec fn is_plain_name(f: Seq<char>) -> bool {
    &&& f.len() > 0
    &&& !is_dot_name(f)
    &&& forall|i: int| 0 <= i < f.len() ==> #[trigger] f[i] != '/' && f[i] != '\\' && f[i] != ':'
}

/// A separator of the parts of a path on some platform: `/` or `\`.
pub open spec fn is_separator(c: char) -> bool {
    c == '/' || c == '\\'
}

/// A part `..` (the parent folder) starts at position `i` of `f`.
pub open spec fn parent_part_at(f: Seq<char>, i: int) -> bool {
    &&& 0 <= i
    &&& i + 1 < f.len()
    &&& f[i] == '.'
    &&& f[i + 1] == '.'
    &&& (i == 0 || is_separator(f[i - 1]))
    &&& (i + 2 == f.len() || is_separator(f[i + 2]))
}

/// A relative path that stays inside the folder it is joined to: not
/// empty, not starting with a separator (an absolute path), free of `:` (a
/// drive), and with no part `..`.
pub open spec fn stays_inside(f: Seq<char>) -> bool {
    &&& f.len() > 0
    &&& !is_separator(f[0])
    &&& forall|i: int| 0 <= i < f.len() ==> #[trigger] f[i] != ':'
    &&& forall|i: int| !#[trigger] parent_part_at(f, i)
}

/// The hashed name of a file entry whose bytes hash to `hash`:
/// `_ext_<16 hex digits of hash>` with the entry's short extension, if it
/// has one.
pub open spec fn hashed_name(file: Seq<char>, hash: u64) -> Seq<char> {
    let ext = after_last(file, '.');
    if is_short_extension(ext) {
        "_ext_"@ + hex_digits(hash as nat, 16) + seq!['.'] + ext
    } else {
        "_ext_"@ + hex_digits(hash as nat, 16)
    }
}

/// The SeaHash of a text's UTF-8 bytes.
pub open spec fn text_hash(t: Seq<char>) -> u64 {
    seahash_of(encode_utf8(t))
}

/// The local cache file name of a manifest `file` entry: a relative file
/// name maps to itself (one to one with the remote layout); an absolute
/// address becomes its hashed name.
pub open spec fn cache_file(file: Seq<char>) -> Seq<char> {
    if url_parse(file) is Some {
        hashed_name(file, text_hash(file))
    } else {
        file
    }
}

/// The name a downloaded image is stored under inside its pack's folder:
/// its cache file name where that stays inside the folder, and its hashed
/// name where it would leave it (a part `..`, an absolute or a drive path).
pub open spec fn stored_name(file: Seq<char>) -> Seq<char> {
    if stays_inside(cache_file(file)) {
        cache_file(file)
    } else {
        hashed_name(file, text_hash(file))
    }
}

/// Index of the last `c` in `s`, if any.
fn find_last(s: &str, c: char) -> (r: Option<usize>)
    ensures
        match r {
            Some(i) => i < s@.len() && s@[i as int] == c && forall|j: int| i < j < s@.len() ==> s@[j] != c,
            None => forall|j: int| 0 <= j < s@.len() ==> s@[j] != c,
        },
{
    let n = s.unicode_len();
    let mut i: usize = n;
    while i > 0
        invariant
            n == s@.len(),
            i <= n,
            forall|j: int| i <= j < n ==> s@[j] != c,
        decreases i,
    {
        if s.get_char(i - 1) == c {
            return Some(i - 1);
        }
        i = i - 1;
    }
    None
}

proof fn lemma_after_last(s: Seq<char>, c: char, k: int)
    requires
        -1 <= k < s.len(),
        k >= 0 ==> s[k] == c,
        forall|j: int| k < j < s.len() ==> s[j] != c,
    ensures
        after_last(s, c) == s.skip(k + 1),
    decreases s.len(),
{
    if s.len() > 0 {
        if k == s.len() - 1 {
            assert(s.skip(k + 1) =~= Seq::<char>::empty());
        } else {
            lemma_after_last(s.drop_last(), c, k);
            assert(s.drop_last().skip(k + 1).push(s.last()) =~= s.skip(k + 1));
        }
    } else {
        assert(s.skip(k + 1) =~= s);
    }
}

/// Whether `e` is a short extension.
fn check_short_extension(e: &str) -> (r: bool)
    ensures
        r == is_short_extension(e@),
{
    let n = e.unicode_len();
    if n == 0 || n > 5 {
        return false;
    }
    let mut i: usize = 0;
    while i < n
        invariant
            n == e@.len(),
            i <= n,
            forall|j: int| 0 <= j < i ==> is_ascii_alnum(#[trigger] e@[j]),
        decreases n - i,
    {
        let ch = e.get_char(i);
        if !(('0' <= ch && ch <= '9') || ('a' <= ch && ch <= 'z') || ('A' <= ch && ch <= 'Z')) {
            return false;
        }
        i = i + 1;
    }
    true
}

/// Whether `f` is a plain name.
pub(crate) fn check_plain_name(f: &str) -> (r: bool)
    ensures
        r == is_plain_name(f@),
{
    let n = f.unicode_len();
    if n == 0 || check_dot_name(f) {
        return false;
    }
    let mut i: usize = 0;
    while i < n
        invariant
            n == f@.len(),
            i <= n,
            forall|j: int| 0 <= j < i ==> #[trigger] f@[j] != '/' && f@[j] != '\\' && f@[j] != ':',
        decreases n - i,
    {
        let c = f.get_char(i);
        if c == '/' || c == '\\' || c == ':' {
            return false;
        }
        i = i + 1;
    }
    true
}

/// Whether the relative path `f` stays inside the folder it is joined to.
fn check_stays_inside(f: &str) -> (r: bool)
    ensures
        r == stays_inside(f@),
{
    let n = f.unicode_len();
    if n == 0 {
        return false;
    }
    let c0 = f.get_char(0);
    if c0 == '/' || c0 == '\\' {
        return false;
    }
    let mut i: usize = 0;
    while i < n
        invariant
            n == f@.len(),
            i <= n,
            forall|j: int| 0 <= j < i ==> #[trigger] f@[j] != ':',
            forall|j: int| j < i ==> !#[trigger] parent_part_at(f@, j),
        decreases n - i,
    {
        let c = f.get_char(i);
        if c == ':' {
            return false;
        }
        if c == '.' && i + 1 < n && f.get_char(i + 1) == '.' {
            let before = i == 0 || {
                let p = f.get_char(i - 1);
                p == '/' || p == '\\'
            };
            let after = i + 2 == n || {
                let q = f.get_char(i + 2);
                q == '/' || q == '\\'
            };
            if before && after {
                assert(parent_part_at(f@, i as int));
                return false;
            }
        }
        assert(!parent_part_at(f@, i as int));
        i = i + 1;
    }
    assert forall|j: int| !#[trigger] parent_part_at(f@, j) by {
        if j >= n {
            assert(!(j + 1 < f@.len()));
        }
    }
    true
}

/// The hashed name of a manifest `file` entry.
fn hashed_file_name(file: &str) -> (r: String)
    ensures
        r@ == hashed_name(file@, text_hash(file@)),
{
    let hash = seahash_bytes(file.as_bytes());
    let n = file.unicode_len();
    let start = match find_last(file, '.') {
        Some(i) => i + 1,
        None => 0,
    };
    proof {
        lemma_after_last(file@, '.', start - 1);
    }
    let ext = file.substring_char(start, n);
    assert(ext@ =~= file@.skip(start as int));
    let mut out = String::new();
    out.append("_ext_");
    append_hex(&mut out, hash, 16);
    if check_short_extension(ext) {
        let dot = ".";
        proof { reveal_strlit("."); }
        out.append(dot);
        out.append(ext);
    }
    assert(out@ =~= hashed_name(file@, hash));
    out
}

/// A hashed name stays inside any folder it is joined to: it starts with
/// `_`, holds no `:`, and holds at most one `.`.
pub proof fn lemma_hashed_name_stays_inside(file: Seq<char>, hash: u64)
    ensures
        stays_inside(hashed_name(file, hash)),
{
    lemma_hex_digits_chars(hash as nat, 16);
    reveal_strlit("_ext_");
    let ext = after_last(file, '.');
    let h = "_ext_"@ + hex_digits(hash as nat, 16);
    assert(h.len() == 21);
    assert forall|i: int| 0 <= i < h.len() implies #[trigger] h[i] != ':' && h[i] != '.' by {
        if i >= 5 {
            assert(h[i] == hex_digits(hash as nat, 16)[i - 5]);
        }
    }
    if is_short_extension(ext) {
        let t = h + seq!['.'] + ext;
        assert(t == hashed_name(file, hash));
        assert forall|i: int| 0 <= i < t.len() implies #[trigger] t[i] != ':' && (i != h.len() ==> t[i] != '.') by {
            if i < h.len() {
                assert(t[i] == h[i]);
            } else if i > h.len() {
                assert(t[i] == ext[i - h.len() - 1]);
                assert(is_ascii_alnum(ext[i - h.len() - 1]));
            }
        }
        assert forall|i: int| !#[trigger] parent_part_at(t, i) by {
            if parent_part_at(t, i) {
                assert(t[i] == '.' && t[i + 1] == '.');
            }
        }
        assert(t[0] == '_');
    } else {
        assert(h == hashed_name(file, hash));
        assert forall|i: int| !#[trigger] parent_part_at(h, i) by {
            if parent_part_at(h, i) {
                assert(h[i] == '.');
            }
        }
        assert(h[0] == '_');
    }
}

/// Every stored name stays inside its pack's folder.
pub proof fn lemma_stored_name_stays_inside(file: Seq<char>)
    ensures
        stays_inside(stored_name(file)),
{
    lemma_hashed_name_stays_inside(file, text_hash(file));
}

/// The local cache file name for a manifest `file` entry: a relative file
/// name maps to itself; an absolute address becomes
/// `_ext_<16 hex digits of its SeaHash>` with its short extension, if any.
pub fn cache_filename_for(file: &str) -> (r: String)
    ensures
        r@ == cache_file(file@),
{
    if WebUrl::parse(file).is_some() {
        hashed_file_name(file)
    } else {
        file.to_owned()
    }
}

/// The name a downloaded image of a manifest `file` entry is stored under
/// inside its pack's folder.
pub fn stored_file_name(file: &str) -> (r: String)
    ensures
        r@ == stored_name(file@),
        stays_inside(r@),
{
    proof {
        lemma_stored_name_stays_inside(file@);
    }
    let name = cache_filename_for(file);
    if check_stays_inside(name.as_str()) {
        name
    } else {
        hashed_file_name(file)
    }
}

} // verus!
