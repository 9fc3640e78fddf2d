//! The sticker cache: where a pack's images are kept, which image files of
//! a pack to download, and where their local copies are recorded once
//! downloaded.
use vstd::prelude::*;
use std::path::PathBuf;
use super::pack::{Pack, StickerDef, is_plain_name, check_plain_name, stays_inside, stored_name, stored_file_name, text_hash};
use crate::text::{append_hex, hex_digits, lemma_hex_digits_chars};
use super::pack::seahash_bytes;
use super::paths::{StickerPaths, lookup, path_joined, join_path};
use super::weburl::{WebUrl, UrlView, url_join};

verus! {

/// The folder of all sticker images: `stickers` under the application's
/// cache folder.
pub open spec fn stickers_dir(cache_root: PathBuf) -> PathBuf {
    path_joined(cache_root, seq!['s', 't', 'i', 'c', 'k', 'e', 'r', 's'])
}

/// The name of a pack's folder in the sticker cache: its id where that is
/// a plain name (as ordinary ids are); otherwise (`.`, `..`, or an id with
/// `\` or `:`) `_id_` and 16 hex digits of the id's SeaHash.
pub open spec fn pack_folder(pack_id: Seq<char>) -> Seq<char> {
    if is_plain_name(pack_id) {
        pack_id
    } else {
        "_id_"@ + hex_digits(text_hash(pack_id) as nat, 16)
    }
}

/// The folder of one pack's images: its folder name under the stickers
/// folder.
pub open spec fn pack_dir(cache_root: PathBuf, pack_id: Seq<char>) -> PathBuf {
    path_joined(stickers_dir(cache_root), pack_folder(pack_id))
}

/// A pack's folder name is a plain name, so the folder is one of its own
/// directly inside the stickers folder.
pub proof fn lemma_pack_folder_is_plain(pack_id: Seq<char>)
    ensures
        is_plain_name(pack_folder(pack_id)),
{
    if !is_plain_name(pack_id) {
        let h = text_hash(pack_id);
        lemma_hex_digits_chars(h as nat, 16);
        reveal_strlit("_id_");
        let f = "_id_"@ + hex_digits(h as nat, 16);
        assert(f[0] == '_');
        assert(f.len() == 20);
        assert forall|i: int| 0 <= i < f.len() implies #[trigger] f[i] != '/' && f[i] != '\\' && f[i] != ':' by {
            if i >= 4 {
                assert(f[i] == hex_digits(h as nat, 16)[i - 4]);
            }
        }
    }
}

/// The folder of all sticker images, under the given cache folder.
pub fn stickers_cache_dir(cache_root: &PathBuf) -> (r: PathBuf)
    ensures
        r == stickers_dir(*cache_root),
{
    let name = "stickers";
    proof {
        reveal_strlit("stickers");
    }
    assert(name@ =~= seq!['s', 't', 'i', 'c', 'k', 'e', 'r', 's']);
    join_path(cache_root, name)
}

/// The folder of one pack's images, under the given cache folder.
pub fn pack_cache_dir(cache_root: &PathBuf, pack_id: &str) -> (r: PathBuf)
    ensures
        r == pack_dir(*cache_root, pack_id@),
{
    let dir = stickers_cache_dir(cache_root);
    if check_plain_name(pack_id) {
        join_path(&dir, pack_id)
    } else {
        let hash = seahash_bytes(pack_id.as_bytes());
        let mut name = String::new();
        let prefix = "_id_";
        proof {
            reveal_strlit("_id_");
        }
        name.append(prefix);
        append_hex(&mut name, hash, 16);
        join_path(&dir, name.as_str())
    }
}

/// One sticker image to download: the sticker's id, the image's address,
/// and where its local copy goes (the cache file name of the manifest
/// `file` entry, inside the pack's folder).
pub struct ImageJob {
    pub sticker_id: String,
    pub url: WebUrl,
    pub dest: PathBuf,
}

pub type JobView = (Seq<char>, UrlView, PathBuf);

pub open spec fn job_views(s: Seq<ImageJob>) -> Seq<JobView> {
    s.map_values(|j: ImageJob| (j.sticker_id@, j.url@, j.dest))
}

/// `p` lies inside the folder of pack `id` in the sticker cache under
/// `cache_root`: that folder (whose name is a plain name) joined with a
/// relative path that stays inside it.
pub open spec fn in_pack_folder(p: PathBuf, cache_root: PathBuf, id: Seq<char>) -> bool {
    exists|name: Seq<char>| stays_inside(name) && #[trigger] path_joined(pack_dir(cache_root, id), name) == p
}

/// The downloads for the stickers of a manifest: one per sticker whose
/// `file` resolves against the pack's address, in manifest order, each
/// stored under the stored name of that `file` inside `dir`.
pub open spec fn planned_jobs(base: UrlView, dir: PathBuf, s: Seq<StickerDef>) -> Seq<JobView>
    decreases s.len(),
{
    if s.len() == 0 {
        Seq::empty()
    } else {
        let rest = planned_jobs(base, dir, s.drop_last());
        match url_join(base, s.last().file@) {
            Some(u) => rest.push((s.last().id@, u, path_joined(dir, stored_name(s.last().file@)))),
            None => rest,
        }
    }
}

/// The sticker images of a pack to download into its folder of the sticker
/// cache under `cache_root`. Every destination lies inside that folder,
/// whatever the manifest's `file` entries and the pack's id say.
pub fn sticker_jobs(pack: &Pack, cache_root: &PathBuf) -> (r: Vec<ImageJob>)
    ensures
        job_views(r@) == planned_jobs(pack.base_url@, pack_dir(*cache_root, pack.id@), pack.manifest.stickers@),
        is_plain_name(pack_folder(pack.id@)),
        forall|k: int| 0 <= k < r@.len() ==> in_pack_folder(#[trigger] r@[k].dest, *cache_root, pack.id@),
{
    proof {
        lemma_pack_folder_is_plain(pack.id@);
    }
    let dir = pack_cache_dir(cache_root, pack.id.as_str());
    let stickers = &pack.manifest.stickers;
    let n = stickers.len();
    let mut out: Vec<ImageJob> = Vec::new();
    let mut i: usize = 0;
    while i < n
        invariant
            stickers == &pack.manifest.stickers,
            n == stickers@.len(),
            i <= n,
            dir == pack_dir(*cache_root, pack.id@),
            job_views(out@) == planned_jobs(pack.base_url@, dir, stickers@.take(i as int)),
            forall|k: int| 0 <= k < out@.len() ==> in_pack_folder(#[trigger] out@[k].dest, *cache_root, pack.id@),
        decreases n - i,
    {
        let ghost before = out@;
        assert(stickers@.take(i + 1).drop_last() =~= stickers@.take(i as int));
        assert(stickers@.take(i + 1).last() == stickers@[i as int]);
        match pack.base_url.join(stickers[i].file.as_str()) {
            Ok(u) => {
                let name = stored_file_name(stickers[i].file.as_str());
                let dest = join_path(&dir, name.as_str());
                assert(stays_inside(name@) && path_joined(pack_dir(*cache_root, pack.id@), name@) == dest);
                let job = ImageJob { sticker_id: stickers[i].id.clone(), url: u, dest };
                out.push(job);
                assert(job_views(out@) =~= job_views(before).push((job.sticker_id@, job.url@, job.dest)));
                assert forall|k: int| 0 <= k < out@.len() implies in_pack_folder(#[trigger] out@[k].dest, *cache_root, pack.id@) by {
                    if k < before.len() {
                        assert(out@[k] == before[k]);
                    }
                }
            },
            Err(_) => {},
        }
        i = i + 1;
    }
    assert(stickers@.take(n as int) =~= stickers@);
    out
}

/// The cover image to download into the pack's folder of the sticker cache
/// under `cache_root`, if the manifest names one that resolves: its address
/// and where its local copy goes, inside that folder.
pub fn cover_job(pack: &Pack, cache_root: &PathBuf) -> (r: Option<(WebUrl, PathBuf)>)
    ensures
        match pack.manifest.cover {
            Some(c) => match url_join(pack.base_url@, c@) {
                Some(u) => r matches Some((w, d)) && w@ == u && d == path_joined(
                    pack_dir(*cache_root, pack.id@),
                    stored_name(c@),
                ),
                None => r is None,
            },
            None => r is None,
        },
        r matches Some((_, d)) ==> in_pack_folder(d, *cache_root, pack.id@),
{
    match &pack.manifest.cover {
        Some(c) => match pack.base_url.join(c.as_str()) {
            Ok(u) => {
                let dir = pack_cache_dir(cache_root, pack.id.as_str());
                let name = stored_file_name(c.as_str());
                let dest = join_path(&dir, name.as_str());
                assert(stays_inside(name@) && path_joined(pack_dir(*cache_root, pack.id@), name@) == dest);
                Some((u, dest))
            },
            Err(_) => None,
        },
        None => None,
    }
}

/// The path recorded last for `key` among `s`.
pub open spec fn last_path(s: Seq<(Seq<char>, PathBuf)>, key: Seq<char>) -> Option<PathBuf>
    decreases s.len(),
{
    if s.len() == 0 {
        None
    } else if s.last().0 == key {
        Some(s.last().1)
    } else {
        last_path(s.drop_last(), key)
    }
}

/// The sticker ids and destinations of downloaded jobs.
pub open spec fn done_views(s: Seq<ImageJob>) -> Seq<(Seq<char>, PathBuf)> {
    s.map_values(|j: ImageJob| (j.sticker_id@, j.dest))
}

/// A path recorded for a key is one of the paths given.
proof fn lemma_last_path_given(s: Seq<(Seq<char>, PathBuf)>, key: Seq<char>)
    ensures
        last_path(s, key) matches Some(p) ==> exists|j: int| 0 <= j < s.len() && #[trigger] s[j].1 == p,
    decreases s.len(),
{
    if s.len() > 0 {
        lemma_last_path_given(s.drop_last(), key);
        if s.last().0 == key {
            assert(s[s.len() - 1].1 == s.last().1);
        } else if let Some(p) = last_path(s.drop_last(), key) {
            let j = choose|j: int| 0 <= j < s.drop_last().len() && #[trigger] s.drop_last()[j].1 == p;
            assert(s[j] == s.drop_last()[j]);
        }
    }
}

/// Images stay in their pack's folder: where every job given to
/// `attach_cached` lies in the folder of pack `id` (as `sticker_jobs`
/// ensures of its jobs), so does every path it records.
pub proof fn lemma_recorded_paths_in_pack_folder(
    recorded: Seq<(Seq<char>, PathBuf)>,
    done: Seq<ImageJob>,
    cache_root: PathBuf,
    id: Seq<char>,
)
    requires
        forall|j: int| 0 <= j < done.len() ==> in_pack_folder(#[trigger] done[j].dest, cache_root, id),
        forall|k: Seq<char>| lookup(recorded, k) == last_path(done_views(done), k),
    ensures
        forall|k: Seq<char>|
            #[trigger] lookup(recorded, k) is Some ==> in_pack_folder(lookup(recorded, k)->0, cache_root, id),
{
    assert forall|k: Seq<char>| #[trigger] lookup(recorded, k) is Some implies in_pack_folder(
        lookup(recorded, k)->0,
        cache_root,
        id,
    ) by {
        let d = done_views(done);
        lemma_last_path_given(d, k);
        let p = lookup(recorded, k)->0;
        let j = choose|j: int| 0 <= j < d.len() && #[trigger] d[j].1 == p;
        assert(d[j].1 == done[j].dest);
    }
}

/// Records the downloads that succeeded: the cover's local copy (where its
/// job is given) and, for each sticker id, the destination of the last job
/// given for it. Nothing else changes, so every recorded path is the
/// destination of one of the given jobs.
pub fn attach_cached(pack: &mut Pack, cover: Option<(WebUrl, PathBuf)>, done: Vec<ImageJob>)
    ensures
        final(pack).cover_path == match cover {
            Some((_, d)) => Some(d),
            None => None,
        },
        forall|k: Seq<char>| lookup(final(pack).sticker_paths@, k) == last_path(done_views(done@), k),
        forall|k: Seq<char>|
            #[trigger] lookup(final(pack).sticker_paths@, k) is Some ==> exists|j: int|
                0 <= j < done@.len() && done@[j].dest == lookup(final(pack).sticker_paths@, k)->0,
        final(pack).id == old(pack).id,
        final(pack).base_url == old(pack).base_url,
        final(pack).manifest == old(pack).manifest,
        final(pack).label == old(pack).label,
{
    let mut paths = StickerPaths::new();
    let ghost d = done_views(done@);
    let n = done.len();
    let mut i: usize = 0;
    while i < n
        invariant
            n == done@.len(),
            d == done_views(done@),
            i <= n,
            forall|k: Seq<char>| lookup(paths@, k) == last_path(d.take(i as int), k),
        decreases n - i,
    {
        let (key, path) = (done[i].sticker_id.clone(), super::paths::clone_path(&done[i].dest));
        assert(d.take(i + 1).drop_last() =~= d.take(i as int));
        assert(d.take(i + 1).last() == d[i as int]);
        assert(d[i as int] == (done@[i as int].sticker_id@, done@[i as int].dest));
        paths.insert(key, path);
        i = i + 1;
    }
    assert(d.take(n as int) =~= d);
    assert forall|k: Seq<char>| #[trigger] lookup(paths@, k) is Some implies exists|j: int|
        0 <= j < done@.len() && done@[j].dest == lookup(paths@, k)->0 by {
        lemma_last_path_given(d, k);
        let p = lookup(paths@, k)->0;
        let j = choose|j: int| 0 <= j < d.len() && #[trigger] d[j].1 == p;
        assert(done@[j].dest == d[j].1);
    }
    pack.cover_path = match cover {
        Some((_, dest)) => Some(dest),
        None => None,
    };
    pack.sticker_paths = paths;
}

} // verus!
