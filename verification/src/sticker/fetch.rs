//! Where a pack's files live: the folder address a pack is fetched from,
//! and the address shown to people for sharing it.
use vstd::prelude::*;
use crate::text::{str_eq, texts, runs};
use super::weburl::{WebUrl, UrlView, nonempty_segments, url_set_host, url_set_path, url_parse, url_join};
use super::{Error, PackId, is_valid_id};
use super::pack::{Pack, PackManifest};

verus! {

/// `/s1/s2/.../sn` for the segments `s1 .. sn` (empty for none).
pub open spec fn slash_join(segs: Seq<Seq<char>>) -> Seq<char>
    decreases segs.len(),
{
    if segs.len() == 0 {
        Seq::empty()
    } else {
        slash_join(segs.drop_last()) + seq!['/'] + segs.last()
    }
}

/// The address with a `/` at the end of its path (unchanged if there is
/// one already).
pub open spec fn with_trailing_slash(u: UrlView) -> UrlView {
    if u.path.len() > 0 && u.path.last() == '/' {
        u
    } else {
        url_set_path(u, u.path.push('/'))
    }
}

/// `USER/REPO/tree/BRANCH/...` or `USER/REPO/blob/BRANCH/...`: a folder or
/// a file in a GitHub repository.
pub open spec fn is_github_tree_or_blob(segs: Seq<Seq<char>>) -> bool {
    &&& segs.len() >= 4
    &&& (segs[2] == "tree"@ || segs[2] == "blob"@)
}

/// The folder segments after the branch: all of them for a folder, all but
/// the file name for a file.
pub open spec fn github_folder_rest(segs: Seq<Seq<char>>) -> Seq<Seq<char>> {
    if segs[2] == "blob"@ && segs.len() > 4 {
        segs.subrange(4, segs.len() - 1)
    } else {
        segs.skip(4)
    }
}

/// The raw-content path `/USER/REPO/BRANCH/FOLDER.../` of a GitHub folder
/// or file address.
pub open spec fn github_raw_path(segs: Seq<Seq<char>>) -> Seq<char> {
    (seq!['/'] + segs[0] + seq!['/'] + segs[1] + seq!['/'] + segs[3] + slash_join(
        github_folder_rest(segs),
    )).push('/')
}

/// The folder address a pack is fetched from: a github.com folder or file
/// address becomes the raw.githubusercontent.com folder; any other address
/// gets a trailing `/`.
pub open spec fn normalized(u: UrlView) -> UrlView {
    let segs = nonempty_segments(u.path);
    if u.host == Some("github.com"@) && is_github_tree_or_blob(segs) {
        url_set_path(url_set_host(u, "raw.githubusercontent.com"@), github_raw_path(segs))
    } else {
        with_trailing_slash(u)
    }
}

/// The github.com folder address `https://github.com/USER/REPO/tree/BRANCH/...`
/// for the segments of a raw-content path.
pub open spec fn github_tree_text(segs: Seq<Seq<char>>) -> Seq<char> {
    "https://github.com/"@ + segs[0] + seq!['/'] + segs[1] + "/tree/"@ + segs[2] + slash_join(
        segs.skip(3),
    )
}

/// The address shown for sharing: a raw.githubusercontent.com address with
/// at least USER/REPO/BRANCH becomes the github.com folder address (when
/// that parses); any other address is shown as it is.
pub open spec fn browseable(u: UrlView) -> UrlView {
    let segs = nonempty_segments(u.path);
    if u.host == Some("raw.githubusercontent.com"@) && segs.len() >= 3 && url_parse(
        github_tree_text(segs),
    ) is Some {
        url_parse(github_tree_text(segs))->0
    } else {
        u
    }
}

/// A path segment: not empty and free of `/`.
pub open spec fn is_segment(w: Seq<char>) -> bool {
    &&& w.len() > 0
    &&& forall|k: int| 0 <= k < w.len() ==> w[k] != '/'
}

/// The segments `USER/REPO/tree/BRANCH/...` of the github.com folder address
/// for the raw-content segments `USER/REPO/BRANCH/...`.
pub open spec fn tree_segments(segs: Seq<Seq<char>>) -> Seq<Seq<char>> {
    seq![segs[0], segs[1], "tree"@, segs[2]] + segs.skip(3)
}

proof fn lemma_runs_push_segment(a: Seq<char>, w: Seq<char>)
    requires
        is_segment(w),
    ensures
        runs(a + seq!['/'] + w) == runs(a).push(w),
    decreases w.len(),
{
    let s = a + seq!['/'] + w;
    let slash = a + seq!['/'];
    assert(slash.drop_last() =~= a);
    assert(runs(slash) == runs(a));
    assert(s.last() == w.last());
    assert(w[w.len() - 1] != '/');
    if w.len() == 1 {
        assert(s.drop_last() =~= slash);
        assert(s[s.len() - 2] == '/');
        assert(seq![s.last()] =~= w);
        assert(runs(s) == runs(slash).push(seq![s.last()]));
    } else {
        let v = w.drop_last();
        assert forall|k: int| 0 <= k < v.len() implies v[k] != '/' by {
            assert(v[k] == w[k]);
        }
        lemma_runs_push_segment(a, v);
        assert(s.drop_last() =~= a + seq!['/'] + v);
        assert(s[s.len() - 2] == w[w.len() - 2]);
        assert(w[w.len() - 2] != '/');
        let r = runs(s.drop_last());
        assert(r == runs(a).push(v));
        assert(runs(s) == r.update(r.len() - 1, r.last().push(s.last())));
        assert(v.push(w.last()) =~= w);
        assert(r.update(r.len() - 1, r.last().push(s.last())) =~= runs(a).push(w));
    }
}

proof fn lemma_slash_join_push(a: Seq<Seq<char>>, x: Seq<char>)
    ensures
        slash_join(a.push(x)) == slash_join(a) + seq!['/'] + x,
{
    assert(a.push(x).drop_last() =~= a);
}

proof fn lemma_runs_slash_join(segs: Seq<Seq<char>>)
    requires
        forall|i: int| 0 <= i < segs.len() ==> is_segment(#[trigger] segs[i]),
    ensures
        runs(slash_join(segs)) == segs,
    decreases segs.len(),
{
    if segs.len() > 0 {
        let init = segs.drop_last();
        assert forall|i: int| 0 <= i < init.len() implies is_segment(#[trigger] init[i]) by {
            assert(init[i] == segs[i]);
        }
        lemma_runs_slash_join(init);
        assert(is_segment(segs[segs.len() - 1]));
        lemma_runs_push_segment(slash_join(init), segs.last());
        assert(init.push(segs.last()) =~= segs);
        lemma_slash_join_push(init, segs.last());
    } else {
        assert(runs(Seq::<char>::empty()) =~= Seq::<Seq<char>>::empty());
    }
}

proof fn lemma_slash_join_concat(a: Seq<Seq<char>>, b: Seq<Seq<char>>)
    ensures
        slash_join(a + b) == slash_join(a) + slash_join(b),
    decreases b.len(),
{
    if b.len() == 0 {
        assert(a + b =~= a);
        assert(slash_join(a) + slash_join(b) =~= slash_join(a));
    } else {
        lemma_slash_join_concat(a, b.drop_last());
        assert((a + b).drop_last() =~= a + b.drop_last());
        assert((a + b).last() == b.last());
        assert(slash_join(a + b) =~= slash_join(a) + slash_join(b));
    }
}

/// Browsing is the reverse of normalising, segment for segment: the shared
/// github.com address of a raw-content folder `USER/REPO/BRANCH/...` is the
/// folder `USER/REPO/tree/BRANCH/...`, a GitHub folder address, and the
/// raw-content path that normalising builds from it splits into the
/// segments it came from.
pub proof fn lemma_browse_then_normalize(segs: Seq<Seq<char>>)
    requires
        segs.len() >= 3,
        forall|i: int| 0 <= i < segs.len() ==> is_segment(#[trigger] segs[i]),
    ensures
        github_tree_text(segs) == "https://github.com"@ + slash_join(tree_segments(segs)),
        is_github_tree_or_blob(tree_segments(segs)),
        nonempty_segments(github_raw_path(tree_segments(segs))) == segs,
{
    let t = tree_segments(segs);
    let e = Seq::<Seq<char>>::empty();
    let rest = segs.skip(3);
    let tree = "tree"@;
    let h1 = e.push(segs[0]);
    let h2 = h1.push(segs[1]);
    let h3 = h2.push(tree);
    let head = h3.push(segs[2]);
    lemma_slash_join_push(e, segs[0]);
    lemma_slash_join_push(h1, segs[1]);
    lemma_slash_join_push(h2, tree);
    lemma_slash_join_push(h3, segs[2]);
    assert(head =~= seq![segs[0], segs[1], tree, segs[2]]);
    lemma_slash_join_concat(head, rest);
    assert(t =~= head + rest);
    assert(github_tree_text(segs) =~= "https://github.com"@ + slash_join(t)) by {
        reveal_strlit("https://github.com/");
        reveal_strlit("https://github.com");
        reveal_strlit("/tree/");
        reveal_strlit("tree");
        assert(slash_join(e) =~= Seq::<char>::empty());
    }
    assert(t[2] == tree);
    assert(t.skip(4) =~= rest);
    let r3 = h2.push(segs[2]);
    lemma_slash_join_push(h2, segs[2]);
    lemma_slash_join_concat(r3, rest);
    assert(r3 + rest =~= segs);
    assert(github_raw_path(t) =~= slash_join(segs).push('/')) by {
        reveal_strlit("tree");
        reveal_strlit("blob");
        assert(tree != "blob"@) by {
            assert(tree[0] != "blob"@[0]);
        }
        assert(github_folder_rest(t) == rest);
        assert(t[0] == segs[0] && t[1] == segs[1] && t[3] == segs[2]);
        assert(slash_join(e) =~= Seq::<char>::empty());
        assert(slash_join(r3) =~= seq!['/'] + segs[0] + seq!['/'] + segs[1] + seq!['/'] + segs[2]);
    }
    lemma_runs_slash_join(segs);
    assert(runs(slash_join(segs).push('/')) == runs(slash_join(segs))) by {
        assert(slash_join(segs).push('/').drop_last() =~= slash_join(segs));
    }
    assert(github_raw_path(t)[0] == '/') by {
        assert(slash_join(e) =~= Seq::<char>::empty());
    }
}

/// Every piece of a path split at `/` is a segment, and a path that does
/// not end with `/` has at least one piece.
proof fn lemma_runs_are_segments(s: Seq<char>)
    ensures
        forall|i: int| 0 <= i < runs(s).len() ==> is_segment(#[trigger] runs(s)[i]),
        s.len() > 0 && s.last() != '/' ==> runs(s).len() > 0,
    decreases s.len(),
{
    if s.len() > 0 {
        let d = s.drop_last();
        lemma_runs_are_segments(d);
        let r = runs(d);
        if s.last() == '/' {
        } else if s.len() >= 2 && s[s.len() - 2] != '/' {
            assert(d.last() == s[s.len() - 2]);
            let w = r.last().push(s.last());
            assert(is_segment(r[r.len() - 1]));
            assert forall|k: int| 0 <= k < w.len() implies w[k] != '/' by {
                if k < w.len() - 1 {
                    assert(w[k] == r[r.len() - 1][k]);
                }
            }
            assert forall|i: int| 0 <= i < runs(s).len() implies is_segment(#[trigger] runs(s)[i]) by {
                if i < r.len() - 1 {
                    assert(runs(s)[i] == r[i]);
                } else {
                    assert(runs(s)[i] == w);
                }
            }
        } else {
            let w = seq![s.last()];
            assert forall|i: int| 0 <= i < runs(s).len() implies is_segment(#[trigger] runs(s)[i]) by {
                if i < r.len() {
                    assert(runs(s)[i] == r[i]);
                } else {
                    assert(runs(s)[i] == w);
                }
            }
        }
    }
}

/// Normalising a github.com folder or file address keeps every folder, in
/// order: the raw-content path it sets names USER, REPO and BRANCH and
/// then every segment after the branch (for a file address, `blob`, every
/// one but the file name), and it ends with `/`.
pub proof fn lemma_normalize_keeps_folders(u: UrlView)
    requires
        u.host == Some("github.com"@),
        nonempty_segments(u.path).len() >= 4,
        nonempty_segments(u.path)[2] == "tree"@ || nonempty_segments(u.path)[2] == "blob"@,
    ensures
        exists|p: Seq<char>|
            {
                &&& normalized(u) == url_set_path(url_set_host(u, "raw.githubusercontent.com"@), p)
                &&& p.len() > 0 && p.last() == '/'
                &&& #[trigger] nonempty_segments(p) == seq![
                    nonempty_segments(u.path)[0],
                    nonempty_segments(u.path)[1],
                    nonempty_segments(u.path)[3],
                ] + if nonempty_segments(u.path)[2] == "blob"@ && nonempty_segments(u.path).len() > 4 {
                    nonempty_segments(u.path).subrange(4, nonempty_segments(u.path).len() - 1)
                } else {
                    nonempty_segments(u.path).skip(4)
                }
            },
{
    let segs = nonempty_segments(u.path);
    lemma_runs_are_segments(u.path);
    let rest = if segs[2] == "blob"@ && segs.len() > 4 {
        segs.subrange(4, segs.len() - 1)
    } else {
        segs.skip(4)
    };
    let all = seq![segs[0], segs[1], segs[3]] + rest;
    assert forall|i: int| 0 <= i < all.len() implies is_segment(#[trigger] all[i]) by {
        if i == 2 {
            assert(all[i] == segs[3]);
        } else if i >= 3 {
            if segs[2] == "blob"@ && segs.len() > 4 {
                assert(all[i] == segs[i + 1]);
            } else {
                assert(all[i] == segs[i + 1]);
            }
        }
    }
    let e = Seq::<Seq<char>>::empty();
    let h1 = e.push(segs[0]);
    let h2 = h1.push(segs[1]);
    let h3 = h2.push(segs[3]);
    lemma_slash_join_push(e, segs[0]);
    lemma_slash_join_push(h1, segs[1]);
    lemma_slash_join_push(h2, segs[3]);
    assert(h3 =~= seq![segs[0], segs[1], segs[3]]);
    lemma_slash_join_concat(h3, rest);
    assert(github_folder_rest(segs) == rest);
    let p = github_raw_path(segs);
    assert(p =~= slash_join(all).push('/')) by {
        assert(slash_join(e) =~= Seq::<char>::empty());
    }
    lemma_runs_slash_join(all);
    assert(runs(slash_join(all).push('/')) == runs(slash_join(all))) by {
        assert(slash_join(all).push('/').drop_last() =~= slash_join(all));
    }
    assert(p[0] == '/') by {
        assert(slash_join(e) =~= Seq::<char>::empty());
    }
    assert(normalized(u) == url_set_path(url_set_host(u, "raw.githubusercontent.com"@), p));
    assert(nonempty_segments(p) == all);
}

/// Sharing a raw-content address gives the github.com folder address: for
/// an address on raw.githubusercontent.com whose path has the segments
/// USER, REPO, BRANCH and any number more (none included), the shared
/// address is `https://github.com/USER/REPO/tree/BRANCH` followed by
/// `/SEGMENT` for each further segment, wherever that text parses.
pub proof fn lemma_browse_raw(u: UrlView)
    requires
        u.host == Some("raw.githubusercontent.com"@),
        nonempty_segments(u.path).len() >= 3,
        url_parse(
            "https://github.com/"@ + nonempty_segments(u.path)[0] + seq!['/'] + nonempty_segments(u.path)[1]
                + "/tree/"@ + nonempty_segments(u.path)[2] + slash_join(nonempty_segments(u.path).skip(3)),
        ) is Some,
    ensures
        browseable(u) == url_parse(
            "https://github.com/"@ + nonempty_segments(u.path)[0] + seq!['/'] + nonempty_segments(u.path)[1]
                + "/tree/"@ + nonempty_segments(u.path)[2] + slash_join(nonempty_segments(u.path).skip(3)),
        )->0,
        nonempty_segments(u.path).len() == 3 ==> "https://github.com/"@ + nonempty_segments(u.path)[0] + seq!['/']
            + nonempty_segments(u.path)[1] + "/tree/"@ + nonempty_segments(u.path)[2] + slash_join(
            nonempty_segments(u.path).skip(3),
        ) == "https://github.com/"@ + nonempty_segments(u.path)[0] + seq!['/'] + nonempty_segments(u.path)[1]
            + "/tree/"@ + nonempty_segments(u.path)[2],
{
    let segs = nonempty_segments(u.path);
    assert(github_tree_text(segs) =~= "https://github.com/"@ + segs[0] + seq!['/'] + segs[1] + "/tree/"@ + segs[2]
        + slash_join(segs.skip(3)));
    if segs.len() == 3 {
        assert(segs.skip(3) =~= Seq::<Seq<char>>::empty());
        assert(slash_join(segs.skip(3)) =~= Seq::<char>::empty());
    }
}

/// Appends `/seg` for each of `segs[lo..hi]`.
fn append_segments(out: &mut String, segs: &Vec<String>, lo: usize, hi: usize)
    requires
        lo <= hi <= segs@.len(),
    ensures
        final(out)@ == old(out)@ + slash_join(texts(segs@).subrange(lo as int, hi as int)),
{
    let slash = "/";
    proof { reveal_strlit("/"); }
    let mut k = lo;
    while k < hi
        invariant
            lo <= k <= hi <= segs@.len(),
            slash@ == seq!['/'],
            out@ == old(out)@ + slash_join(texts(segs@).subrange(lo as int, k as int)),
        decreases hi - k,
    {
        out.append(slash);
        out.append(segs[k].as_str());
        assert(texts(segs@).subrange(lo as int, k + 1).drop_last() =~= texts(segs@).subrange(lo as int, k as int));
        assert(out@ =~= old(out)@ + slash_join(texts(segs@).subrange(lo as int, k + 1)));
        k = k + 1;
    }
}

/// Adds a `/` at the end of the path where there is none.
pub fn ensure_trailing_slash(url: WebUrl) -> (r: WebUrl)
    ensures
        r@ == with_trailing_slash(url@),
{
    let p = url.path();
    let n = p.unicode_len();
    if n > 0 && p.get_char(n - 1) == '/' {
        url
    } else {
        let mut path = p.to_owned();
        let slash = "/";
        proof { reveal_strlit("/"); }
        path.append(slash);
        assert(path@ =~= url@.path.push('/'));
        url.with_path(path.as_str())
    }
}

/// Turns a github.com folder or file address into the raw-content folder
/// address that `pack.json` is fetched from; other addresses only get a
/// trailing `/`.
pub fn normalize_base_url(url: WebUrl) -> (r: WebUrl)
    ensures
        r@ == normalized(url@),
{
    let on_github = match url.host_str() {
        Some(h) => str_eq(h, "github.com"),
        None => false,
    };
    if on_github {
        let segs = url.nonempty_segments();
        let ghost s = texts(segs@);
        if segs.len() >= 4 {
            let is_tree = str_eq(segs[2].as_str(), "tree");
            let is_blob = str_eq(segs[2].as_str(), "blob");
            if is_tree || is_blob {
                let hi = if is_blob && segs.len() > 4 {
                    segs.len() - 1
                } else {
                    segs.len()
                };
                let slash = "/";
                proof { reveal_strlit("/"); }
                let mut raw_path = String::new();
                raw_path.append(slash);
                raw_path.append(segs[0].as_str());
                raw_path.append(slash);
                raw_path.append(segs[1].as_str());
                raw_path.append(slash);
                raw_path.append(segs[3].as_str());
                append_segments(&mut raw_path, &segs, 4, hi);
                raw_path.append(slash);
                assert(texts(segs@).subrange(4, hi as int) =~= github_folder_rest(s));
                assert(raw_path@ =~= github_raw_path(s));
                let moved = url.with_host("raw.githubusercontent.com");
                return moved.with_path(raw_path.as_str());
            }
        }
    }
    ensure_trailing_slash(url)
}

/// The github.com folder address for a raw-content address, for showing
/// and sharing; any other address is returned as it is.
pub fn to_browseable_url(url: &WebUrl) -> (r: WebUrl)
    ensures
        r@ == browseable(url@),
{
    let on_raw = match url.host_str() {
        Some(h) => str_eq(h, "raw.githubusercontent.com"),
        None => false,
    };
    if on_raw {
        let segs = url.nonempty_segments();
        let ghost s = texts(segs@);
        if segs.len() >= 3 {
            let slash = "/";
            proof { reveal_strlit("/"); }
            let mut out = String::new();
            out.append("https://github.com/");
            out.append(segs[0].as_str());
            out.append(slash);
            out.append(segs[1].as_str());
            out.append("/tree/");
            out.append(segs[2].as_str());
            append_segments(&mut out, &segs, 3, segs.len());
            assert(texts(segs@).subrange(3, segs@.len() as int) =~= s.skip(3));
            assert(out@ =~= github_tree_text(s));
            if let Some(parsed) = WebUrl::parse(out.as_str()) {
                return parsed;
            }
        }
    }
    url.clone()
}

/// The folder a pack is fetched from and the address of its `pack.json`;
/// `BadUrl` where `pack.json` does not resolve against the folder.
pub fn manifest_url(base_url: WebUrl) -> (r: Result<(WebUrl, WebUrl), Error>)
    ensures
        match r {
            Ok((base, manifest)) => {
                &&& base@ == normalized(base_url@)
                &&& url_join(normalized(base_url@), "pack.json"@) == Some(manifest@)
            },
            Err(e) => {
                &&& e is BadUrl
                &&& url_join(normalized(base_url@), "pack.json"@) is None
            },
        },
{
    let base = normalize_base_url(base_url);
    match base.join("pack.json") {
        Ok(m) => Ok((base, m)),
        Err(e) => Err(Error::BadUrl(e)),
    }
}

/// Makes a pack of a manifest read from `base_url`: `InvalidPackId` (with
/// the manifest's id) where the manifest's id is not a valid pack id.
pub fn parse_manifest(base_url: WebUrl, manifest: PackManifest) -> (r: Result<Pack, Error>)
    ensures
        r is Ok <==> is_valid_id(manifest.id@),
        match r {
            Ok(p) => {
                &&& p.id@ == manifest.id@
                &&& p.base_url == base_url
                &&& p.manifest == manifest
                &&& p.cover_path is None
                &&& p.sticker_paths@.len() == 0
                &&& p.label is None
            },
            Err(e) => e matches Error::InvalidPackId(s) && s@ == manifest.id@,
        },
{
    match PackId::new(manifest.id.as_str()) {
        Some(id) => Ok(Pack::new(id, base_url, manifest)),
        None => {
            let bad = manifest.id.clone();
            Err(Error::InvalidPackId(bad))
        },
    }
}

/// Keeps at most `max` stickers of the pack's manifest (the first ones).
pub fn limit_stickers(pack: &mut Pack, max: usize)
    ensures
        final(pack).manifest.stickers@ == if old(pack).manifest.stickers@.len() > max {
            old(pack).manifest.stickers@.take(max as int)
        } else {
            old(pack).manifest.stickers@
        },
        final(pack).id == old(pack).id,
        final(pack).base_url == old(pack).base_url,
        final(pack).manifest.id == old(pack).manifest.id,
        final(pack).manifest.name == old(pack).manifest.name,
        final(pack).manifest.cover == old(pack).manifest.cover,
        final(pack).manifest.author == old(pack).manifest.author,
        final(pack).manifest.description == old(pack).manifest.description,
        final(pack).manifest.version == old(pack).manifest.version,
        final(pack).cover_path == old(pack).cover_path,
        final(pack).sticker_paths == old(pack).sticker_paths,
        final(pack).label == old(pack).label,
{
    if pack.manifest.stickers.len() > max {
        pack.manifest.stickers.truncate(max);
    }
}

/// The pack that fetching a manifest from `base_url` gives: the manifest
/// made a pack, with at most `max_stickers` stickers kept (the first
/// ones); `InvalidPackId` where the manifest's id is not a valid pack id.
pub fn pack_from_manifest(base_url: WebUrl, manifest: PackManifest, max_stickers: usize) -> (r: Result<Pack, Error>)
    ensures
        r is Ok <==> is_valid_id(manifest.id@),
        match r {
            Ok(p) => {
                &&& p.id@ == manifest.id@
                &&& p.base_url == base_url
                &&& p.manifest.stickers@ == if manifest.stickers@.len() > max_stickers {
                    manifest.stickers@.take(max_stickers as int)
                } else {
                    manifest.stickers@
                }
                &&& p.manifest.id == manifest.id
                &&& p.manifest.name == manifest.name
                &&& p.manifest.author == manifest.author
                &&& p.manifest.description == manifest.description
                &&& p.manifest.version == manifest.version
                &&& p.manifest.cover == manifest.cover
                &&& p.cover_path is None
                &&& p.sticker_paths@.len() == 0
                &&& p.label is None
            },
            Err(e) => e matches Error::InvalidPackId(s) && s@ == manifest.id@,
        },
{
    let mut pack = parse_manifest(base_url, manifest)?;
    limit_stickers(&mut pack, max_stickers);
    Ok(pack)
}

/// The running check that a download stays within `max` bytes.
pub struct BodyLimit {
    max: usize,
    received: usize,
}

impl BodyLimit {
    #[verifier::type_invariant]
    closed spec fn inv(self) -> bool {
        self.received <= self.max
    }

    pub closed spec fn max_bytes(&self) -> nat {
        self.max as nat
    }

    pub closed spec fn received_bytes(&self) -> nat {
        self.received as nat
    }

    /// Nothing received yet.
    pub fn new(max: usize) -> (r: BodyLimit)
        ensures
            r.max_bytes() == max,
            r.received_bytes() == 0,
    {
        BodyLimit { max, received: 0 }
    }

    /// Whether a declared `Content-Length` is within the limit (no length
    /// declared passes).
    pub fn accepts_length(&self, len: Option<u64>) -> (r: bool)
        ensures
            r == match len {
                Some(l) => l <= self.max_bytes(),
                None => true,
            },
    {
        match len {
            Some(l) => l <= self.max as u64,
            None => true,
        }
    }

    /// Counts a received chunk of `n` bytes; `false` (and nothing counted)
    /// where it would take the total over the limit.
    pub fn accept_chunk(&mut self, n: usize) -> (r: bool)
        ensures
            r == (old(self).received_bytes() + n <= old(self).max_bytes()),
            final(self).max_bytes() == old(self).max_bytes(),
            r ==> final(self).received_bytes() == old(self).received_bytes() + n,
            !r ==> final(self).received_bytes() == old(self).received_bytes(),
            final(self).received_bytes() <= final(self).max_bytes(),
    {
        proof { use_type_invariant(&*self); }
        if n > self.max - self.received {
            false
        } else {
            self.received = self.received + n;
            true
        }
    }
}

} // verus!
