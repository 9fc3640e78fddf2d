use sticker::sticker::fetch::{
    ensure_trailing_slash, manifest_url, normalize_base_url, pack_from_manifest, parse_manifest,
    to_browseable_url, BodyLimit,
};
use sticker::sticker::pack::{PackManifest, StickerDef};
use sticker::sticker::weburl::WebUrl;
use sticker::sticker::{Error, StickerId};

fn url(s: &str) -> WebUrl {
    WebUrl::parse(s).unwrap()
}

#[test]
fn trailing_slash_added() {
    let u = url("https://example.com/packs/dsk");
    assert_eq!(ensure_trailing_slash(u).path(), "/packs/dsk/");
}

#[test]
fn trailing_slash_preserved() {
    let u = url("https://example.com/packs/dsk/");
    assert_eq!(ensure_trailing_slash(u).path(), "/packs/dsk/");
}

#[test]
fn github_tree_url_rewrites_to_raw() {
    let u = url("https://github.com/you/stickers/tree/main/dsk");
    assert_eq!(
        normalize_base_url(u).as_str(),
        "https://raw.githubusercontent.com/you/stickers/main/dsk/"
    );
}

#[test]
fn github_tree_url_trailing_slash() {
    let u = url("https://github.com/you/stickers/tree/main/dsk/");
    assert_eq!(
        normalize_base_url(u).as_str(),
        "https://raw.githubusercontent.com/you/stickers/main/dsk/"
    );
}

#[test]
fn github_blob_url_strips_filename() {
    let u = url("https://github.com/you/stickers/blob/main/dsk/pack.json");
    assert_eq!(
        normalize_base_url(u).as_str(),
        "https://raw.githubusercontent.com/you/stickers/main/dsk/"
    );
}

#[test]
fn github_tree_root_folder() {
    let u = url("https://github.com/you/stickers/tree/main");
    assert_eq!(
        normalize_base_url(u).as_str(),
        "https://raw.githubusercontent.com/you/stickers/main/"
    );
}

#[test]
fn raw_url_passed_through() {
    let u = url("https://raw.githubusercontent.com/you/stickers/main/dsk/");
    assert_eq!(
        normalize_base_url(u).as_str(),
        "https://raw.githubusercontent.com/you/stickers/main/dsk/"
    );
}

#[test]
fn non_github_url_only_gets_trailing_slash() {
    let u = url("https://example.com/stickers/dsk");
    assert_eq!(normalize_base_url(u).as_str(), "https://example.com/stickers/dsk/");
}

#[test]
fn github_short_url_only_gets_trailing_slash() {
    let u = url("https://github.com/you/stickers");
    assert_eq!(normalize_base_url(u).as_str(), "https://github.com/you/stickers/");
}

#[test]
fn github_blob_at_branch_root_keeps_nothing_extra() {
    let u = url("https://github.com/you/stickers/blob/main");
    assert_eq!(
        normalize_base_url(u).as_str(),
        "https://raw.githubusercontent.com/you/stickers/main/"
    );
}

#[test]
fn raw_url_browses_as_github_tree() {
    let u = url("https://raw.githubusercontent.com/you/stickers/main/dsk/");
    assert_eq!(
        to_browseable_url(&u).as_str(),
        "https://github.com/you/stickers/tree/main/dsk"
    );
}

#[test]
fn browse_round_trip_of_tree_url() {
    let u = url("https://github.com/you/stickers/tree/main/dsk");
    let raw = normalize_base_url(u);
    assert_eq!(to_browseable_url(&raw).as_str(), "https://github.com/you/stickers/tree/main/dsk");
}

#[test]
fn non_raw_url_browses_unchanged() {
    let u = url("https://example.com/stickers/dsk/");
    assert_eq!(to_browseable_url(&u).as_str(), "https://example.com/stickers/dsk/");
    let short = url("https://raw.githubusercontent.com/you/stickers/");
    assert_eq!(
        to_browseable_url(&short).as_str(),
        "https://raw.githubusercontent.com/you/stickers/"
    );
}

fn base() -> WebUrl {
    url("https://example.com/packs/dsk/")
}

fn def(id: &str, file: &str, emoji: &str) -> StickerDef {
    StickerDef { id: id.to_string(), file: file.to_string(), emoji: emoji.to_string(), tags: Vec::new() }
}

fn manifest(id: &str, stickers: Vec<StickerDef>) -> PackManifest {
    PackManifest {
        id: id.to_string(),
        name: "DSK".to_string(),
        author: None,
        description: None,
        version: 1,
        cover: None,
        stickers,
    }
}

fn sample() -> PackManifest {
    manifest("dsk", vec![def("01", "01.webp", "\u{1F610}")])
}

#[test]
fn parse_minimal_manifest() {
    let pack = parse_manifest(base(), sample()).unwrap();
    assert_eq!(pack.id.as_str(), "dsk");
    assert_eq!(pack.manifest.name, "DSK");
    assert_eq!(pack.manifest.stickers.len(), 1);
    assert_eq!(pack.manifest.stickers[0].emoji, "\u{1F610}");
}

#[test]
fn emoji_string_preserved() {
    let m = manifest("dsk", vec![def("01", "01.webp", "\u{1F610}\u{1FAE5}\u{1F636}")]);
    let pack = parse_manifest(base(), m).unwrap();
    assert_eq!(pack.manifest.stickers[0].emoji, "\u{1F610}\u{1FAE5}\u{1F636}");
}

#[test]
fn rejects_invalid_id() {
    let m = PackManifest { name: "x".to_string(), ..manifest("bad id", Vec::new()) };
    assert!(matches!(parse_manifest(base(), m), Err(Error::InvalidPackId(_))));
}

#[test]
fn sticker_url_resolves_relative_to_base() {
    let pack = parse_manifest(base(), sample()).unwrap();
    let id = StickerId::new("01").unwrap();
    let url = pack.sticker_url(&id).unwrap();
    assert_eq!(url.as_str(), "https://example.com/packs/dsk/01.webp");
}

#[test]
fn invalid_id_error_carries_the_id() {
    match parse_manifest(base(), manifest("a/b", Vec::new())) {
        Err(Error::InvalidPackId(id)) => assert_eq!(id, "a/b"),
        other => panic!("unexpected: {other:?}"),
    }
    assert!(matches!(parse_manifest(base(), manifest("", Vec::new())), Err(Error::InvalidPackId(_))));
}

#[test]
fn parsed_pack_starts_uncached_and_unlabelled() {
    let pack = parse_manifest(base(), sample()).unwrap();
    assert!(pack.cover_path.is_none());
    assert_eq!(pack.sticker_paths.len(), 0);
    assert!(pack.label.is_none());
    assert_eq!(pack.base_url.as_str(), "https://example.com/packs/dsk/");
}

#[test]
fn manifest_url_joins_pack_json_on_normalized_base() {
    let (b, m) = manifest_url(url("https://github.com/you/stickers/tree/main/dsk")).unwrap();
    assert_eq!(b.as_str(), "https://raw.githubusercontent.com/you/stickers/main/dsk/");
    assert_eq!(m.as_str(), "https://raw.githubusercontent.com/you/stickers/main/dsk/pack.json");
}

#[test]
fn pack_from_manifest_keeps_the_first_stickers() {
    let stickers = vec![def("a", "a.png", ""), def("b", "b.png", ""), def("c", "c.png", "")];
    let pack = pack_from_manifest(base(), manifest("dsk", stickers), 2).unwrap();
    let ids: Vec<&str> = pack.manifest.stickers.iter().map(|d| d.id.as_str()).collect();
    assert_eq!(ids, vec!["a", "b"]);
    let stickers = vec![def("a", "a.png", ""), def("b", "b.png", "")];
    let pack = pack_from_manifest(base(), manifest("dsk", stickers), 2).unwrap();
    assert_eq!(pack.manifest.stickers.len(), 2);
    let pack = pack_from_manifest(base(), manifest("dsk", vec![def("a", "a.png", "")]), 0).unwrap();
    assert_eq!(pack.manifest.stickers.len(), 0);
    assert!(matches!(
        pack_from_manifest(base(), manifest("no good", Vec::new()), 5),
        Err(Error::InvalidPackId(_))
    ));
}

#[test]
fn body_limit_counts_up_to_the_maximum() {
    let mut limit = BodyLimit::new(10);
    assert!(limit.accepts_length(None));
    assert!(limit.accepts_length(Some(10)));
    assert!(!limit.accepts_length(Some(11)));
    assert!(limit.accept_chunk(4));
    assert!(limit.accept_chunk(6));
    assert!(!limit.accept_chunk(1));
    assert!(limit.accept_chunk(0));
    let mut other = BodyLimit::new(3);
    assert!(!other.accept_chunk(4));
    assert!(other.accept_chunk(3));
}
