use std::path::PathBuf;

use sticker::sticker::pack::{cache_filename_for, resolve_file_url, stored_file_name, Pack, PackManifest, StickerDef};
use sticker::sticker::weburl::WebUrl;
use sticker::sticker::{PackId, StickerId};

fn url(s: &str) -> WebUrl {
    WebUrl::parse(s).unwrap()
}

fn def(id: &str, file: &str) -> StickerDef {
    StickerDef { id: id.to_string(), file: file.to_string(), emoji: String::new(), tags: Vec::new() }
}

fn pack_with(stickers: Vec<StickerDef>, cover: Option<&str>) -> Pack {
    let manifest = PackManifest {
        id: "dsk".to_string(),
        name: "Desk".to_string(),
        author: Some("me".to_string()),
        description: None,
        version: 1,
        cover: cover.map(|c| c.to_string()),
        stickers,
    };
    Pack::new(PackId::new("dsk").unwrap(), url("https://example.com/packs/dsk/"), manifest)
}

#[test]
fn relative_file_resolves_against_base() {
    let base = url("https://example.com/packs/dsk/");
    assert_eq!(
        resolve_file_url(&base, "img/01.webp").unwrap().as_str(),
        "https://example.com/packs/dsk/img/01.webp"
    );
}

#[test]
fn absolute_http_file_is_used_as_is() {
    let base = url("https://example.com/packs/dsk/");
    assert_eq!(
        resolve_file_url(&base, "https://cdn.example.org/x.png").unwrap().as_str(),
        "https://cdn.example.org/x.png"
    );
    assert_eq!(
        resolve_file_url(&base, "http://cdn.example.org/y.gif").unwrap().as_str(),
        "http://cdn.example.org/y.gif"
    );
}

#[test]
fn absolute_non_http_file_is_refused() {
    let base = url("https://example.com/packs/dsk/");
    assert!(resolve_file_url(&base, "ftp://example.com/x.png").is_none());
    assert!(resolve_file_url(&base, "file:///etc/passwd").is_none());
}

#[test]
fn relative_cache_name_is_the_file() {
    assert_eq!(cache_filename_for("01.webp"), "01.webp");
    assert_eq!(cache_filename_for("img/02.png"), "img/02.png");
    assert_eq!(cache_filename_for("../x.png"), "../x.png");
}

#[test]
fn stored_names_keep_relative_paths_that_stay_inside() {
    for file in ["01.webp", "img/02.png", "a/./b.png", "x..y.png", "..hidden", "dir/...png"] {
        assert_eq!(stored_file_name(file), file);
    }
}

#[test]
fn stored_names_hash_what_would_leave_the_folder() {
    for file in ["../x.png", "a/../../y.png", "..", "a/..", "/abs/z.png", "\\abs\\z.png", "a\\..\\b.png", "c:x.png", ""] {
        let hash = seahash::hash(file.as_bytes());
        let name = stored_file_name(file);
        assert!(name.starts_with(&format!("_ext_{hash:016x}")), "{file}: {name}");
    }
    let url = "https://cdn.example.org/x.png";
    assert_eq!(stored_file_name(url), cache_filename_for(url));
}

#[test]
fn absolute_cache_name_hashes_and_keeps_extension() {
    let file = "https://cdn.example.org/x.png";
    let hash = seahash::hash(file.as_bytes());
    assert_eq!(cache_filename_for(file), format!("_ext_{hash:016x}.png"));
}

#[test]
fn absolute_cache_name_drops_long_or_odd_extension() {
    let long = "https://cdn.example.org/x.verylongext";
    let hash = seahash::hash(long.as_bytes());
    assert_eq!(cache_filename_for(long), format!("_ext_{hash:016x}"));
    let odd = "https://cdn.example.org/x.p-g";
    let hash = seahash::hash(odd.as_bytes());
    assert_eq!(cache_filename_for(odd), format!("_ext_{hash:016x}"));
    let no_dot_after_slash = "https://cdn.example.org/img";
    let hash = seahash::hash(no_dot_after_slash.as_bytes());
    assert_eq!(cache_filename_for(no_dot_after_slash), format!("_ext_{hash:016x}"));
}

#[test]
fn display_name_prefers_label() {
    let mut pack = pack_with(Vec::new(), None);
    assert_eq!(pack.display_name(), "Desk");
    pack.label = Some("Mine".to_string());
    assert_eq!(pack.display_name(), "Mine");
}

#[test]
fn find_gives_first_sticker_with_id() {
    let pack = pack_with(vec![def("01", "a.png"), def("02", "b.png"), def("01", "c.png")], None);
    assert_eq!(pack.find(&StickerId::new("01").unwrap()).unwrap().file, "a.png");
    assert_eq!(pack.find(&StickerId::new("02").unwrap()).unwrap().file, "b.png");
    assert!(pack.find(&StickerId::new("03").unwrap()).is_none());
}

#[test]
fn sticker_url_of_unknown_sticker_is_none() {
    let pack = pack_with(vec![def("01", "01.webp")], None);
    assert!(pack.sticker_url(&StickerId::new("zz").unwrap()).is_none());
}

#[test]
fn cover_url_resolves_when_named() {
    let pack = pack_with(Vec::new(), Some("cover.png"));
    assert_eq!(pack.cover_url().unwrap().as_str(), "https://example.com/packs/dsk/cover.png");
    let bare = pack_with(Vec::new(), None);
    assert!(bare.cover_url().is_none());
}

#[test]
fn sticker_path_reads_the_cache_table() {
    let mut pack = pack_with(vec![def("01", "01.webp")], None);
    assert!(pack.sticker_path(&StickerId::new("01").unwrap()).is_none());
    pack.sticker_paths.insert("01".to_string(), PathBuf::from("/tmp/c/01.webp"));
    assert_eq!(
        pack.sticker_path(&StickerId::new("01").unwrap()),
        Some(&PathBuf::from("/tmp/c/01.webp"))
    );
}
