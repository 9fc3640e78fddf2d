use std::path::PathBuf;

use sticker::sticker::pack::{Pack, PackManifest, StickerDef};
use sticker::sticker::persist::persisted_entries;
use sticker::sticker::registry::Registry;
use sticker::sticker::weburl::WebUrl;
use sticker::sticker::{admit_configured, disambiguate_local_id, pack_for_url, resolve_path, resolve_url, PackId, StickerId};

fn url(s: &str) -> WebUrl {
    WebUrl::parse(s).unwrap()
}

fn pid(s: &str) -> PackId {
    PackId::new(s).unwrap()
}

fn pack(id: &str, base: &str, files: &[(&str, &str)]) -> Pack {
    let stickers = files
        .iter()
        .map(|(i, f)| StickerDef { id: i.to_string(), file: f.to_string(), emoji: String::new(), tags: Vec::new() })
        .collect();
    let manifest = PackManifest {
        id: id.to_string(),
        name: format!("{id} pack"),
        author: None,
        description: None,
        version: 1,
        cover: None,
        stickers,
    };
    Pack::new(pid(id), url(base), manifest)
}

fn ids(r: &Registry) -> Vec<String> {
    r.iter().iter().map(|p| p.id.as_str().to_string()).collect()
}

fn three() -> Registry {
    let mut r = Registry::new();
    r.insert(pack("a", "https://example.com/a/", &[]));
    r.insert(pack("b", "https://example.com/b/", &[]));
    r.insert(pack("c", "https://example.com/c/", &[]));
    r
}

#[test]
fn new_registry_is_empty() {
    let r = Registry::new();
    assert!(r.is_empty());
    assert_eq!(r.len(), 0);
    assert!(r.get(&pid("a")).is_none());
    let d = Registry::default();
    assert!(d.is_empty());
}

#[test]
fn insert_appends_in_order() {
    let r = three();
    assert_eq!(ids(&r), vec!["a", "b", "c"]);
    assert_eq!(r.len(), 3);
    assert!(!r.is_empty());
    assert_eq!(r.get_index(1).unwrap().id.as_str(), "b");
    assert!(r.get_index(3).is_none());
}

#[test]
fn insert_with_taken_id_replaces_in_place() {
    let mut r = three();
    r.insert(pack("b", "https://other.example/b/", &[]));
    assert_eq!(ids(&r), vec!["a", "b", "c"]);
    assert_eq!(r.get(&pid("b")).unwrap().base_url.as_str(), "https://other.example/b/");
}

#[test]
fn get_after_insert_gives_the_pack() {
    let mut r = Registry::new();
    r.insert(pack("x", "https://example.com/x/", &[]));
    assert_eq!(r.get(&pid("x")).unwrap().manifest.name, "x pack");
}

#[test]
fn remove_keeps_order_of_the_rest() {
    let mut r = three();
    let gone = r.remove(&pid("b")).unwrap();
    assert_eq!(gone.id.as_str(), "b");
    assert_eq!(ids(&r), vec!["a", "c"]);
    assert!(r.get(&pid("b")).is_none());
    assert!(r.remove(&pid("b")).is_none());
    assert_eq!(ids(&r), vec!["a", "c"]);
}

#[test]
fn move_up_swaps_with_previous() {
    let mut r = three();
    assert!(r.move_up(&pid("c")));
    assert_eq!(ids(&r), vec!["a", "c", "b"]);
    assert!(!r.move_up(&pid("a")));
    assert_eq!(ids(&r), vec!["a", "c", "b"]);
    assert!(!r.move_up(&pid("zz")));
    assert_eq!(ids(&r), vec!["a", "c", "b"]);
}

#[test]
fn move_down_swaps_with_next() {
    let mut r = three();
    assert!(r.move_down(&pid("a")));
    assert_eq!(ids(&r), vec!["b", "a", "c"]);
    assert!(!r.move_down(&pid("c")));
    assert!(!r.move_down(&pid("zz")));
    assert_eq!(ids(&r), vec!["b", "a", "c"]);
}

#[test]
fn move_up_then_down_restores_order() {
    let mut r = three();
    assert!(r.move_up(&pid("b")));
    assert!(r.move_down(&pid("b")));
    assert_eq!(ids(&r), vec!["a", "b", "c"]);
}

#[test]
fn set_label_trims_and_clears() {
    let mut r = three();
    assert!(r.set_label(&pid("b"), "  Faces \t"));
    assert_eq!(r.get(&pid("b")).unwrap().label.as_deref(), Some("Faces"));
    assert_eq!(r.get(&pid("b")).unwrap().display_name(), "Faces");
    assert!(r.set_label(&pid("b"), "   "));
    assert!(r.get(&pid("b")).unwrap().label.is_none());
    assert!(!r.set_label(&pid("nope"), "x"));
    assert_eq!(ids(&r), vec!["a", "b", "c"]);
}

#[test]
fn resolve_url_and_path_look_up_the_pack() {
    let mut r = Registry::new();
    let mut p = pack("dsk", "https://example.com/packs/dsk/", &[("01", "01.webp")]);
    p.sticker_paths.insert("01".to_string(), PathBuf::from("/cache/dsk/01.webp"));
    r.insert(p);
    let s = StickerId::new("01").unwrap();
    assert_eq!(
        resolve_url(&r, &pid("dsk"), &s).unwrap().as_str(),
        "https://example.com/packs/dsk/01.webp"
    );
    assert_eq!(resolve_path(&r, &pid("dsk"), &s), Some(PathBuf::from("/cache/dsk/01.webp")));
    assert!(resolve_url(&r, &pid("other"), &s).is_none());
    assert!(resolve_path(&r, &pid("other"), &s).is_none());
    assert!(resolve_path(&r, &pid("dsk"), &StickerId::new("02").unwrap()).is_none());
}

#[test]
fn pack_for_url_finds_first_owner() {
    let mut r = Registry::new();
    r.insert(pack("a", "https://example.com/a/", &[("1", "1.png")]));
    r.insert(pack("b", "https://example.com/b/", &[("1", "1.png"), ("2", "https://example.com/a/1.png")]));
    assert_eq!(pack_for_url(&r, &url("https://example.com/b/1.png")).unwrap().as_str(), "b");
    assert_eq!(pack_for_url(&r, &url("https://example.com/a/1.png")).unwrap().as_str(), "a");
    assert!(pack_for_url(&r, &url("https://example.com/c/1.png")).is_none());
}

#[test]
fn disambiguate_leaves_fresh_id_alone() {
    let r = three();
    let mut p = pack("fresh", "https://example.com/fresh/", &[]);
    disambiguate_local_id(&mut p, &url("https://example.com/fresh/"), &r);
    assert_eq!(p.id.as_str(), "fresh");
}

#[test]
fn disambiguate_suffixes_taken_id_with_url_hash() {
    let r = three();
    let source = url("https://mirror.example/b/");
    let mut p = pack("b", "https://mirror.example/b/", &[]);
    disambiguate_local_id(&mut p, &source, &r);
    let hash = seahash::hash(source.as_str().as_bytes()) & 0xFF_FFFF;
    assert_eq!(p.id.as_str(), format!("b_{hash:06x}"));
    assert_eq!(p.base_url.as_str(), "https://mirror.example/b/");
    let expected = p.id.as_str().to_string();
    let mut r2 = three();
    r2.insert(p);
    assert_eq!(r2.len(), 4);
    assert_eq!(ids(&r2), vec!["a".to_string(), "b".to_string(), "c".to_string(), expected]);
    assert_eq!(r2.get(&pid("b")).unwrap().base_url.as_str(), "https://example.com/b/");
}

#[test]
fn persisted_entries_follow_registry_order() {
    let mut r = Registry::new();
    r.insert(pack("x", "https://raw.githubusercontent.com/you/stickers/main/x/", &[]));
    r.insert(pack("y", "https://example.com/y/", &[]));
    assert!(r.set_label(&pid("y"), "Why"));
    let entries = persisted_entries(&r);
    assert_eq!(entries.len(), 2);
    assert_eq!(entries[0].0.as_str(), "https://github.com/you/stickers/tree/main/x");
    assert_eq!(entries[0].1, None);
    assert_eq!(entries[1].0.as_str(), "https://example.com/y/");
    assert_eq!(entries[1].1.as_deref(), Some("Why"));
}

#[test]
fn disambiguate_adds_the_suffix_again_while_taken() {
    let source = url("https://mirror.example/b/");
    let hash = seahash::hash(source.as_str().as_bytes()) & 0xFF_FFFF;
    let mut r = three();
    let mut second = pack("b", "https://mirror.example/b/", &[]);
    disambiguate_local_id(&mut second, &source, &r);
    assert_eq!(second.id.as_str(), format!("b_{hash:06x}"));
    r.insert(second);
    let mut third = pack("b", "https://mirror.example/b/", &[]);
    disambiguate_local_id(&mut third, &source, &r);
    assert_eq!(third.id.as_str(), format!("b_{hash:06x}_{hash:06x}"));
    r.insert(third);
    assert_eq!(r.len(), 5);
}

#[test]
fn first_configured_pack_keeps_its_id() {
    let first = url("https://one.example/dsk/");
    let second = url("https://two.example/dsk/");
    let mut r = Registry::new();
    for (source, label) in [(&first, Some("One")), (&second, None)] {
        let p = pack("dsk", source.as_str(), &[]);
        let admitted = admit_configured(&r, p, source, label.map(|l| l.to_string()));
        r.insert(admitted);
    }
    let hash = seahash::hash(second.as_str().as_bytes()) & 0xFF_FFFF;
    assert_eq!(ids(&r), vec!["dsk".to_string(), format!("dsk_{hash:06x}")]);
    assert_eq!(r.get(&pid("dsk")).unwrap().label.as_deref(), Some("One"));
    assert_eq!(r.get(&pid("dsk")).unwrap().base_url.as_str(), "https://one.example/dsk/");
    assert!(r.get_index(1).unwrap().label.is_none());
}
