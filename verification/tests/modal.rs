use std::path::PathBuf;

use sticker::modal::sticker_info;
use sticker::modal::sticker_manager;
use sticker::modal::sticker_picker;
use sticker::sticker::pack::{Pack, PackManifest, StickerDef};
use sticker::sticker::registry::Registry;
use sticker::sticker::weburl::WebUrl;
use sticker::sticker::{PackId, StickerId};

fn pid(s: &str) -> PackId {
    PackId::new(s).unwrap()
}

fn sid(s: &str) -> StickerId {
    StickerId::new(s).unwrap()
}

fn pack(id: &str, base: &str, files: &[(&str, &str)]) -> Pack {
    let stickers = files
        .iter()
        .map(|(i, f)| StickerDef { id: i.to_string(), file: f.to_string(), emoji: String::new(), tags: Vec::new() })
        .collect();
    let manifest = PackManifest {
        id: id.to_string(),
        name: format!("{id} name"),
        author: Some("someone".to_string()),
        description: Some("about".to_string()),
        version: 1,
        cover: None,
        stickers,
    };
    Pack::new(pid(id), WebUrl::parse(base).unwrap(), manifest)
}

#[test]
fn picker_opens_on_first_pack() {
    let mut r = Registry::new();
    assert!(sticker_picker::State::new(&r).selected_pack.is_none());
    r.insert(pack("a", "https://example.com/a/", &[]));
    r.insert(pack("b", "https://example.com/b/", &[]));
    let s = sticker_picker::State::new(&r);
    assert_eq!(s.selected_pack.as_ref().unwrap().as_str(), "a");
    assert!(s.preview().is_none());
}

#[test]
fn picker_click_on_same_sticker_sends() {
    let mut s = sticker_picker::State::default();
    let r = s.update(sticker_picker::Action::PressSticker {
        pack_id: pid("a"),
        sticker_id: sid("1"),
        path: PathBuf::from("/c/a/1.png"),
    });
    assert!(r.is_none());
    assert_eq!(s.preview(), Some(&PathBuf::from("/c/a/1.png")));
    let sent = s.update(sticker_picker::Action::ReleaseOn { pack_id: pid("a"), sticker_id: sid("1") }).unwrap();
    assert_eq!(sent.pack_id.as_str(), "a");
    assert_eq!(sent.sticker_id.as_str(), "1");
    assert!(s.preview().is_none());
}

#[test]
fn picker_drag_to_other_sticker_only_previews() {
    let mut s = sticker_picker::State::default();
    s.update(sticker_picker::Action::PressSticker {
        pack_id: pid("a"),
        sticker_id: sid("1"),
        path: PathBuf::from("/c/a/1.png"),
    });
    s.update(sticker_picker::Action::HoverWhilePressed(PathBuf::from("/c/a/2.png")));
    assert_eq!(s.preview(), Some(&PathBuf::from("/c/a/2.png")));
    let sent = s.update(sticker_picker::Action::ReleaseOn { pack_id: pid("a"), sticker_id: sid("2") });
    assert!(sent.is_none());
    assert!(s.preview().is_none());
}

#[test]
fn picker_hover_without_press_changes_nothing() {
    let mut s = sticker_picker::State::default();
    s.update(sticker_picker::Action::HoverWhilePressed(PathBuf::from("/c/a/2.png")));
    assert!(s.preview().is_none());
    assert!(s.update(sticker_picker::Action::ReleaseOn { pack_id: pid("a"), sticker_id: sid("2") }).is_none());
}

#[test]
fn picker_release_outside_cancels() {
    let mut s = sticker_picker::State::default();
    s.update(sticker_picker::Action::PressSticker {
        pack_id: pid("a"),
        sticker_id: sid("1"),
        path: PathBuf::from("/c/a/1.png"),
    });
    assert!(s.update(sticker_picker::Action::ReleaseOutside).is_none());
    assert!(s.preview().is_none());
    assert!(s.update(sticker_picker::Action::ReleaseOn { pack_id: pid("a"), sticker_id: sid("1") }).is_none());
}

#[test]
fn picker_select_pack() {
    let mut s = sticker_picker::State::default();
    assert!(s.update(sticker_picker::Action::SelectPack(pid("b"))).is_none());
    assert_eq!(s.selected_pack.as_ref().unwrap().as_str(), "b");
}

#[test]
fn picker_pack_view_shows_cached_valid_stickers_in_order() {
    let mut p = pack("a", "https://example.com/a/", &[("2", "2.png"), ("1", "1.png"), ("3", "3.png")]);
    p.sticker_paths.insert("1".to_string(), PathBuf::from("/c/1.png"));
    p.sticker_paths.insert("2".to_string(), PathBuf::from("/c/2.png"));
    p.label = Some("Label".to_string());
    let v = sticker_picker::PackView::of(&p);
    assert_eq!(v.id.as_str(), "a");
    assert_eq!(v.name, "Label");
    let shown: Vec<(&str, PathBuf)> = v.stickers.iter().map(|s| (s.id.as_str(), s.path.clone())).collect();
    assert_eq!(shown, vec![("2", PathBuf::from("/c/2.png")), ("1", PathBuf::from("/c/1.png"))]);
}

#[test]
fn manager_submit_empty_is_an_error() {
    let mut s = sticker_manager::State::new();
    s.update(sticker_manager::Action::UrlChanged("   ".to_string()));
    assert!(matches!(s.update(sticker_manager::Action::Submit), sticker_manager::Effect::Nothing));
    assert_eq!(s.error(), Some("URL is empty"));
    assert!(!s.busy());
}

#[test]
fn manager_submit_bad_url_is_an_error() {
    let mut s = sticker_manager::State::default();
    s.update(sticker_manager::Action::UrlChanged("not a url".to_string()));
    assert!(matches!(s.update(sticker_manager::Action::Submit), sticker_manager::Effect::Nothing));
    assert_eq!(s.error(), Some("not a valid URL"));
    s.update(sticker_manager::Action::UrlChanged("x".to_string()));
    assert!(s.error().is_none());
}

#[test]
fn manager_submit_trims_and_starts_adding() {
    let mut s = sticker_manager::State::new();
    s.update(sticker_manager::Action::UrlChanged("  https://example.com/p/  ".to_string()));
    match s.update(sticker_manager::Action::Submit) {
        sticker_manager::Effect::AddPack(u) => assert_eq!(u.as_str(), "https://example.com/p/"),
        _ => panic!("expected AddPack"),
    }
    assert!(s.busy());
    assert!(matches!(s.update(sticker_manager::Action::Submit), sticker_manager::Effect::Nothing));
    assert!(matches!(
        s.update(sticker_manager::Action::Remove(pid("a"))),
        sticker_manager::Effect::Nothing
    ));
    s.update(sticker_manager::Action::AddResult(Ok(pid("p"))));
    assert!(!s.busy());
    assert_eq!(s.url_input(), "");
}

#[test]
fn manager_add_failure_shows_message() {
    let mut s = sticker_manager::State::new();
    s.update(sticker_manager::Action::UrlChanged("https://example.com/p/".to_string()));
    s.update(sticker_manager::Action::Submit);
    s.update(sticker_manager::Action::AddResult(Err("boom".to_string())));
    assert!(!s.busy());
    assert_eq!(s.error(), Some("boom"));
    assert_eq!(s.url_input(), "https://example.com/p/");
}

#[test]
fn manager_remove_round_trip() {
    let mut s = sticker_manager::State::new();
    match s.update(sticker_manager::Action::Remove(pid("a"))) {
        sticker_manager::Effect::RemovePack(id) => assert_eq!(id.as_str(), "a"),
        _ => panic!("expected RemovePack"),
    }
    assert!(s.busy());
    s.update(sticker_manager::Action::RemoveResult(Err("nope".to_string())));
    assert!(!s.busy());
    assert_eq!(s.error(), Some("nope"));
    s.update(sticker_manager::Action::RemoveResult(Ok(())));
    assert_eq!(s.error(), Some("nope"));
}

#[test]
fn manager_rows_follow_registry() {
    let mut r = Registry::new();
    let mut a = pack("a", "https://example.com/a/", &[]);
    a.cover_path = Some(PathBuf::from("/c/a/cover.png"));
    r.insert(a);
    r.insert(pack("b", "https://example.com/b/", &[]));
    let rows = sticker_manager::pack_rows(&r);
    assert_eq!(rows.len(), 2);
    assert_eq!(rows[0].id.as_str(), "a");
    assert_eq!(rows[0].name, "a name");
    assert_eq!(rows[0].cover, Some(PathBuf::from("/c/a/cover.png")));
    assert_eq!(rows[1].cover, None);
}

#[test]
fn info_copy_asks_for_clipboard() {
    let mut s = sticker_info::State::new(pid("a"));
    match s.update(sticker_info::Action::CopyUrl("https://x/".to_string())) {
        sticker_info::Effect::CopyToClipboard(t) => assert_eq!(t, "https://x/"),
    }
    assert_eq!(s.pack_id.as_str(), "a");
}

#[test]
fn info_snapshot_of_loaded_pack() {
    let mut r = Registry::new();
    let mut p = pack("dsk", "https://raw.githubusercontent.com/you/stickers/main/dsk/", &[]);
    p.sticker_paths.insert("b".to_string(), PathBuf::from("/c/b.png"));
    p.sticker_paths.insert("a".to_string(), PathBuf::from("/c/a.png"));
    r.insert(p);
    let s = sticker_info::State::new(pid("dsk"));
    let snap = s.snapshot(&r).unwrap();
    assert_eq!(snap.name, "dsk name");
    assert_eq!(snap.author.as_deref(), Some("someone"));
    assert_eq!(snap.description.as_deref(), Some("about"));
    assert_eq!(snap.base_url, "https://github.com/you/stickers/tree/main/dsk");
    assert_eq!(snap.stickers, vec![PathBuf::from("/c/a.png"), PathBuf::from("/c/b.png")]);
    assert!(sticker_info::State::new(pid("gone")).snapshot(&r).is_none());
}

#[test]
fn picker_screen_without_packs() {
    let r = Registry::new();
    let s = sticker_picker::State::new(&r);
    assert!(matches!(s.screen(&r), sticker_picker::Screen::NoPacks));
}

#[test]
fn picker_screen_lays_out_selected_pack() {
    let mut r = Registry::new();
    let files: Vec<(String, String)> = (0..6).map(|i| (i.to_string(), format!("{i}.png"))).collect();
    let refs: Vec<(&str, &str)> = files.iter().map(|(a, b)| (a.as_str(), b.as_str())).collect();
    let mut a = pack("a", "https://example.com/a/", &refs);
    for (id, file) in &files {
        a.sticker_paths.insert(id.clone(), PathBuf::from(format!("/c/a/{file}")));
    }
    a.label = Some("First".to_string());
    r.insert(a);
    r.insert(pack("b", "https://example.com/b/", &[]));
    let mut s = sticker_picker::State::new(&r);
    s.update(sticker_picker::Action::PressSticker {
        pack_id: pid("a"),
        sticker_id: sid("0"),
        path: PathBuf::from("/c/a/0.png"),
    });
    match s.screen(&r) {
        sticker_picker::Screen::Packs { buttons, grid, preview } => {
            assert_eq!(buttons.len(), 2);
            assert_eq!(buttons[0].name, "First");
            assert!(buttons[0].selected);
            assert!(!buttons[1].selected);
            let rows = grid.unwrap();
            let sizes: Vec<usize> = rows.iter().map(|r| r.len()).collect();
            assert_eq!(sizes, vec![sticker_picker::PICKER_COLUMNS, 2]);
            assert_eq!(rows[1][1].id.as_str(), "5");
            assert_eq!(preview, Some(PathBuf::from("/c/a/0.png")));
        }
        sticker_picker::Screen::NoPacks => panic!("expected packs"),
    }
    s.update(sticker_picker::Action::SelectPack(pid("gone")));
    match s.screen(&r) {
        sticker_picker::Screen::Packs { buttons, grid, .. } => {
            assert!(grid.is_none());
            assert!(buttons.iter().all(|b| !b.selected));
        }
        sticker_picker::Screen::NoPacks => panic!("expected packs"),
    }
}

#[test]
fn manager_layout_follows_state() {
    let mut r = Registry::new();
    r.insert(pack("a", "https://example.com/a/", &[]));
    assert!(r.set_label(&pid("a"), "Renamed"));
    let mut s = sticker_manager::State::new();
    assert_eq!(
        s.layout(&Registry::new()).empty_hint.as_deref(),
        Some("No packs configured. Add one below to get started.")
    );
    let l = s.layout(&r);
    assert!(l.empty_hint.is_none());
    assert_eq!(l.rows.len(), 1);
    assert_eq!(l.rows[0].name, "Renamed");
    assert_eq!(l.add_label, "Add");
    assert!(l.add_enabled);
    assert!(l.error_line.is_none());
    s.update(sticker_manager::Action::Remove(pid("a")));
    let busy = s.layout(&r);
    assert_eq!(busy.add_label, "\u{2026}");
    assert!(!busy.add_enabled);
    s.update(sticker_manager::Action::RemoveResult(Err("disk full".to_string())));
    assert_eq!(s.layout(&r).error_line.as_deref(), Some("error: disk full"));
}

#[test]
fn info_layout_puts_five_to_a_row() {
    let mut r = Registry::new();
    let mut p = pack("dsk", "https://example.com/dsk/", &[]);
    for i in 0..7 {
        p.sticker_paths.insert(format!("s{i}"), PathBuf::from(format!("/c/{i}.png")));
    }
    r.insert(p);
    let l = sticker_info::State::new(pid("dsk")).snapshot(&r).unwrap().layout();
    assert_eq!(l.byline.as_deref(), Some("by someone"));
    assert_eq!(l.description.as_deref(), Some("about"));
    let sizes: Vec<usize> = l.rows.iter().map(|r| r.len()).collect();
    assert_eq!(sizes, vec![sticker_info::INFO_COLUMNS, 2]);
    assert_eq!(l.rows[1][1], PathBuf::from("/c/6.png"));
    assert_eq!(l.share_url, "https://example.com/dsk/");
}
