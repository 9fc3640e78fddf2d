use std::collections::VecDeque;

use sticker::sticker::recents::{recents_entries, recents_from_entries, MAX_RECENTS};
use sticker::sticker::{push_recent, recents, replace_shared_recents, PackId, StickerId, StickerRef};

fn pid(s: &str) -> PackId {
    PackId::new(s).unwrap()
}

fn sid(s: &str) -> StickerId {
    StickerId::new(s).unwrap()
}

fn pairs(v: &[StickerRef]) -> Vec<(String, String)> {
    v.iter().map(|r| (r.pack.as_str().to_string(), r.sticker.as_str().to_string())).collect()
}

fn p(a: &str, b: &str) -> (String, String) {
    (a.to_string(), b.to_string())
}

#[test]
fn push_recent_puts_newest_first() {
    let mut list = VecDeque::new();
    push_recent(&mut list, pid("dsk"), sid("01"));
    let snap = push_recent(&mut list, pid("dsk"), sid("02"));
    assert_eq!(pairs(&snap), vec![p("dsk", "02"), p("dsk", "01")]);
    assert_eq!(pairs(&recents(&list)), pairs(&snap));
}

#[test]
fn push_recent_moves_repeat_to_front_once() {
    let mut list = VecDeque::new();
    push_recent(&mut list, pid("a"), sid("1"));
    push_recent(&mut list, pid("a"), sid("2"));
    push_recent(&mut list, pid("b"), sid("1"));
    let snap = push_recent(&mut list, pid("a"), sid("1"));
    assert_eq!(pairs(&snap), vec![p("a", "1"), p("b", "1"), p("a", "2")]);
    let again = push_recent(&mut list, pid("a"), sid("1"));
    assert_eq!(pairs(&again), pairs(&snap));
}

#[test]
fn push_recent_caps_the_list() {
    let mut list = VecDeque::new();
    for i in 0..(MAX_RECENTS + 5) {
        push_recent(&mut list, pid("p"), sid(&i.to_string()));
    }
    assert_eq!(MAX_RECENTS, 24);
    assert_eq!(list.len(), MAX_RECENTS);
    let snap = recents(&list);
    assert_eq!(snap[0].sticker.as_str(), (MAX_RECENTS + 4).to_string());
    assert_eq!(snap[MAX_RECENTS - 1].sticker.as_str(), "5");
}

#[test]
fn replace_installs_the_loaded_list() {
    let mut list = VecDeque::new();
    push_recent(&mut list, pid("old"), sid("x"));
    let loaded = recents_from_entries(vec![p("a", "1"), p("b", "2")]);
    replace_shared_recents(&mut list, loaded);
    assert_eq!(pairs(&recents(&list)), vec![p("a", "1"), p("b", "2")]);
}

#[test]
fn loading_keeps_all_well_formed_entries_in_order() {
    let loaded = recents_from_entries(vec![p("a", "1"), p("gone", "2"), p("a", "3")]);
    let v: Vec<StickerRef> = loaded.into_iter().collect();
    assert_eq!(pairs(&v), vec![p("a", "1"), p("gone", "2"), p("a", "3")]);
}

#[test]
fn loading_with_a_malformed_entry_starts_empty() {
    for bad in [p("bad pack", "2"), p("c", ""), p("d/e", "3"), p("", "x")] {
        let loaded = recents_from_entries(vec![p("a", "1"), bad, p("f", "4")]);
        assert!(loaded.is_empty());
    }
}

#[test]
fn recents_of_empty_list_is_empty() {
    let list = VecDeque::new();
    assert!(recents(&list).is_empty());
}

#[test]
fn saved_recents_load_back_whole() {
    let mut list = VecDeque::new();
    push_recent(&mut list, pid("a"), sid("1"));
    push_recent(&mut list, pid("b"), sid("2"));
    push_recent(&mut list, pid("a"), sid("3"));
    let refs = recents(&list);
    let saved = recents_entries(&refs);
    assert_eq!(saved, vec![p("a", "3"), p("b", "2"), p("a", "1")]);
    let loaded: Vec<StickerRef> = recents_from_entries(saved).into_iter().collect();
    assert_eq!(pairs(&loaded), pairs(&refs));
}
