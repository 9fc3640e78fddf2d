use sticker::sticker::wire::{decode, encode, TAG};
use sticker::sticker::{PackId, StickerId, StickerRef};

fn mk(pack: &str, sticker: &str) -> StickerRef {
    StickerRef {
        pack: PackId::new(pack).unwrap(),
        sticker: StickerId::new(sticker).unwrap(),
    }
}

#[test]
fn encode_basic() {
    assert_eq!(encode(&mk("dsk", "01")), "dsk/01");
    assert_eq!(encode(&mk("eyepill-2.0", "yes")), "eyepill-2.0/yes");
}

#[test]
fn decode_basic() {
    assert_eq!(decode("dsk/01"), Some(mk("dsk", "01")));
    assert_eq!(decode("eyepill-2.0/yes"), Some(mk("eyepill-2.0", "yes")));
}

#[test]
fn roundtrip() {
    for (pack, sticker) in [("dsk", "01"), ("yes_chad", "yes"), ("a", "b")] {
        let r = mk(pack, sticker);
        assert_eq!(decode(&encode(&r)), Some(r));
    }
}

#[test]
fn decode_rejects_malformed() {
    for bad in [
        "",
        "dsk",
        "/",
        "/01",
        "dsk/",
        "dsk/01/extra",
        "dsk 01",
        "d sk/01",
        "dsk/0 1",
    ] {
        assert_eq!(decode(bad), None, "should reject: {bad:?}");
    }
}

#[test]
fn tag_constant() {
    assert_eq!(TAG, "+halloy.sticker");
}

#[test]
fn decode_rejects_unicode_space() {
    assert_eq!(decode("dsk/0\u{3000}1"), None);
    assert_eq!(decode("d\u{a0}sk/01"), None);
    assert_eq!(decode("dsk/01\u{2009}"), None);
}

#[test]
fn decode_keeps_non_ascii_ids() {
    assert_eq!(decode("猫/ねこ"), Some(mk("猫", "ねこ")));
    assert_eq!(encode(&mk("猫", "ねこ")), "猫/ねこ");
}

#[test]
fn ids_reject_empty_slash_and_space() {
    assert!(PackId::new("").is_none());
    assert!(PackId::new("a/b").is_none());
    assert!(PackId::new("a\tb").is_none());
    assert!(StickerId::new("x\ny").is_none());
    assert_eq!(PackId::new("dsk").unwrap().as_str(), "dsk");
    assert_eq!(StickerId::new("01").unwrap().as_str(), "01");
}

#[test]
fn dot_names_are_ids() {
    for name in [".", "..", "..."] {
        assert_eq!(PackId::new(name).unwrap().as_str(), name);
        assert_eq!(StickerId::new(name).unwrap().as_str(), name);
    }
    let r = decode("./01").unwrap();
    assert_eq!(r.pack.as_str(), ".");
    assert_eq!(encode(&r), "./01");
}
