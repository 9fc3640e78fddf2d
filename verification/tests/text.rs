use sticker::text::{append_hex, char_is_space, split_runs, str_eq, trim};

#[test]
fn trim_drops_surrounding_white_space() {
    assert_eq!(trim("  a b \t\n"), "a b");
    assert_eq!(trim("\u{3000}x\u{00A0}"), "x");
    assert_eq!(trim("   "), "");
    assert_eq!(trim(""), "");
    assert_eq!(trim("abc"), "abc");
}

#[test]
fn trim_agrees_with_std() {
    for s in ["  x  ", "\u{2003}y\u{2028}", "\u{85}z", "q\u{200B}", " \u{1680}w"] {
        assert_eq!(trim(s), s.trim());
    }
}

#[test]
fn char_is_space_agrees_with_std() {
    for c in ['\t', '\n', ' ', '\u{85}', '\u{a0}', '\u{1680}', '\u{2000}', '\u{200a}', '\u{2028}', '\u{2029}', '\u{202f}', '\u{205f}', '\u{3000}', 'a', '/', '\u{200b}', '\u{feff}'] {
        assert_eq!(char_is_space(c), c.is_whitespace(), "{c:?}");
    }
}

#[test]
fn split_runs_keeps_non_empty_segments() {
    assert_eq!(split_runs("/you//stickers/tree/"), vec!["you", "stickers", "tree"]);
    assert!(split_runs("///").is_empty());
    assert_eq!(split_runs("a"), vec!["a"]);
}

#[test]
fn append_hex_writes_fixed_width_lower_case() {
    let mut s = String::from("id_");
    append_hex(&mut s, 0xAB12, 6);
    assert_eq!(s, "id_00ab12");
    let mut t = String::new();
    append_hex(&mut t, 0x1234_5678_9abc_def0, 16);
    assert_eq!(t, "123456789abcdef0");
    let mut u = String::new();
    append_hex(&mut u, 0xFFF_FFFF, 6);
    assert_eq!(u, "ffffff");
}

#[test]
fn str_eq_compares_text() {
    assert!(str_eq("abc", "abc"));
    assert!(!str_eq("abc", "abd"));
    assert!(!str_eq("ab", "abc"));
}
