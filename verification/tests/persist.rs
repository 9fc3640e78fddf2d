use sticker::sticker::persist::{packs_config_text, EditError};
use sticker::sticker::weburl::WebUrl;

fn entries() -> Vec<(WebUrl, Option<String>)> {
    vec![
        (WebUrl::parse("https://github.com/you/stickers/tree/main/dsk").unwrap(), None),
        (WebUrl::parse("https://example.com/p/").unwrap(), Some("Mine".to_string())),
    ]
}

fn packs_of(text: &str) -> Vec<(String, Option<String>)> {
    let doc = text.parse::<toml_edit::DocumentMut>().unwrap();
    let Some(packs) = doc["sticker"].get("packs") else {
        return Vec::new();
    };
    let aot = packs.as_array_of_tables().unwrap();
    aot.iter()
        .map(|t| {
            (
                t["url"].as_str().unwrap().to_string(),
                t.get("label").and_then(|l| l.as_str()).map(|l| l.to_string()),
            )
        })
        .collect()
}

#[test]
fn empty_config_gets_sticker_packs() {
    let text = packs_config_text("", &entries()).unwrap();
    assert_eq!(
        packs_of(&text),
        vec![
            ("https://github.com/you/stickers/tree/main/dsk".to_string(), None),
            ("https://example.com/p/".to_string(), Some("Mine".to_string())),
        ]
    );
}

#[test]
fn other_settings_and_comments_are_kept() {
    let existing = "# my config\ntheme = \"ferra\"\n\n[sticker]\nenabled = false # off for now\n\n[[sticker.packs]]\nurl = \"https://old.example/\"\n";
    let text = packs_config_text(existing, &entries()).unwrap();
    assert!(text.contains("# my config"));
    assert!(text.contains("theme = \"ferra\""));
    assert!(text.contains("# off for now"));
    assert!(!text.contains("old.example"));
    let doc = text.parse::<toml_edit::DocumentMut>().unwrap();
    assert_eq!(doc["sticker"]["enabled"].as_bool(), Some(false));
    assert_eq!(packs_of(&text).len(), 2);
}

#[test]
fn missing_sticker_table_is_added() {
    let text = packs_config_text("theme = \"x\"\n", &entries()).unwrap();
    assert_eq!(packs_of(&text).len(), 2);
    let doc = text.parse::<toml_edit::DocumentMut>().unwrap();
    assert_eq!(doc["theme"].as_str(), Some("x"));
}

#[test]
fn no_entries_writes_empty_list() {
    let text = packs_config_text("[sticker]\nenabled = true\n\n[[sticker.packs]]\nurl = \"https://old.example/\"\n", &Vec::new()).unwrap();
    assert!(packs_of(&text).is_empty());
    assert!(!text.contains("old.example"));
    assert!(text.contains("enabled = true"));
}

#[test]
fn invalid_toml_is_a_parse_error() {
    assert!(matches!(packs_config_text("this is = = not toml", &entries()), Err(EditError::Parse(_))));
}

#[test]
fn non_table_sticker_entry_is_refused() {
    assert!(matches!(packs_config_text("sticker = 5\n", &entries()), Err(EditError::StickerNotATable)));
    assert!(packs_config_text("sticker = { enabled = true }\n", &entries()).is_ok());
}
