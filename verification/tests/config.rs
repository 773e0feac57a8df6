use temuera_headless::config::{decode_text, find_config, parse_config, parse_config_line, ConfigFile};

#[test]
fn parses_colon_and_equals_entries() {
    let entries = parse_config("文字色:255,128,64\nFoo = Bar\n; ignored\n");
    assert_eq!(entries.len(), 2);
    assert_eq!(entries[0].key, "文字色");
    assert_eq!(entries[0].value, "255,128,64");
    assert_eq!(entries[1].key, "Foo");
    assert_eq!(entries[1].value, "Bar");
}

#[test]
fn config_entries_keep_line_numbers() {
    let entries = parse_config("\n; c\nA:1\n\nB=2\n");
    assert_eq!(entries.len(), 2);
    assert_eq!(entries[0].line_no, 3);
    assert_eq!(entries[1].line_no, 5);
}

#[test]
fn colon_wins_over_equals() {
    let entry = parse_config_line(1, "A=B:C").unwrap();
    assert_eq!(entry.key, "A=B");
    assert_eq!(entry.value, "C");
}

#[test]
fn empty_key_and_missing_separator_give_nothing() {
    assert!(parse_config_line(1, ":value").is_none());
    assert!(parse_config_line(1, "no separator").is_none());
    assert!(parse_config_line(1, "   ").is_none());
    assert!(parse_config_line(1, "\u{feff};comment").is_none());
}

#[test]
fn byte_order_mark_is_dropped_before_key() {
    let entry = parse_config_line(7, "\u{feff}Key : Value ").unwrap();
    assert_eq!(entry.line_no, 7);
    assert_eq!(entry.key, "Key");
    assert_eq!(entry.value, "Value");
}

#[test]
fn get_returns_last_matching_entry_ignoring_case() {
    let config = ConfigFile::from_text("emuera.config".to_owned(), "TextColor:1\ntextcolor:2\nOther:3\n");
    assert_eq!(config.get("TEXTCOLOR"), Some("2"));
    assert_eq!(config.get("other"), Some("3"));
    assert_eq!(config.get("missing"), None);
    assert_eq!(ConfigFile::new().get("x"), None);
}

#[test]
fn finds_config_file_name_ignoring_case() {
    let names = vec!["ERB".to_owned(), "Emuera.Config".to_owned(), "emuera.config".to_owned()];
    assert_eq!(find_config(&names), Some(1));
    assert_eq!(find_config(&vec!["a.txt".to_owned()]), None);
}

#[test]
fn decodes_text_with_unified_newlines() {
    assert_eq!(decode_text("\u{feff}a\r\nb\rc\r\r\nd".as_bytes()), "a\nb\nc\n\nd");
    assert_eq!(decode_text(&[0x61, 0xff, 0x62]), "a\u{fffd}b");
}
