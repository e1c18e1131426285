use coder::buffer::{is_word_char, Buffer, Cursor};
use coder::config::{merged_config_text, parse, seed, to_toml};
use coder::mouse::is_double_click;

#[test]
fn merge_writes_the_configs_own_values_and_keeps_extra_sections() {
    let mut cfg = seed();
    cfg.theme = "fresh".to_string();
    let file = "theme = \"stale\"\nformat_on_save = true\n[weird]\nextensions = 5\nnote = \"kept\"\n";
    let out = merged_config_text(&cfg, Some(file)).unwrap();
    let t: toml::Table = out.parse().unwrap();
    // The config's keys carry the config's values, not the file's.
    assert_eq!(t["theme"].as_str(), Some("fresh"));
    assert_eq!(t["format_on_save"].as_bool(), Some(false));
    // The extra section is kept with its contents.
    let weird = t["weird"].as_table().unwrap();
    assert_eq!(weird["extensions"].as_integer(), Some(5));
    assert_eq!(weird["note"].as_str(), Some("kept"));
    // Everything the plain serialization holds is there, value for value.
    let fresh: toml::Table = to_toml(&cfg).parse().unwrap();
    for (k, v) in fresh.iter() {
        assert_eq!(t.get(k), Some(v));
    }
    assert_eq!(parse(&out).theme, "fresh");
}

#[test]
fn merge_keeps_an_extra_scalar_too() {
    let cfg = seed();
    let out = merged_config_text(&cfg, Some("mystery = 42\n")).unwrap();
    let t: toml::Table = out.parse().unwrap();
    assert_eq!(t["mystery"].as_integer(), Some(42));
    assert!(t.contains_key("rust"));
}

#[test]
fn double_click_needs_the_same_cell_within_400_ms() {
    assert!(is_double_click(Some((0, 5, 7)), 5, 7));
    assert!(is_double_click(Some((399, 5, 7)), 5, 7));
    assert!(!is_double_click(Some((400, 5, 7)), 5, 7));
    assert!(!is_double_click(Some((10, 6, 7)), 5, 7));
    assert!(!is_double_click(Some((10, 5, 8)), 5, 7));
    assert!(!is_double_click(None, 5, 7));
}

#[test]
fn plain_paste_is_insert_str() {
    for text in ["{ let x = 1; }", "null", "{\"a\":1,\"b\":[2,3]}", "x y z"] {
        let mut a = Buffer::new(None, "    ");
        a.cursor = Cursor { line: 0, col: 4 };
        let mut b = Buffer::new(None, "    ");
        b.cursor = Cursor { line: 0, col: 4 };
        a.insert_paste(text);
        b.insert_str(text);
        assert_eq!(a.full_text(), b.full_text());
        assert_eq!(a.cursor, b.cursor);
        assert_eq!(a.version, b.version);
    }
}

#[test]
fn crlf_lines_move_down_and_back_up() {
    let mut b = Buffer::new(None, "a\r\nb\r\nc");
    b.cursor = Cursor { line: 0, col: 1 };
    b.move_lines(1);
    assert_eq!(b.full_text(), "b\r\na\r\nc");
    assert_eq!(b.cursor.line, 1);
    b.move_lines(-1);
    assert_eq!(b.full_text(), "a\r\nb\r\nc");
    assert_eq!(b.cursor, Cursor { line: 0, col: 1 });
}

#[test]
fn ascii_word_characters() {
    for c in ['a', 'z', 'A', 'Z', '0', '9', '_'] {
        assert!(is_word_char(c));
    }
    for c in [' ', '-', '.', '\n', '(', '~'] {
        assert!(!is_word_char(c));
    }
}
