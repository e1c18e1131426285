use std::path::PathBuf;

use coder::buffer::{merges_into, Buffer, Cursor};
use coder::config::{parse_checked, seed};

#[test]
fn move_lines_moves_the_block_one_line() {
    let mut b = Buffer::new(None, "a\nb\nc");
    b.cursor = Cursor { line: 0, col: 0 };
    b.move_lines(2);
    assert_eq!(b.full_text(), "b\na\nc");
    assert_eq!(b.cursor, Cursor { line: 1, col: 0 });
    b.move_lines(-5);
    assert_eq!(b.full_text(), "a\nb\nc");
    assert_eq!(b.cursor, Cursor { line: 0, col: 0 });
}

#[test]
fn dedent_without_indent_keeps_every_byte() {
    let mut b = Buffer::new(None, "a\nb\r");
    b.select_all();
    let (v, c, a) = (b.version, b.cursor, b.anchor);
    b.dedent_selection();
    assert_eq!(b.full_text(), "a\nb\r");
    assert_eq!((b.version, b.cursor, b.anchor), (v, c, a));
    b.undo();
    assert_eq!(b.full_text(), "a\nb\r");
    // Indenting keeps the lone CR too, and dedenting takes the indent back.
    b.select_all();
    b.indent_selection();
    assert_eq!(b.full_text(), "    a\n    b\r");
    b.dedent_selection();
    assert_eq!(b.full_text(), "a\nb\r");
}

#[test]
fn display_name_is_the_last_path_component() {
    let b = Buffer::new(Some(PathBuf::from("/tmp/project/main.rs")), "");
    assert_eq!(b.display_name(), "main.rs");
    let root = Buffer::new(Some(PathBuf::from("/")), "");
    assert_eq!(root.display_name(), "untitled");
}

#[test]
fn rejected_json_pastes_go_in_verbatim() {
    let list = format!("[{}]", (0..40).map(|i| i.to_string()).collect::<Vec<_>>().join(", "));
    let mut b = Buffer::new(None, "");
    b.insert_paste(&list);
    assert_eq!(b.full_text(), list);
    let dup = "{\"a\": 1, \"a\": 2, \"bbbbbbbbbbbbbbbbbbbbbbbbbbbbbbbbbbbbbbbbbbbbbbbbbbbbbbbbbbbbbbbb\": 3}";
    let mut b = Buffer::new(None, "");
    b.insert_paste(dup);
    assert_eq!(b.full_text(), dup);
}

#[test]
fn typing_merges_only_when_contiguous_and_quick() {
    assert!(merges_into(true, 0, 4, 3, 7, 599));
    assert!(!merges_into(true, 0, 4, 3, 7, 600));
    assert!(!merges_into(true, 0, 4, 3, 8, 10));
    assert!(!merges_into(false, 0, 4, 3, 7, 10));
    assert!(!merges_into(true, 1, 4, 3, 7, 10));
}

#[test]
fn redo_brings_back_the_typed_run_and_its_cursor() {
    let mut b = Buffer::new(None, "");
    for c in "hello".chars() {
        b.insert_char(c);
    }
    b.undo();
    assert_eq!(b.full_text(), "");
    b.redo();
    assert_eq!(b.full_text(), "hello");
    assert_eq!(b.cursor, Cursor { line: 0, col: 5 });
    assert_eq!(b.anchor, None);
}

#[test]
fn parse_checked_reports_broken_toml() {
    assert!(parse_checked("theme = \"x\n[rust\n").is_err());
    let cfg = parse_checked("theme = \"x\"\n[go]\nlsp = \"gopls\"\n").unwrap();
    assert_eq!(cfg.theme, "x");
    assert!(cfg.has_language("go"));
    assert_eq!(parse_checked(&coder::config::to_toml(&seed())).unwrap().languages.len(), 2);
}
