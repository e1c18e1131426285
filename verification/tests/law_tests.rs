use std::path::PathBuf;

use coder::buffer::{Buffer, Cursor};
use coder::config::{merged_config_text, parse, seed, to_toml};
use coder::keybindings::{parse as parse_keys, Bindable, Chord, Keybindings};
use coder::keys::KeyCode;

#[test]
fn undo_then_redo_restores_the_edit() {
    let mut b = Buffer::new(None, "abc");
    b.cursor = Cursor { line: 0, col: 3 };
    b.insert_str("def");
    let after = b.full_text();
    b.undo();
    assert_eq!(b.full_text(), "abc");
    b.redo();
    assert_eq!(b.full_text(), after);
    assert_eq!(b.cursor, Cursor { line: 0, col: 6 });
}

#[test]
fn a_new_edit_clears_redo() {
    let mut b = Buffer::new(None, "x");
    b.cursor = Cursor { line: 0, col: 1 };
    b.insert_str("y");
    b.undo();
    b.insert_str("z");
    b.redo();
    assert_eq!(b.full_text(), "xz");
}

#[test]
fn backspace_and_delete_undo() {
    let mut b = Buffer::new(None, "hello");
    b.cursor = Cursor { line: 0, col: 5 };
    b.backspace();
    assert_eq!(b.full_text(), "hell");
    b.undo();
    assert_eq!(b.full_text(), "hello");
    b.cursor = Cursor { line: 0, col: 0 };
    b.delete_forward();
    assert_eq!(b.full_text(), "ello");
    b.undo();
    assert_eq!(b.full_text(), "hello");
    // Nothing before the start or after the end: no edit, no version bump.
    let v = b.version;
    b.cursor = Cursor { line: 0, col: 0 };
    b.backspace();
    b.cursor = Cursor { line: 0, col: 5 };
    b.delete_forward();
    assert_eq!(b.full_text(), "hello");
    assert_eq!(b.version, v);
}

#[test]
fn edits_mark_dirty_and_saving_clears_it() {
    let mut b = Buffer::new(None, "");
    assert!(!b.dirty);
    b.insert_char('a');
    assert!(b.dirty);
    assert_eq!(b.version, 1);
    b.mark_saved();
    assert!(!b.dirty);
}

#[test]
fn display_name_is_the_file_name() {
    let b = Buffer::new(Some(PathBuf::from("/tmp/project/main.rs")), "");
    assert_eq!(b.display_name(), "main.rs");
    assert_eq!(Buffer::new(None, "").display_name(), "untitled");
}

#[test]
fn chord_round_trip_on_every_default() {
    for b in Bindable::all() {
        let c = Chord::parse(b.default_chord()).expect("defaults parse");
        assert_eq!(Chord::parse(&c.to_chord_string()), Some(c));
    }
    // A key whose name does not read back is the law's exception.
    let upper = Chord { code: KeyCode::Char('Q'), ctrl: true, shift: false, alt: false };
    assert_ne!(Chord::parse(&upper.to_chord_string()), Some(upper));
}

#[test]
fn every_default_is_unlocked() {
    let kb = Keybindings::default();
    for b in Bindable::all() {
        assert!(!kb.shortcut(b).starts_with("Leader"), "{b:?}");
    }
}

#[test]
fn shortcuts_file_round_trips() {
    let mut kb = parse_keys("[global]\nquit = \"ctrl+shift+q, locked\"\n[editor]\ncopy = \"alt+c\"\n");
    let text = to_toml_keys(&kb);
    let back = parse_keys(&text);
    for b in Bindable::all() {
        assert_eq!(back.shortcut(b), kb.shortcut(b), "{b:?}");
    }
    kb.set(Bindable::Quit, Chord { code: KeyCode::F(5), ctrl: false, shift: false, alt: false }, Some(false));
    assert_eq!(kb.shortcut(Bindable::Quit), "F5");
}

fn to_toml_keys(kb: &Keybindings) -> String {
    coder::keybindings::to_toml(kb)
}

#[test]
fn saving_never_clobbers_unparseable_text() {
    let cfg = seed();
    assert_eq!(merged_config_text(&cfg, Some("theme = \"x\n[rust\n")), None);
    assert_eq!(merged_config_text(&cfg, None), Some(to_toml(&cfg)));
    // A file whose keys the config all has is simply overwritten.
    assert_eq!(merged_config_text(&cfg, Some("theme = \"y\"\n")), Some(to_toml(&cfg)));
    // Keys the config doesn't carry survive.
    let out = merged_config_text(&cfg, Some("theme = \"x\"\n[weird]\nextensions = 5\n")).unwrap();
    let t: toml::Table = out.parse().unwrap();
    assert!(t.contains_key("weird"));
    assert!(t.contains_key("rust"));
    assert_eq!(parse(&out).language("rust").unwrap().lsp, "rust-analyzer");
}

#[test]
fn languages_come_only_from_tables() {
    let cfg = parse("theme = \"a\"\nlsp = \"x\"\n");
    assert!(cfg.languages.is_empty());
    let cfg = parse("[go]\nlsp = \"gopls\"\n[theme]\nlsp = \"no\"\n");
    assert_eq!(cfg.languages.len(), 1);
    assert!(cfg.has_language("go"));
}

#[test]
fn utf16_columns_round_trip() {
    let b = Buffer::new(None, "a😀b\nxy");
    for col in 0..6 {
        let u = b.char_col_to_utf16(0, col);
        assert_eq!(b.utf16_to_char_col(0, u), col.min(3));
    }
    assert_eq!(b.utf16_to_char_col(1, b.char_col_to_utf16(1, 1)), 1);
}

#[test]
fn shortcuts_file_restores_a_rebound_table() {
    let mut kb = Keybindings::default();
    let comma = Chord { code: KeyCode::Char(','), ctrl: true, shift: false, alt: false };
    let f7 = Chord { code: KeyCode::F(7), ctrl: false, shift: true, alt: true };
    kb.set(Bindable::Settings, comma, Some(true));
    kb.set(Bindable::Copy, comma, None);
    kb.set(Bindable::NewFolder, f7, Some(true));
    let text = to_toml_keys(&kb);
    let back = parse_keys(&text);
    assert_eq!(to_toml_keys(&back), text);
    for b in Bindable::all() {
        assert_eq!(back.shortcut(b), kb.shortcut(b), "{b:?}");
    }
    // One line alone rebinds just its command.
    let one = parse_keys("[sidebar]\nnew_folder = \"shift+alt+f7, locked\"\n");
    let mut expect = Keybindings::default();
    expect.set(Bindable::NewFolder, f7, Some(true));
    assert_eq!(to_toml_keys(&one), to_toml_keys(&expect));
}

#[test]
fn config_file_restores_the_config() {
    let mut cfg = seed();
    cfg.ascii_icons = true;
    cfg.format_on_paste = true;
    cfg.theme = "Solarized (dark)".to_string();
    let back = parse(&to_toml(&cfg));
    assert_eq!(back.theme, cfg.theme);
    assert_eq!(back.ascii_icons, cfg.ascii_icons);
    assert_eq!(back.format_on_save, cfg.format_on_save);
    assert_eq!(back.format_on_paste, cfg.format_on_paste);
    assert_eq!(back.trim_trailing_whitespace, cfg.trim_trailing_whitespace);
    assert_eq!(back.insert_final_newline, cfg.insert_final_newline);
    assert_eq!(back.inline_diagnostics, cfg.inline_diagnostics);
    assert_eq!(back.languages.len(), cfg.languages.len());
    for (name, l) in &cfg.languages {
        let r = back.language(name).expect("every language reads back");
        assert_eq!(r.extensions, l.extensions);
        assert_eq!(r.lsp, l.lsp);
        assert_eq!(r.formatter, l.formatter);
        assert_eq!(r.linter, l.linter);
    }
    // Field and section order do not matter.
    let a = parse("[go]\nlsp = \"gopls\"\nextensions = [\"go\"]\nlinter = \"\"\nformatter = \"gofmt\"\n");
    let b = parse("[go]\nformatter = \"gofmt\"\nextensions = [\"go\"]\nlsp = \"gopls\"\nlinter = \"\"\n");
    let (la, lb) = (a.language("go").unwrap(), b.language("go").unwrap());
    assert_eq!((&la.extensions, &la.lsp, &la.formatter, &la.linter), (&lb.extensions, &lb.lsp, &lb.formatter, &lb.linter));
}
