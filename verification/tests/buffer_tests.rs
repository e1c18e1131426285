use coder::buffer::{Buffer, Cursor};

#[test]
fn utf16_offsets_handle_emoji() {
    // "a😀b": 'a'=1 utf16, '😀'=2 utf16 (surrogate pair), 'b'=1 utf16.
    let b = Buffer::new(None, "a😀b");
    // char col -> utf16
    assert_eq!(b.char_col_to_utf16(0, 0), 0);
    assert_eq!(b.char_col_to_utf16(0, 1), 1); // after 'a'
    assert_eq!(b.char_col_to_utf16(0, 2), 3); // after emoji (1 + 2)
    assert_eq!(b.char_col_to_utf16(0, 3), 4); // after 'b'
    // utf16 -> char col (round trip)
    assert_eq!(b.utf16_to_char_col(0, 0), 0);
    assert_eq!(b.utf16_to_char_col(0, 1), 1);
    assert_eq!(b.utf16_to_char_col(0, 3), 2);
    assert_eq!(b.utf16_to_char_col(0, 4), 3);
    // Out-of-range utf16 clamps to line end.
    assert_eq!(b.utf16_to_char_col(0, 99), 3);
}

#[test]
fn detects_and_caches_document_line_endings() {
    let crlf = Buffer::new(None, "one\r\ntwo\r\n");
    assert_eq!(crlf.line_ending_label(), "CRLF");

    let lf = Buffer::new(None, "one\ntwo\n");
    assert_eq!(lf.line_ending_label(), "LF");

    let mixed = Buffer::new(None, "one\r\ntwo\n");
    assert_eq!(mixed.line_ending_label(), "Mixed");

    let no_breaks = Buffer::new(None, "one");
    assert_eq!(no_breaks.line_ending_label(), "");
}

#[test]
fn line_ending_label_refreshes_after_edit() {
    let mut buffer = Buffer::new(None, "one\r\ntwo\r\n");
    assert_eq!(buffer.line_ending_label(), "CRLF");
    buffer.replace_all("one\ntwo\n");
    assert_eq!(buffer.line_ending_label(), "LF");
}

#[test]
fn anchor_selection_replaces_prefix() {
    // Completion accept: select the typed prefix, then insert replaces it.
    let mut b = Buffer::new(None, "prin");
    b.cursor = Cursor { line: 0, col: 4 };
    b.anchor = Some(Cursor { line: 0, col: 0 });
    b.insert_str("println!");
    assert_eq!(b.full_text(), "println!");
    assert_eq!(b.cursor.col, 8);
}

#[test]
fn insert_and_undo() {
    let mut b = Buffer::scratch();
    for c in "hello".chars() {
        b.insert_char(c);
    }
    assert_eq!(b.full_text(), "hello");
    b.undo();
    assert_eq!(b.full_text(), "");
    b.redo();
    assert_eq!(b.full_text(), "hello");
}

#[test]
fn newline_keeps_indentation() {
    let mut b = Buffer::new(None, "    let x = 1;");
    b.cursor = Cursor { line: 0, col: 14 }; // end of line
    b.insert_newline();
    assert_eq!(b.full_text(), "    let x = 1;\n    ");
    assert_eq!(b.cursor, Cursor { line: 1, col: 4 });
}

#[test]
fn newline_indent_splits_line_at_cursor() {
    let mut b = Buffer::new(None, "\tfoobar");
    b.cursor = Cursor { line: 0, col: 4 }; // between "foo" and "bar"
    b.insert_newline();
    assert_eq!(b.full_text(), "\tfoo\n\tbar");
}

#[test]
fn newline_inside_indent_carries_only_what_cursor_passed() {
    let mut b = Buffer::new(None, "        x");
    b.cursor = Cursor { line: 0, col: 4 }; // inside the 8-space indent
    b.insert_newline();
    assert_eq!(b.full_text(), "    \n        x");
}

#[test]
fn newline_on_unindented_line_adds_nothing() {
    let mut b = Buffer::new(None, "x");
    b.cursor = Cursor { line: 0, col: 1 };
    b.insert_newline();
    assert_eq!(b.full_text(), "x\n");
}

#[test]
fn newline_indent_undoes_as_one_step() {
    let mut b = Buffer::new(None, "    ab");
    b.cursor = Cursor { line: 0, col: 6 };
    b.insert_newline();
    assert_eq!(b.full_text(), "    ab\n    ");
    b.undo();
    assert_eq!(
        b.full_text(),
        "    ab",
        "the break and its indent undo together"
    );
}

#[test]
fn indent_selection_indents_all_spanned_lines() {
    let mut b = Buffer::new(None, "one\ntwo\nthree\n");
    b.cursor = Cursor { line: 1, col: 3 };
    b.anchor = Some(Cursor { line: 0, col: 0 }); // select lines 0..=1
    assert!(b.selection_is_multiline());
    b.indent_selection();
    assert_eq!(b.full_text(), "    one\n    two\nthree\n");
    // Cursor rides along by one indent unit.
    assert_eq!(b.cursor, Cursor { line: 1, col: 7 });
    // Undoes as a single step.
    b.undo();
    assert_eq!(b.full_text(), "one\ntwo\nthree\n");
}

#[test]
fn indent_selection_skips_blank_lines() {
    let mut b = Buffer::new(None, "one\n\ntwo\n");
    b.cursor = Cursor { line: 2, col: 3 }; // through the end of "two"
    b.anchor = Some(Cursor { line: 0, col: 0 });
    b.indent_selection();
    // The blank middle line gains no trailing whitespace.
    assert_eq!(b.full_text(), "    one\n\n    two\n");
}

#[test]
fn dedent_selection_removes_one_unit() {
    let mut b = Buffer::new(None, "        a\n    b\n\tc\n");
    b.cursor = Cursor { line: 2, col: 2 }; // through the end of "\tc"
    b.anchor = Some(Cursor { line: 0, col: 0 });
    b.dedent_selection();
    // 4 spaces removed, 4 spaces removed (down to zero), one tab removed.
    assert_eq!(b.full_text(), "    a\nb\nc\n");
}

#[test]
fn dedent_selection_no_leading_ws_is_noop() {
    let mut b = Buffer::new(None, "a\nb\n");
    b.cursor = Cursor { line: 1, col: 1 };
    b.anchor = Some(Cursor { line: 0, col: 0 });
    let before = b.version;
    b.dedent_selection();
    assert_eq!(b.full_text(), "a\nb\n");
    assert_eq!(b.version, before, "no edit, no version bump");
}

#[test]
fn single_line_selection_is_not_multiline() {
    let mut b = Buffer::new(None, "hello\n");
    b.cursor = Cursor { line: 0, col: 5 };
    b.anchor = Some(Cursor { line: 0, col: 0 });
    assert!(!b.selection_is_multiline());
}

#[test]
fn selection_ending_at_col_zero_excludes_last_line() {
    let mut b = Buffer::new(None, "one\ntwo\nthree\n");
    b.cursor = Cursor { line: 2, col: 0 }; // caret at start of line 2
    b.anchor = Some(Cursor { line: 0, col: 0 });
    b.indent_selection();
    // Line 2 is not visually selected, so it is left alone.
    assert_eq!(b.full_text(), "    one\n    two\nthree\n");
}

#[test]
fn newline_replaces_selection_then_indents() {
    let mut b = Buffer::new(None, "    abcd");
    b.cursor = Cursor { line: 0, col: 8 };
    b.anchor = Some(Cursor { line: 0, col: 6 }); // select "cd"
    b.insert_newline();
    assert_eq!(b.full_text(), "    ab\n    ");
}

#[test]
fn newline_splits_undo_groups() {
    let mut b = Buffer::scratch();
    for c in "ab".chars() {
        b.insert_char(c);
    }
    b.insert_newline();
    for c in "cd".chars() {
        b.insert_char(c);
    }
    assert_eq!(b.full_text(), "ab\ncd");
    b.undo(); // cd
    assert_eq!(b.full_text(), "ab\n");
    b.undo(); // newline
    assert_eq!(b.full_text(), "ab");
    b.undo(); // ab
    assert_eq!(b.full_text(), "");
}

#[test]
fn replace_all_is_undoable() {
    let mut b = Buffer::new(None, "a  \nb\n");
    b.replace_all("a\nb\n");
    assert_eq!(b.full_text(), "a\nb\n");
    assert!(b.dirty);
    b.undo();
    assert_eq!(b.full_text(), "a  \nb\n");
    // No-op when unchanged: no new undo step.
    b.replace_all("a  \nb\n");
    b.undo();
    assert_eq!(b.full_text(), "a  \nb\n");
}

#[test]
fn double_click_selects_word() {
    let mut b = Buffer::new(None, "foo bar_baz qux");
    b.select_word_at(Cursor { line: 0, col: 5 }); // inside "bar_baz"
    assert_eq!(b.selected_text().as_deref(), Some("bar_baz"));
    // Clicking on whitespace selects nothing.
    b.clear_selection();
    b.select_word_at(Cursor { line: 0, col: 3 });
    assert!(b.selected_text().is_none());
}

#[test]
fn select_char_range_spans_lines() {
    let b0 = Buffer::new(None, "abc\ndef");
    let mut b = b0;
    b.select_char_range(1, 5); // "bc\nd"
    assert_eq!(b.selected_text().as_deref(), Some("bc\nd"));
}

#[test]
fn word_motion() {
    let mut b = Buffer::new(None, "foo bar_baz  qux");
    b.move_word_right(false); // start -> after "foo"
    assert_eq!(b.cursor, Cursor { line: 0, col: 3 });
    b.move_word_right(false); // -> after "bar_baz"
    assert_eq!(b.cursor, Cursor { line: 0, col: 11 });
    b.move_word_left(false); // back to start of "bar_baz"
    assert_eq!(b.cursor, Cursor { line: 0, col: 4 });
    // Shift extends: anchor stays put.
    b.move_word_right(true);
    assert_eq!(b.selected_text().as_deref(), Some("bar_baz"));
}

#[test]
fn smart_home_toggles() {
    let mut b = Buffer::new(None, "    foo");
    b.cursor = Cursor { line: 0, col: 7 }; // end of line
    b.move_home(false); // -> first non-ws
    assert_eq!(b.cursor.col, 4);
    b.move_home(false); // already there -> column 0
    assert_eq!(b.cursor.col, 0);
    b.move_home(false); // back to first non-ws
    assert_eq!(b.cursor.col, 4);
    // A line without indent just goes to 0.
    let mut b2 = Buffer::new(None, "bar");
    b2.cursor = Cursor { line: 0, col: 2 };
    b2.move_home(false);
    assert_eq!(b2.cursor.col, 0);
}

#[test]
fn move_line_down_and_up() {
    let mut b = Buffer::new(None, "a\nb\nc");
    b.cursor = Cursor { line: 0, col: 0 }; // on "a"
    b.move_lines(1);
    assert_eq!(b.full_text(), "b\na\nc");
    assert_eq!(b.cursor.line, 1); // cursor followed the line
    b.move_lines(-1);
    assert_eq!(b.full_text(), "a\nb\nc");
    assert_eq!(b.cursor.line, 0);
}

#[test]
fn move_line_edges_are_noops() {
    let mut b = Buffer::new(None, "a\nb");
    b.cursor = Cursor { line: 0, col: 0 };
    b.move_lines(-1); // already at top
    assert_eq!(b.full_text(), "a\nb");
    b.cursor = Cursor { line: 1, col: 0 };
    b.move_lines(1); // already at bottom
    assert_eq!(b.full_text(), "a\nb");
}

#[test]
fn move_line_undoes_as_one_step() {
    let mut b = Buffer::new(None, "a\nb\nc");
    b.cursor = Cursor { line: 1, col: 0 };
    b.move_lines(1);
    assert_eq!(b.full_text(), "a\nc\nb");
    b.undo();
    assert_eq!(b.full_text(), "a\nb\nc");
}

#[test]
fn move_selected_block() {
    let mut b = Buffer::new(None, "a\nb\nc\nd");
    // Select lines "a" and "b" (anchor on line 0, cursor at start of line 2).
    b.anchor = Some(Cursor { line: 0, col: 0 });
    b.cursor = Cursor { line: 2, col: 0 };
    b.move_lines(1);
    // Trailing col-0 line (2) is excluded; only a,b move down past c.
    assert_eq!(b.full_text(), "c\na\nb\nd");
}

#[test]
fn paste_reindents_block_to_cursor() {
    // Pasting a block copied at 8-space indent onto a 4-space line.
    let mut b = Buffer::new(None, "    ");
    b.cursor = Cursor { line: 0, col: 4 }; // after the 4-space indent
    b.insert_paste("foo();\n        bar();\n        baz();");
    assert_eq!(b.full_text(), "    foo();\n    bar();\n    baz();");
}

#[test]
fn paste_single_line_is_verbatim() {
    let mut b = Buffer::new(None, "    ");
    b.cursor = Cursor { line: 0, col: 4 };
    b.insert_paste("    x");
    assert_eq!(b.full_text(), "        x");
}

#[test]
fn paste_keeps_blank_lines_empty() {
    let mut b = Buffer::new(None, "  ");
    b.cursor = Cursor { line: 0, col: 2 };
    b.insert_paste("a\n\n    b");
    assert_eq!(b.full_text(), "  a\n\n  b");
}

#[test]
fn paste_pretty_prints_minified_json_object() {
    // A minified JSON blob (e.g. copied from a browser's network tab) is a
    // single line with no newline — it must still get pretty-printed rather
    // than land as one giant line. Key order and a number beyond u64 survive.
    let mut b = Buffer::new(None, "");
    b.insert_paste(
        r#"{"zeta":"coder","alpha":"0.2.0","tags":["editor","tui"],"big":123456789012345678901234567890}"#,
    );
    assert_eq!(
        b.full_text(),
        "{\n  \"zeta\": \"coder\",\n  \"alpha\": \"0.2.0\",\n  \"tags\": [\n    \"editor\",\n    \"tui\"\n  ],\n  \"big\": 123456789012345678901234567890\n}"
    );
}

#[test]
fn paste_pretty_printed_json_reindents_to_cursor() {
    // The pretty-print result then goes through the normal reindent path,
    // so it still lands at the cursor's indentation, not column 0.
    let mut b = Buffer::new(None, "    ");
    b.cursor = Cursor { line: 0, col: 4 };
    b.insert_paste(r#"{"a":"0123456789012345678901234567890123456789","b":"0123456789"}"#);
    assert_eq!(
        b.full_text(),
        "    {\n      \"a\": \"0123456789012345678901234567890123456789\",\n      \"b\": \"0123456789\"\n    }"
    );
}

#[test]
fn paste_leaves_short_scalar_lists_and_lossy_json_alone() {
    let long_list = format!(
        "[{}]",
        (0..40)
            .map(|i| i.to_string())
            .collect::<Vec<_>>()
            .join(", ")
    );
    for text in [
        r#"{"a":1,"b":[2,3]}"#.to_string(), // too short to be a "blob"
        long_list,                          // array of scalars
        // Duplicate key: parsing would drop one.
        r#"{"key":"aaaaaaaaaaaaaaaaaaaaaaaa","key":"bbbbbbbbbbbbbbbbbbbbbbbbbbbbbbbb"}"#
            .to_string(),
        // Escape spelling would change (é -> é).
        r#"{"name":"café café café café","other":"xxxxxxxxxxxxxxxx"}"#.to_string(),
    ] {
        let mut b = Buffer::new(None, "");
        b.insert_paste(&text);
        assert_eq!(b.full_text(), text);
    }
}

#[test]
fn only_line_feed_breaks_lines() {
    // Lone CR, form feed, NEL and U+2028 are ordinary chars, matching
    // str::lines, syntect and LSP line numbering.
    let b = Buffer::new(None, "a\rb\u{c}c\u{85}d\u{2028}e\nf");
    assert_eq!(b.line_count(), 2);
    assert_eq!(b.line_text(1), "f");
    let crlf = Buffer::new(None, "one\r\ntwo\r\n");
    assert_eq!(crlf.line_count(), 3);
    assert_eq!(crlf.line_text(0), "one");
    assert_eq!(crlf.line_len(0), 3);
}

#[test]
fn crlf_break_is_one_unit_for_backspace_and_delete() {
    let mut b = Buffer::new(None, "ab\r\ncd");
    b.cursor = Cursor { line: 1, col: 0 };
    b.backspace();
    assert_eq!(b.full_text(), "abcd");
    assert_eq!(b.cursor, Cursor { line: 0, col: 2 });

    let mut b = Buffer::new(None, "ab\r\ncd");
    b.cursor = Cursor { line: 0, col: 2 };
    b.delete_forward();
    assert_eq!(b.full_text(), "abcd");
    b.undo();
    assert_eq!(b.full_text(), "ab\r\ncd");
}

#[test]
fn crlf_files_stay_crlf_when_editing_lines() {
    let mut b = Buffer::new(None, "  a\r\nb\r\nc");
    b.cursor = Cursor { line: 0, col: 3 };
    b.insert_newline();
    assert_eq!(b.full_text(), "  a\r\n  \r\nb\r\nc");

    // The unterminated last line borrows the line above's CRLF.
    let mut b = Buffer::new(None, "a\r\nb");
    b.cursor = Cursor { line: 1, col: 1 };
    b.insert_newline();
    assert_eq!(b.full_text(), "a\r\nb\r\n");

    let mut b = Buffer::new(None, "a\r\nb\r\nc");
    b.cursor = Cursor { line: 2, col: 0 };
    b.move_lines(-1);
    assert_eq!(b.full_text(), "a\r\nc\r\nb");
    b.move_lines(-1);
    assert_eq!(b.full_text(), "c\r\na\r\nb");

    let mut b = Buffer::new(None, "a\r\nb\r\n");
    b.select_all();
    b.indent_selection();
    assert_eq!(b.full_text(), "    a\r\n    b\r\n");
    b.dedent_selection();
    assert_eq!(b.full_text(), "a\r\nb\r\n");
}

#[test]
fn paste_does_not_reformat_non_json_braces() {
    // Text that merely starts with '{' but isn't valid JSON (unquoted key,
    // trailing semicolon — a Rust/JS block) must be left completely alone.
    let mut b = Buffer::new(None, "");
    b.insert_paste("{ let x = 1; }");
    assert_eq!(b.full_text(), "{ let x = 1; }");
}

#[test]
fn paste_does_not_reformat_bare_json_scalars() {
    // A bare word that happens to parse as a JSON scalar (not an object/
    // array) is left verbatim — pretty-printing a lone `true` would be a
    // silent no-op anyway, but this confirms the '{'/'[' gate skips it.
    let mut b = Buffer::new(None, "");
    b.insert_paste("null");
    assert_eq!(b.full_text(), "null");
}

#[test]
fn selection_delete() {
    let mut b = Buffer::new(None, "hello world");
    b.move_right(false);
    b.move_right(true);
    b.move_right(true);
    assert_eq!(b.selected_text().as_deref(), Some("el"));
    b.backspace();
    assert_eq!(b.full_text(), "hlo world");
}
