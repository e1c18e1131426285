use coder::files::{
    dir_buttons_fit, file_hit, file_row_at, files_header_hit, fit_name, row_prefix_width, action_icons, FileHit,
    RowShape,
};
use coder::panel::LayoutState;
use coder::ui::{
    clip_line, compute_areas, deleted_visible, display_char, gutter_width, hscrollbar_cells, horizontal_content_len,
    horizontal_scroll_metrics, needs_hscrollbar, rect_contains, scrollbar_symbols, toast_rect, Rect, PLACEHOLDER,
};

#[test]
fn ascii_scrollbar_has_distinct_non_hash_track_and_thumb() {
    assert_eq!(scrollbar_symbols(true), ("-", "="));
}

#[test]
fn unicode_scrollbar_keeps_existing_symbols() {
    assert_eq!(scrollbar_symbols(false), ("─", "▬"));
}

#[test]
fn control_and_bidi_chars_render_as_one_visible_cell() {
    assert_eq!(display_char('\t'), ' ');
    assert_eq!(display_char('\u{1b}'), PLACEHOLDER); // ESC
    assert_eq!(display_char('\u{7f}'), PLACEHOLDER); // DEL
    assert_eq!(display_char('\u{202E}'), PLACEHOLDER); // RLO
    assert_eq!(display_char('\u{2066}'), PLACEHOLDER); // LRI
    assert_eq!(display_char('a'), 'a');
    assert_eq!(display_char('é'), 'é');
}

#[test]
fn gutter_width_counts_digits() {
    assert_eq!(gutter_width(1, false), 4);
    assert_eq!(gutter_width(99, false), 4);
    assert_eq!(gutter_width(100, false), 5);
    assert_eq!(gutter_width(12345, true), 8);
    assert_eq!(gutter_width(usize::MAX, true), 23);
}

#[test]
fn hscrollbar_needed_only_when_content_overflows() {
    // 80 wide, gutter 4, scrollbar 1 -> 75 text columns.
    assert!(!needs_hscrollbar(75, 80, 4));
    assert!(needs_hscrollbar(76, 80, 4));
    // No room for the vertical scrollbar: all but the gutter is text.
    assert!(!needs_hscrollbar(1, 5, 4));
    assert!(needs_hscrollbar(2, 5, 4));
}

#[test]
fn content_len_takes_the_widest_line() {
    assert_eq!(horizontal_content_len(10, &vec![]), 10);
    assert_eq!(horizontal_content_len(3, &vec!["héllo".to_string(), "ab".to_string()]), 5);
}

#[test]
fn scroll_metrics_exact_values() {
    let m = horizontal_scroll_metrics(200, 50, 75, 50);
    assert_eq!((m.thumb_start, m.thumb_len, m.max_offset), (19, 12, 150));
    // Content fits: full-track thumb.
    let m = horizontal_scroll_metrics(40, 50, 0, 50);
    assert_eq!((m.thumb_start, m.thumb_len, m.max_offset), (0, 50, 0));
    // Minimum thumb width.
    let m = horizontal_scroll_metrics(10_000, 20, 9_980, 20);
    assert_eq!((m.thumb_start, m.thumb_len, m.max_offset), (15, 5, 9_980));
    // Empty track.
    let m = horizontal_scroll_metrics(100, 10, 5, 0);
    assert_eq!((m.thumb_start, m.thumb_len, m.max_offset), (0, 0, 0));
    // Huge values saturate rather than overflow, and the thumb stays in the track.
    let m = horizontal_scroll_metrics(usize::MAX, usize::MAX - 1, usize::MAX, 30);
    assert!(m.thumb_start + m.thumb_len <= 30);
}

#[test]
fn hscrollbar_cells_mark_the_thumb() {
    let cells = hscrollbar_cells(20, 10, 10);
    assert_eq!(cells.len(), 10);
    assert_eq!(cells.iter().filter(|c| **c).count(), 5);
    assert!(cells[5] && !cells[4]);
}

#[test]
fn clip_line_plain_and_highlighted() {
    // Plain text window.
    let spans = clip_line(&Vec::<(u8, String)>::new(), "hello\tworld", 7u8, 3, 5);
    assert_eq!(spans, vec![(7u8, "lo wo".to_string())]);
    // Scrolled past the end: nothing.
    let spans = clip_line(&Vec::<(u8, String)>::new(), "ab", 7u8, 5, 5);
    assert!(spans.is_empty());
    // Highlighted pieces keep their colors and stop once the window is full.
    let pieces = vec![(1u8, "fn ".to_string()), (2u8, "main".to_string()), (3u8, "()".to_string())];
    let spans = clip_line(&pieces, "", 0u8, 2, 4);
    assert_eq!(spans, vec![(1u8, " ".to_string()), (2u8, "mai".to_string())]);
    // Zero width shows nothing.
    assert!(clip_line(&pieces, "", 0u8, 0, 0).is_empty());
}

#[test]
fn deleted_rows_drop_their_line_break() {
    assert_eq!(deleted_visible("abc\r\n", 1, 10), "bc");
    assert_eq!(deleted_visible("a\u{1b}b\n", 0, 2), "a\u{FFFD}");
}

#[test]
fn rects_contain_their_cells() {
    let r = Rect { x: 2, y: 3, width: 4, height: 2 };
    assert!(rect_contains(r, 2, 3));
    assert!(rect_contains(r, 5, 4));
    assert!(!rect_contains(r, 6, 4));
    assert!(!rect_contains(r, 5, 5));
}

#[test]
fn compute_areas_lays_out_the_window() {
    let layout = LayoutState::default();
    let area = Rect { x: 0, y: 0, width: 100, height: 40 };
    let a = compute_areas(&layout, area, 120, false, 50, 1);
    assert_eq!(a.statusbar, Rect { x: 0, y: 39, width: 100, height: 1 });
    assert_eq!(a.activity, Rect { x: 0, y: 0, width: 4, height: 39 });
    assert_eq!(a.sidebar, Rect { x: 4, y: 0, width: 30, height: 39 });
    assert_eq!(a.sidebar_border_x, 34);
    assert_eq!(a.tabs, Rect { x: 34, y: 0, width: 66, height: 1 });
    assert_eq!(a.gutter_w, 5);
    assert_eq!(a.scrollbar, Rect { x: 99, y: 1, width: 1, height: 38 });
    assert_eq!(a.editor, Rect { x: 34, y: 1, width: 65, height: 38 });
    assert_eq!(a.editor_text_x, 39);
    assert_eq!(a.scrollbar_x_track.height, 0);
    assert_eq!(a.terminal.height, 0);

    // Wide content adds the horizontal scrollbar row; an open terminal takes
    // its height from the layout.
    let layout = LayoutState { terminal_open: true, ..LayoutState::default() };
    let a = compute_areas(&layout, area, 9, true, 500, 1);
    assert_eq!(a.terminal, Rect { x: 34, y: 27, width: 66, height: 12 });
    assert_eq!(a.terminal_border_y, 27);
    assert_eq!(a.scrollbar_x_track, Rect { x: 39, y: 26, width: 60, height: 1 });
}

#[test]
fn toast_floats_above_the_bottom_and_avoids_a_row() {
    let area = Rect { x: 0, y: 0, width: 80, height: 24 };
    assert_eq!(toast_rect(area, 6, None), Some(Rect { x: 35, y: 20, width: 10, height: 3 }));
    assert_eq!(toast_rect(area, 6, Some(21)), Some(Rect { x: 35, y: 17, width: 10, height: 3 }));
    assert_eq!(toast_rect(Rect { x: 0, y: 0, width: 80, height: 4 }, 6, None), None);
    // A long message is clamped to the screen.
    assert_eq!(toast_rect(area, 500, None).unwrap().width, 78);
}

#[test]
fn files_panel_geometry() {
    assert_eq!(row_prefix_width(true), 2);
    assert_eq!(row_prefix_width(false), 4);
    assert!(dir_buttons_fit(10, 0, false));
    assert!(!dir_buttons_fit(9, 0, false));
    assert!(!dir_buttons_fit(12, 2, false));
    assert!(dir_buttons_fit(12, 2, true));
    assert_eq!(action_icons(true), ("+", "+"));
    assert_eq!(fit_name("src", 10), "src");
    assert_eq!(fit_name("verylongname", 5), "very…");
    assert_eq!(fit_name("abc", 1), "…");
}

#[test]
fn files_hit_testing() {
    let header = Rect { x: 0, y: 1, width: 20, height: 1 };
    assert_eq!(files_header_hit(header, 18, 1), Some(FileHit::NewFolderRoot));
    assert_eq!(files_header_hit(header, 15, 1), Some(FileHit::NewFileRoot));
    assert_eq!(files_header_hit(header, 16, 1), None);
    assert_eq!(files_header_hit(header, 15, 2), None);

    let body = Rect { x: 0, y: 2, width: 20, height: 5 };
    let rows = vec![RowShape { is_dir: true, depth: 0 }, RowShape { is_dir: false, depth: 1 }];
    assert_eq!(file_row_at(body, 0, 2, 3), Some(1));
    assert_eq!(file_row_at(body, 0, 2, 4), None);
    assert_eq!(file_row_at(body, 0, 2, 1), None);
    assert_eq!(file_hit(body, 0, &rows, false, 15, 2), Some(FileHit::NewFile(0)));
    assert_eq!(file_hit(body, 0, &rows, false, 18, 2), Some(FileHit::NewFolder(0)));
    assert_eq!(file_hit(body, 0, &rows, false, 16, 2), Some(FileHit::Row(0)));
    assert_eq!(file_hit(body, 0, &rows, false, 15, 3), Some(FileHit::Row(1)));
}
