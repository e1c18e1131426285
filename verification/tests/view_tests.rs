use coder::files::{file_row_pieces, files_click, FileHit, FilesClick, RowShape};
use coder::mouse::scrollbar_jump_rows;
use coder::panel::Focus;
use coder::status::{
    gutter_glyph, removed_line_label, removed_row_glyph, GutterMark, focus_name, leader_segment, line_number_label, number_width, status_fit, status_right, CursorStatus,
};
use coder::ui::{cursor_screen_pos, notice_top_pad, Rect, Viewport};

#[test]
fn line_numbers_are_right_aligned() {
    assert_eq!(line_number_label(7, 3), "  7 ");
    assert_eq!(line_number_label(1234, 2), "1234 ");
    assert_eq!(line_number_label(0, 0), "0 ");
    assert_eq!(number_width(5, true), 3);
    assert_eq!(number_width(5, false), 4);
    assert_eq!(number_width(1, true), 0);
}

#[test]
fn status_bar_right_block() {
    let s = CursorStatus { line: 4, col: 0, dirty: true, selected: Some(12) };
    assert_eq!(status_right(Some(s), Focus::Editor), "Ln 5, Col 1  ● Selected: 12  EDITOR ");
    let clean = CursorStatus { line: 0, col: 9, dirty: false, selected: None };
    assert_eq!(status_right(Some(clean), Focus::Find), "Ln 1, Col 10  FIND ");
    assert_eq!(status_right(None, Focus::Terminal), "TERMINAL ");
    assert_eq!(focus_name(Focus::SearchInput), "SEARCH");
    assert_eq!(focus_name(Focus::GitCommit), "COMMIT");
    assert_eq!(focus_name(Focus::Sidebar), "SIDEBAR");
}

#[test]
fn leader_badge_names_its_chord() {
    assert_eq!(leader_segment(true, "Ctrl+K"), " LEADER ON · Ctrl+K → next key ");
    assert_eq!(leader_segment(false, "Ctrl+K"), "");
}

#[test]
fn status_bar_left_block_yields_to_the_right() {
    assert_eq!(status_fit(20, "hello world", 12), ("hello wo".to_string(), 0));
    assert_eq!(status_fit(30, "abc", 10), ("abc".to_string(), 17));
    assert_eq!(status_fit(5, "abc", 10), (String::new(), 0));
}

#[test]
fn viewport_maps_lines_and_columns() {
    let area = Rect { x: 10, y: 2, width: 30, height: 4 };
    let rows = vec![Some(3), None, Some(4), Some(5), Some(6)];
    let vp = Viewport::new(area, 5, 2, &rows);
    assert_eq!(vp.visible_lines(), Some((3, 5)));
    assert_eq!(vp.row_y(3), Some(2));
    assert_eq!(vp.row_y(4), Some(4));
    assert_eq!(vp.row_y(5), Some(5));
    assert_eq!(vp.row_y(6), None);
    assert_eq!(vp.row_y(2), None);
    assert_eq!(vp.col_x(2), Some(15));
    assert_eq!(vp.col_x(1), None);
    assert_eq!(vp.col_x(26), Some(39));
    assert_eq!(vp.col_x(27), None);
    assert_eq!(vp.paint_span(0, 100), (2, 27));
    assert_eq!(vp.paint_span(5, 9), (5, 9));
    assert_eq!(cursor_screen_pos(&vp, 4, 3), Some((16, 4)));
    assert_eq!(cursor_screen_pos(&vp, 6, 3), None);
    assert_eq!(cursor_screen_pos(&vp, 4, 0), None);
    let empty = Viewport::new(area, 5, 0, &vec![None, None]);
    assert_eq!(empty.visible_lines(), None);
    assert_eq!(empty.row_y(0), None);
}

#[test]
fn diff_scrollbar_jump_snaps_to_a_real_line() {
    let bar = Rect { x: 99, y: 1, width: 1, height: 4 };
    let rows = vec![Some(0), None, None, Some(1), Some(2), None, Some(3), Some(4)];
    assert_eq!(scrollbar_jump_rows(1, bar, &rows), Some(0));
    assert_eq!(scrollbar_jump_rows(3, bar, &rows), Some(1));
    assert_eq!(scrollbar_jump_rows(4, bar, &rows), Some(2));
    let short = Rect { height: 1, ..bar };
    let tail = vec![Some(0), None, None];
    assert_eq!(scrollbar_jump_rows(1, short, &tail), Some(0));
    assert_eq!(scrollbar_jump_rows(3, short, &tail), None);
    assert_eq!(scrollbar_jump_rows(3, Rect { height: 0, ..bar }, &rows), None);
}

#[test]
fn files_panel_click_actions() {
    let rows = vec![RowShape { is_dir: true, depth: 0 }, RowShape { is_dir: false, depth: 1 }];
    assert_eq!(files_click(Some(FileHit::NewFileRoot), Some(FileHit::Row(0)), &rows), FilesClick::RootEntry { folder: false });
    assert_eq!(files_click(Some(FileHit::NewFolderRoot), None, &rows), FilesClick::RootEntry { folder: true });
    assert_eq!(files_click(None, Some(FileHit::Row(0)), &rows), FilesClick::Toggle(0));
    assert_eq!(files_click(None, Some(FileHit::Row(1)), &rows), FilesClick::Preview(1));
    assert_eq!(files_click(None, Some(FileHit::NewFolder(0)), &rows), FilesClick::DirEntry { row: 0, folder: true });
    assert_eq!(files_click(None, Some(FileHit::NewFile(0)), &rows), FilesClick::DirEntry { row: 0, folder: false });
    assert_eq!(files_click(None, None, &rows), FilesClick::Ignore);
}

#[test]
fn notice_is_centered_vertically() {
    let long = "x".repeat(45);
    let text = format!("abc\n{long}");
    assert_eq!(notice_top_pad(24, 10, &text), Some(3));
    assert_eq!(notice_top_pad(100, 9, ""), Some(4));
    assert_eq!(notice_top_pad(100, 1, "x"), Some(0));
    assert_eq!(notice_top_pad(3, 10, "x"), None);
    assert_eq!(notice_top_pad(40, 0, "x"), None);
    assert_eq!(notice_top_pad(4, 10, "abcd"), Some(3));
}

#[test]
fn file_tree_rows_are_laid_out() {
    assert_eq!(file_row_pieces("main.rs", 1, false, false, true, 30), vec!["  ", "  ", "main.rs"]);
    assert_eq!(file_row_pieces("src", 0, true, true, true, 14), vec!["", "▾ ", "src    ", "+", "  ", "+", " "]);
    let icon = coder::icons::file("assets", true, false);
    assert_eq!(
        file_row_pieces("assets", 0, true, false, false, 12),
        vec!["", "▸ ", icon, " ", "as…", "\u{ea7f}", "  ", "\u{ea80}", " "]
    );
    assert_eq!(file_row_pieces("src", 2, true, false, true, 8), vec!["    ", "▸ ", "src"]);
}

#[test]
fn gutter_cells() {
    assert_eq!(removed_line_label(3), "  - ");
    assert_eq!(removed_line_label(0), "- ");
    assert_eq!(gutter_glyph(Some(GutterMark::Added), false), "▍");
    assert_eq!(gutter_glyph(Some(GutterMark::Added), true), "|");
    assert_eq!(gutter_glyph(Some(GutterMark::Deleted), false), "▁");
    assert_eq!(gutter_glyph(Some(GutterMark::Deleted), true), "_");
    assert_eq!(gutter_glyph(None, true), " ");
    assert_eq!(removed_row_glyph(true), "-");
    assert_eq!(removed_row_glyph(false), "▁");
}
