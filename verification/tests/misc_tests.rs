use coder::icons::{self, kind, FileIconKind};
use coder::mouse::{
    click_region, editor_click_cell, hscrollbar_jump, press_target, scrollbar_jump, sidebar_drag_width,
    terminal_cell, terminal_drag_height, terminal_scroll_offset, wheel_region, wheel_scroll, ClickRegion, Press,
    WheelRegion,
};
use coder::panel::{panel_icon, LayoutState, Panel};
use coder::paste::{accept_json_paste, is_json_candidate, pretty_print_json, reindent_paste, strip_json_whitespace};
use coder::ui::{compute_areas, Rect};

#[test]
fn file_icon_kinds() {
    assert_eq!(kind("main.rs"), FileIconKind::Code);
    assert_eq!(kind("README.MD"), FileIconKind::Markdown);
    assert_eq!(kind("Dockerfile"), FileIconKind::Docker);
    assert_eq!(kind("docker-compose.YML"), FileIconKind::Docker);
    assert_eq!(kind("dockerfile"), FileIconKind::Generic);
    assert_eq!(kind("archive.tar.gz"), FileIconKind::Archive);
    assert_eq!(kind("photo.JPEG"), FileIconKind::Media);
    assert_eq!(kind("notes.txt"), FileIconKind::Text);
    assert_eq!(kind("paper.pdf"), FileIconKind::Pdf);
    assert_eq!(kind("Makefile"), FileIconKind::Generic);
    assert_eq!(icons::file("src", true, true), "\u{eaf7}");
    assert_eq!(icons::file("src", true, false), "\u{ea83}");
    assert_eq!(icons::file("lib.rs", false, false), "\u{eae9}");
    assert_eq!(icons::file("x.unknown", false, false), "\u{ea7b}");
}

#[test]
fn panel_glyphs() {
    assert_eq!(Panel::Files.title(), "EXPLORER");
    assert_eq!(panel_icon(true, Panel::Search), "🔍");
    assert_eq!(panel_icon(false, Panel::Settings), "\u{f013}");
    let l = LayoutState::default();
    assert_eq!((l.sidebar_width, l.terminal_height, l.sidebar_open, l.terminal_open), (30, 12, true, false));
}

#[test]
fn strip_json_whitespace_keeps_strings() {
    assert_eq!(strip_json_whitespace("{ \"a b\" : [1, 2] }"), "{\"a b\":[1,2]}");
    assert_eq!(strip_json_whitespace("\"x\\\" y\" z"), "\"x\\\" y\"z");
}

#[test]
fn reindent_paste_aligns_continuation_lines() {
    assert_eq!(reindent_paste("foo();\n        bar();\n        baz();", "    "), "foo();\n    bar();\n    baz();");
    assert_eq!(reindent_paste("a\n\n    b", "  "), "a\n\n  b");
    assert_eq!(reindent_paste("x\n\t\ty\n\tz", ""), "x\n\ty\nz");
    assert_eq!(reindent_paste("single", "    "), "single");
}

#[test]
fn pretty_print_json_only_for_blobs() {
    assert!(pretty_print_json("{\"a\":1}").is_none());
    assert!(pretty_print_json("null").is_none());
    let blob = r#"{"a":"0123456789012345678901234567890123456789","b":"0123456789"}"#;
    assert_eq!(
        pretty_print_json(blob).as_deref(),
        Some("{\n  \"a\": \"0123456789012345678901234567890123456789\",\n  \"b\": \"0123456789\"\n}")
    );
}

fn areas() -> coder::ui::Areas {
    let layout = LayoutState { terminal_open: true, ..LayoutState::default() };
    compute_areas(&layout, Rect { x: 0, y: 0, width: 100, height: 40 }, 9, false, 500, 1)
}

#[test]
fn mouse_press_and_click_routing() {
    let a = areas();
    assert_eq!(press_target(&a, a.sidebar_border_x, 5, false, false), Press::SidebarBorder);
    assert_eq!(press_target(&a, 50, a.terminal_border_y, false, false), Press::TerminalBorder);
    assert_eq!(press_target(&a, 50, 5, true, false), Press::Find);
    assert_eq!(press_target(&a, a.scrollbar.x, a.scrollbar.y, false, false), Press::Scrollbar);
    assert_eq!(press_target(&a, 50, a.scrollbar_x_track.y, false, false), Press::ScrollbarX);
    let tx = a.terminal.x + a.terminal.width - 1;
    assert_eq!(press_target(&a, tx, a.terminal.y + 2, false, true), Press::TerminalScrollbar);
    assert_eq!(press_target(&a, tx, a.terminal.y + 2, false, false), Press::Click);
    assert_eq!(click_region(&a, 1, 1), ClickRegion::Activity);
    assert_eq!(click_region(&a, 10, 5), ClickRegion::Sidebar);
    assert_eq!(click_region(&a, 50, 0), ClickRegion::Tabs);
    assert_eq!(click_region(&a, 50, 30), ClickRegion::Terminal);
    assert_eq!(click_region(&a, 50, 5), ClickRegion::Editor);
    assert_eq!(click_region(&a, 50, 39), ClickRegion::Nothing);
    assert_eq!(wheel_region(&a, 50, a.scrollbar_x_track.y), WheelRegion::ScrollbarX);
    assert_eq!(wheel_region(&a, 50, 5), WheelRegion::Editor);
    assert_eq!(wheel_region(&a, 50, 30), WheelRegion::Terminal);
    assert_eq!(wheel_region(&a, 10, 5), WheelRegion::Sidebar);
}

#[test]
fn mouse_scroll_math() {
    assert_eq!(wheel_scroll(5, -3, 100), 2);
    assert_eq!(wheel_scroll(1, -3, 100), 0);
    assert_eq!(wheel_scroll(99, 3, 100), 100);
    let bar = Rect { x: 99, y: 1, width: 1, height: 20 };
    assert_eq!(scrollbar_jump(11, bar, 200), Some(90));
    assert_eq!(scrollbar_jump(1, bar, 200), Some(0));
    assert_eq!(scrollbar_jump(20, bar, 200), Some(180));
    assert_eq!(scrollbar_jump(5, Rect { height: 0, ..bar }, 200), None);
    let track = Rect { x: 10, y: 30, width: 50, height: 1 };
    assert_eq!(hscrollbar_jump(10, track, 200, 0), Some(0));
    assert_eq!(hscrollbar_jump(59, track, 200, 0), Some(150));
    assert_eq!(hscrollbar_jump(5, Rect { width: 0, ..track }, 200, 0), None);
    let term = Rect { x: 34, y: 27, width: 66, height: 12 };
    assert_eq!(terminal_cell(40, 30, term, 11, 65), (2, 6));
    assert_eq!(terminal_cell(0, 0, term, 11, 65), (0, 0));
    assert_eq!(terminal_cell(200, 200, term, 11, 65), (10, 64));
    assert_eq!(terminal_scroll_offset(28, term, 11, 100), Some(100));
    assert_eq!(terminal_scroll_offset(38, term, 11, 100), Some(0));
    assert_eq!(sidebar_drag_width(40, 120), Some(36));
    assert_eq!(sidebar_drag_width(12, 120), None);
    assert_eq!(sidebar_drag_width(200, 120), Some(60));
    assert_eq!(terminal_drag_height(30, 40), 9);
    assert_eq!(terminal_drag_height(39, 40), 2);
    let a = areas();
    assert_eq!(editor_click_cell(&a, a.editor_text_x + 3, 0, 10), (0, 13));
    assert_eq!(editor_click_cell(&a, 0, 200, 0), ((a.editor.height - 1) as usize, 0));
}

#[test]
fn json_paste_acceptance() {
    let text = "  {\"name\": \"coder\", \"tags\": [\"a b\", \"c\"], \"nested\": {\"x\": 1, \"y\": 2}, \"ok\": true}\n";
    let compact = "{\"name\":\"coder\",\"tags\":[\"a b\",\"c\"],\"nested\":{\"x\":1,\"y\":2},\"ok\":true}";
    assert!(is_json_candidate(text));
    assert!(accept_json_paste(text, true, Some(compact)));
    assert!(!accept_json_paste(text, false, Some(compact)));
    assert!(!accept_json_paste(text, true, None));
    let reordered = "{\"tags\":[\"a b\",\"c\"],\"name\":\"coder\",\"nested\":{\"x\":1,\"y\":2},\"ok\":true}";
    assert!(!accept_json_paste(text, true, Some(reordered)));
    assert!(!is_json_candidate("{\"a\": 1}"));
    assert!(!is_json_candidate("{\"a\": 1,\n \"b\": 2, \"cccccccccccccccccccccccccccccccccccccccccccccccccccccc\": 3}"));
    assert!(!accept_json_paste("{\"a\":1}", true, Some("{\"a\":1}")));
}

#[test]
fn reindent_keeps_the_first_line_and_the_line_count() {
    assert_eq!(reindent_paste("  let x = 1;", "        "), "  let x = 1;");
    let text = "if a {\n        b();\n\n            c();\n        }";
    let out = reindent_paste(text, "    ");
    assert_eq!(out, "if a {\n    b();\n\n        c();\n    }");
    assert_eq!(out.split('\n').count(), text.split('\n').count());
    assert!(out.starts_with("if a {"));
}
