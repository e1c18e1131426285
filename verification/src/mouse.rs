//! Mouse routing decisions: which region a press, click or wheel event lands
//! on, and the scroll positions and pane sizes that pointer moves produce. The
//! application applies them to its state.

use vstd::prelude::*;
use crate::ui::{self, Areas, Rect};

verus! {

/// Whether a press on cell (`x`, `y`) is a double click: `prev` is the press
/// before it (how many milliseconds ago, and its cell), and a double click
/// lands on the same cell less than 400 ms later.
pub fn is_double_click(prev: Option<(u128, u16, u16)>, x: u16, y: u16) -> (r: bool)
    ensures
        r == (prev matches Some((ms, px, py)) && px == x && py == y && ms < 400),
{
    match prev {
        Some((ms, px, py)) => px == x && py == y && ms < 400,
        None => false,
    }
}

/// Every region of `a` keeps its right and bottom edges on the screen.
pub open spec fn areas_ok(a: Areas) -> bool {
    &&& ui::rect_ok(a.activity)
    &&& ui::rect_ok(a.sidebar)
    &&& ui::rect_ok(a.tabs)
    &&& ui::rect_ok(a.editor)
    &&& ui::rect_ok(a.scrollbar)
    &&& ui::rect_ok(a.scrollbar_x_track)
    &&& ui::rect_ok(a.terminal)
    &&& ui::rect_ok(a.statusbar)
}

/// What a left-button press starts.
#[derive(Clone, Copy, Debug, PartialEq, Eq, Structural)]
pub enum Press {
    /// Dragging the sidebar/editor border.
    SidebarBorder,
    /// Dragging the terminal's top edge.
    TerminalBorder,
    /// A click on the floating find widget.
    Find,
    /// Dragging the editor's vertical scrollbar.
    Scrollbar,
    /// Dragging the editor's horizontal scrollbar.
    ScrollbarX,
    /// Dragging the terminal's scrollback scrollbar.
    TerminalScrollbar,
    /// An ordinary click (see `click_region`).
    Click,
}

/// Resize handles first, then the find widget (`on_find` when it is open and
/// was hit), the scrollbars, the terminal scrollbar (its rightmost inner
/// column, when a session runs), else an ordinary click.
pub open spec fn press_spec(a: Areas, x: u16, y: u16, on_find: bool, terminal_session: bool) -> Press {
    if a.sidebar_open && x == a.sidebar_border_x {
        Press::SidebarBorder
    } else if a.terminal_open && y == a.terminal_border_y && x >= a.tabs.x {
        Press::TerminalBorder
    } else if on_find {
        Press::Find
    } else if a.scrollbar.width > 0 && ui::contains_spec(a.scrollbar, x, y) {
        Press::Scrollbar
    } else if a.scrollbar_x_track.height > 0 && ui::contains_spec(a.scrollbar_x_track, x, y) {
        Press::ScrollbarX
    } else if a.terminal_open && terminal_session && ui::contains_spec(a.terminal, x, y) && y > a.terminal.y
        && x == a.terminal.x + a.terminal.width - 1 {
        Press::TerminalScrollbar
    } else {
        Press::Click
    }
}

/// Classifies a left-button press at `(x, y)`.
pub fn press_target(a: &Areas, x: u16, y: u16, on_find: bool, terminal_session: bool) -> (p: Press)
    requires
        areas_ok(*a),
    ensures
        p == press_spec(*a, x, y, on_find, terminal_session),
{
    if a.sidebar_open && x == a.sidebar_border_x {
        return Press::SidebarBorder;
    }
    if a.terminal_open && y == a.terminal_border_y && x >= a.tabs.x {
        return Press::TerminalBorder;
    }
    if on_find {
        return Press::Find;
    }
    if a.scrollbar.width > 0 && ui::rect_contains(a.scrollbar, x, y) {
        return Press::Scrollbar;
    }
    if a.scrollbar_x_track.height > 0 && ui::rect_contains(a.scrollbar_x_track, x, y) {
        return Press::ScrollbarX;
    }
    if a.terminal_open && terminal_session && ui::rect_contains(a.terminal, x, y) && y > a.terminal.y
        && x == a.terminal.x + a.terminal.width - 1 {
        return Press::TerminalScrollbar;
    }
    Press::Click
}

/// The region an ordinary click lands on.
#[derive(Clone, Copy, Debug, PartialEq, Eq, Structural)]
pub enum ClickRegion {
    Activity,
    Sidebar,
    Tabs,
    Terminal,
    Editor,
    Nothing,
}

pub open spec fn click_spec(a: Areas, x: u16, y: u16) -> ClickRegion {
    if ui::contains_spec(a.activity, x, y) {
        ClickRegion::Activity
    } else if a.sidebar_open && ui::contains_spec(a.sidebar, x, y) {
        ClickRegion::Sidebar
    } else if ui::contains_spec(a.tabs, x, y) {
        ClickRegion::Tabs
    } else if a.terminal_open && ui::contains_spec(a.terminal, x, y) {
        ClickRegion::Terminal
    } else if ui::contains_spec(a.editor, x, y) {
        ClickRegion::Editor
    } else {
        ClickRegion::Nothing
    }
}

/// Routes an ordinary click: activity bar, open sidebar, tab bar, open
/// terminal, editor — the first that contains the cell.
pub fn click_region(a: &Areas, x: u16, y: u16) -> (r: ClickRegion)
    requires
        areas_ok(*a),
    ensures
        r == click_spec(*a, x, y),
{
    if ui::rect_contains(a.activity, x, y) {
        ClickRegion::Activity
    } else if a.sidebar_open && ui::rect_contains(a.sidebar, x, y) {
        ClickRegion::Sidebar
    } else if ui::rect_contains(a.tabs, x, y) {
        ClickRegion::Tabs
    } else if a.terminal_open && ui::rect_contains(a.terminal, x, y) {
        ClickRegion::Terminal
    } else if ui::rect_contains(a.editor, x, y) {
        ClickRegion::Editor
    } else {
        ClickRegion::Nothing
    }
}

/// The region a wheel event scrolls.
#[derive(Clone, Copy, Debug, PartialEq, Eq, Structural)]
pub enum WheelRegion {
    /// The horizontal scrollbar: scrolls the editor sideways.
    ScrollbarX,
    /// The editor or its vertical scrollbar.
    Editor,
    Terminal,
    Sidebar,
    Nothing,
}

pub open spec fn wheel_spec(a: Areas, x: u16, y: u16) -> WheelRegion {
    if a.scrollbar_x_track.height > 0 && ui::contains_spec(a.scrollbar_x_track, x, y) {
        WheelRegion::ScrollbarX
    } else if ui::contains_spec(a.editor, x, y) || (a.scrollbar.width > 0 && ui::contains_spec(a.scrollbar, x, y)) {
        WheelRegion::Editor
    } else if a.terminal_open && ui::contains_spec(a.terminal, x, y) {
        WheelRegion::Terminal
    } else if a.sidebar_open && ui::contains_spec(a.sidebar, x, y) {
        WheelRegion::Sidebar
    } else {
        WheelRegion::Nothing
    }
}

/// Routes a wheel event at `(x, y)`.
pub fn wheel_region(a: &Areas, x: u16, y: u16) -> (r: WheelRegion)
    requires
        areas_ok(*a),
    ensures
        r == wheel_spec(*a, x, y),
{
    if a.scrollbar_x_track.height > 0 && ui::rect_contains(a.scrollbar_x_track, x, y) {
        return WheelRegion::ScrollbarX;
    }
    let over_scrollbar = a.scrollbar.width > 0 && ui::rect_contains(a.scrollbar, x, y);
    if ui::rect_contains(a.editor, x, y) || over_scrollbar {
        WheelRegion::Editor
    } else if a.terminal_open && ui::rect_contains(a.terminal, x, y) {
        WheelRegion::Terminal
    } else if a.sidebar_open && ui::rect_contains(a.sidebar, x, y) {
        WheelRegion::Sidebar
    } else {
        WheelRegion::Nothing
    }
}

/// `pos + delta`, clamped to `[0, max]`.
pub open spec fn clamp_scroll(pos: int, delta: int, max: int) -> int {
    let p = pos + delta;
    if p < 0 { 0 } else if p > max { max } else { p }
}

/// A scroll position moved by `delta` and clamped to `[0, max]`.
pub fn wheel_scroll(pos: usize, delta: isize, max: usize) -> (r: usize)
    requires
        pos <= isize::MAX,
        max <= isize::MAX,
        isize::MIN <= pos + delta <= isize::MAX,
    ensures
        r == clamp_scroll(pos as int, delta as int, max as int),
{
    let p = pos as isize + delta;
    if p < 0 {
        0
    } else if p > max as isize {
        max
    } else {
        p as usize
    }
}

/// How far one wheel notch moves the editor sideways: a third of the
/// horizontal viewport, at least one column.
pub open spec fn hwheel_step(viewport: usize) -> int {
    if viewport / 3 > 1 { (viewport / 3) as int } else { 1 }
}

/// The editor's horizontal scroll after a wheel notch (`delta` of -3 or 3) over
/// the horizontal scrollbar, for content `total` columns wide.
pub fn hwheel_scroll_x(scroll_x: usize, delta: isize, total: usize, viewport: usize) -> (r: usize)
    requires
        -3 <= delta <= 3,
        scroll_x <= isize::MAX,
        total <= isize::MAX,
        scroll_x + viewport + 3 <= isize::MAX,
    ensures
        r == clamp_scroll(
            scroll_x as int,
            delta * hwheel_step(viewport),
            if total > viewport { total - viewport } else { 0 },
        ),
{
    let max = total.saturating_sub(viewport);
    let step = if viewport / 3 > 1 { viewport / 3 } else { 1 };
    assert(-3 * step <= delta * step <= 3 * step) by (nonlinear_arith)
        requires
            -3 <= delta <= 3,
            step >= 1,
    ;
    assert(3 * step <= viewport + 3);
    wheel_scroll(scroll_x, delta * (step as isize), max)
}

/// The top line that centers a click on row `row` of a vertical scrollbar
/// `h` rows tall over `n` lines, kept within `[0, n - h]`.
pub open spec fn scrollbar_top(row: int, h: int, n: int) -> int {
    let target = row * n / h;
    let max = if n > h { n - h } else { 0 };
    let t = if target > h / 2 { target - h / 2 } else { 0 };
    if t < max { t } else { max }
}

/// Where a click (or drag) at screen row `y` on the vertical scrollbar `bar`
/// scrolls a buffer of `line_count` lines: `None` for a bar without height.
pub fn scrollbar_jump(y: u16, bar: Rect, line_count: usize) -> (r: Option<usize>)
    requires
        (if y >= bar.y { y - bar.y } else { 0 }) * (if line_count > 1 { line_count as int } else { 1 })
            <= usize::MAX,
    ensures
        match r {
            None => bar.height == 0,
            Some(top) => bar.height > 0 && top == scrollbar_top(
                if y >= bar.y { y - bar.y } else { 0 },
                bar.height as int,
                if line_count > 1 { line_count as int } else { 1 },
            ),
        },
{
    let h = bar.height as usize;
    if h == 0 {
        return None;
    }
    let row = y.saturating_sub(bar.y) as usize;
    let n = if line_count > 1 { line_count } else { 1 };
    let target = row * n / h;
    let max = n.saturating_sub(h);
    let t = target.saturating_sub(h / 2);
    Some(if t < max { t } else { max })
}

/// The horizontal scroll that centers the thumb on a click at column `col` of
/// the track: scaled by the content's overflow over the thumb's travel.
pub open spec fn hscrollbar_x(col: int, m: ui::HorizontalScrollMetrics, track_len: int) -> int {
    let travel = if track_len > m.thumb_len { track_len - m.thumb_len } else { 0 };
    let from = if col > m.thumb_len / 2 { col - m.thumb_len / 2 } else { 0 };
    let scaled = if travel == 0 { 0 } else { ui::sat_mul(from as usize, m.max_offset) / travel };
    if scaled < m.max_offset { scaled } else { m.max_offset as int }
}

/// Where a click (or drag) at screen column `x` on the horizontal scrollbar
/// `track` scrolls the editor, for content `total` columns wide currently
/// scrolled to `scroll_x`: `None` for a track without width.
pub fn hscrollbar_jump(x: u16, track: Rect, total: usize, scroll_x: usize) -> (r: Option<usize>)
    ensures
        match r {
            None => track.width == 0,
            Some(sx) => track.width > 0 && sx == hscrollbar_x(
                if x >= track.x { x - track.x } else { 0 },
                ui::scroll_metrics_spec(total, track.width as usize, scroll_x, track.width as usize),
                track.width as int,
            ),
        },
{
    let track_len = track.width as usize;
    if track_len == 0 {
        return None;
    }
    let m = ui::horizontal_scroll_metrics(total, track_len, scroll_x, track_len);
    let travel = track_len.saturating_sub(m.thumb_len);
    let col = x.saturating_sub(track.x) as usize;
    let from = col.saturating_sub(m.thumb_len / 2);
    let scaled = if travel == 0 { 0 } else { ui::saturating_mul(from, m.max_offset) / travel };
    Some(if scaled < m.max_offset { scaled } else { m.max_offset })
}

/// The visible-grid cell `(row, col)` of the terminal under `(x, y)`, clamped
/// to a grid of `rows` x `cols`; the terminal has a one-row top border.
pub open spec fn terminal_cell_spec(x: u16, y: u16, term: Rect, rows: u16, cols: u16) -> (int, int) {
    let top = term.y + 1;
    let r = if y >= top { y - top } else { 0 };
    let c = if x >= term.x { x - term.x } else { 0 };
    let rmax = if rows >= 1 { rows - 1 } else { 0 };
    let cmax = if cols >= 1 { cols - 1 } else { 0 };
    (if r < rmax { r } else { rmax }, if c < cmax { c } else { cmax })
}

/// Maps a screen `(x, y)` to a clamped visible-grid `(row, col)` inside the
/// terminal area `term`, whose grid is `rows` x `cols`.
pub fn terminal_cell(x: u16, y: u16, term: Rect, rows: u16, cols: u16) -> (r: (u16, u16))
    requires
        term.y < u16::MAX,
    ensures
        (r.0 as int, r.1 as int) == terminal_cell_spec(x, y, term, rows, cols),
{
    let row = y.saturating_sub(term.y + 1);
    let rmax = rows.saturating_sub(1);
    let col = x.saturating_sub(term.x);
    let cmax = cols.saturating_sub(1);
    (if row < rmax { row } else { rmax }, if col < cmax { col } else { cmax })
}

/// The scrollback offset (history rows below the viewport top) that a click at
/// screen row `y` of the terminal scrollbar selects: the clicked track row maps
/// proportionally into the history of `scrollback` rows above a `rows`-row
/// screen. `None` for a terminal without inner height.
pub open spec fn terminal_offset_spec(y: u16, term: Rect, rows: u16, scrollback: usize) -> Option<int> {
    let h = if term.height >= 1 { term.height - 1 } else { 0 };
    if h == 0 {
        None
    } else {
        let top = term.y + 1;
        let track_row = if y >= top { y - top } else { 0 };
        let total = scrollback + rows;
        let above = track_row * total / h;
        let above = if above < scrollback { above } else { scrollback as int };
        Some(scrollback - above)
    }
}

pub fn terminal_scroll_offset(y: u16, term: Rect, rows: u16, scrollback: usize) -> (r: Option<usize>)
    requires
        term.y < u16::MAX,
        scrollback + u16::MAX <= usize::MAX,
        (scrollback + u16::MAX) * u16::MAX <= usize::MAX,
    ensures
        match r {
            None => terminal_offset_spec(y, term, rows, scrollback) is None,
            Some(o) => terminal_offset_spec(y, term, rows, scrollback) == Some(o as int),
        },
{
    let h = term.height.saturating_sub(1) as usize;
    if h == 0 {
        return None;
    }
    let total = scrollback + rows as usize;
    let track_row = y.saturating_sub(term.y + 1) as usize;
    assert(track_row * total <= (scrollback + u16::MAX) * u16::MAX) by (nonlinear_arith)
        requires
            track_row <= u16::MAX,
            total <= scrollback + u16::MAX,
    ;
    let above = track_row * total / h;
    let above = if above < scrollback { above } else { scrollback };
    Some(scrollback - above)
}

/// The editor cell a click or drag at `(x, y)` points at: the screen row within
/// the editor (clamped to it, so a drag past the edge keeps selecting) and the
/// text column, counting from `scroll_x`.
pub open spec fn editor_cell_spec(a: Areas, x: u16, y: u16, scroll_x: usize) -> (int, int) {
    let bottom = a.editor.y + (if a.editor.height >= 1 { a.editor.height - 1 } else { 0 });
    let ey = if y < a.editor.y { a.editor.y as int } else if y > bottom { bottom } else { y as int };
    (ey - a.editor.y, scroll_x + (if x >= a.editor_text_x { x - a.editor_text_x } else { 0 }))
}

pub fn editor_click_cell(a: &Areas, x: u16, y: u16, scroll_x: usize) -> (r: (usize, usize))
    requires
        ui::rect_ok(a.editor),
        scroll_x + u16::MAX <= usize::MAX,
    ensures
        (r.0 as int, r.1 as int) == editor_cell_spec(*a, x, y, scroll_x),
{
    let bottom = a.editor.y + a.editor.height.saturating_sub(1);
    let ey = if y < a.editor.y { a.editor.y } else if y > bottom { bottom } else { y };
    let col = scroll_x + x.saturating_sub(a.editor_text_x) as usize;
    ((ey - a.editor.y) as usize, col)
}

/// The sidebar width a drag of its border to column `x` sets, on a screen
/// `term_width` wide: at least 10 columns past the activity bar and at most
/// half the screen; `None` (no change) left of that minimum.
pub open spec fn sidebar_drag_spec(x: u16, term_width: u16) -> Option<int> {
    if x > ui::ACTIVITY_WIDTH + 10 {
        let w = x - ui::ACTIVITY_WIDTH;
        let w = if w < 10 { 10 } else { w };
        Some(if w < term_width / 2 { w } else { (term_width / 2) as int })
    } else {
        None
    }
}

pub fn sidebar_drag_width(x: u16, term_width: u16) -> (r: Option<u16>)
    ensures
        match r {
            None => sidebar_drag_spec(x, term_width) is None,
            Some(w) => sidebar_drag_spec(x, term_width) == Some(w as int),
        },
{
    let min_x = ui::ACTIVITY_WIDTH + 10;
    let w = x.saturating_sub(ui::ACTIVITY_WIDTH);
    let new_w = if w < 10 { 10 } else { w };
    if x > min_x {
        Some(if new_w < term_width / 2 { new_w } else { term_width / 2 })
    } else {
        None
    }
}

/// The terminal height a drag of its top edge to row `y` sets, on a screen
/// `term_height` tall (the bottom row being the status bar): at least 2 rows,
/// at most the screen less 4.
pub open spec fn terminal_drag_spec(y: u16, term_height: u16) -> int {
    let bottom = if term_height >= 1 { term_height - 1 } else { 0 };
    let h = if bottom >= y { bottom - y } else { 0 };
    let h = if h < 2 { 2 } else { h };
    let cap = if term_height >= 4 { term_height - 4 } else { 0 };
    if h < cap { h } else { cap }
}

pub fn terminal_drag_height(y: u16, term_height: u16) -> (r: u16)
    ensures
        r == terminal_drag_spec(y, term_height),
{
    let bottom = term_height.saturating_sub(1);
    let h = bottom.saturating_sub(y);
    let new_h = if h < 2 { 2 } else { h };
    let cap = term_height.saturating_sub(4);
    if new_h < cap { new_h } else { cap }
}


/// The first buffer line shown at or after display row `i`.
pub open spec fn real_from(rows: Seq<Option<usize>>, i: int) -> Option<usize>
    decreases rows.len() - i,
{
    if i < 0 || i >= rows.len() {
        None
    } else if rows[i] is Some {
        rows[i]
    } else {
        real_from(rows, i + 1)
    }
}

/// The scroll position a click at screen row `y` on the vertical scrollbar
/// `bar` gives a diff tab showing the display rows `rows` (removed lines woven
/// in as `None`): the track maps over display rows, centered as in
/// `scrollbar_top`, then snaps to the first buffer line at or after that row.
/// `None` (no change) for a bar without height or when no buffer line follows.
pub open spec fn diff_jump_spec(y: u16, bar: Rect, rows: Seq<Option<usize>>) -> Option<usize> {
    let h = bar.height as int;
    if h == 0 {
        None
    } else {
        let row = if y >= bar.y { y - bar.y } else { 0 };
        let n = if rows.len() > 1 { rows.len() as int } else { 1 };
        let target = scrollbar_top(row, h, n);
        let last = if rows.len() >= 1 { rows.len() - 1 } else { 0 };
        real_from(rows, if target < last { target } else { last as int })
    }
}

pub fn scrollbar_jump_rows(y: u16, bar: Rect, rows: &Vec<Option<usize>>) -> (r: Option<usize>)
    requires
        (if y >= bar.y { y - bar.y } else { 0 }) * (if rows@.len() > 1 { rows@.len() as int } else { 1 })
            <= usize::MAX,
    ensures
        r == diff_jump_spec(y, bar, rows@),
{
    let h = bar.height as usize;
    if h == 0 {
        return None;
    }
    let row = y.saturating_sub(bar.y) as usize;
    let n = if rows.len() > 1 { rows.len() } else { 1 };
    let t = row * n / h;
    let max = n.saturating_sub(h);
    let t = t.saturating_sub(h / 2);
    let target = if t < max { t } else { max };
    let last = rows.len().saturating_sub(1);
    assert(target == scrollbar_top(row as int, h as int, n as int));
    let mut i = if target < last { target } else { last };
    assert(i == (if target < last { target as int } else { last as int }));
    assert(diff_jump_spec(y, bar, rows@) == real_from(rows@, i as int));
    while i < rows.len()
        invariant
            i <= rows@.len(),
            real_from(rows@, i as int) == diff_jump_spec(y, bar, rows@),
        decreases rows.len() - i,
    {
        if let Some(l) = rows[i] {
            assert(rows@[i as int] == Some(l));
            assert(real_from(rows@, i as int) == Some(l));
            return Some(l);
        }
        i += 1;
    }
    None
}

} // verus!
