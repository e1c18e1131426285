//! Screen geometry shared by rendering and mouse hit-testing: the layout of
//! the window's regions, the editor gutter, and the horizontal scrollbar.

use vstd::prelude::*;
use crate::panel::LayoutState;

verus! {

pub const ACTIVITY_WIDTH: u16 = 4;

pub const SCROLLBAR_WIDTH: u16 = 1;

/// Narrowest horizontal scrollbar thumb (when the track allows it).
pub const MIN_THUMB_WIDTH: usize = 5;

/// A screen rectangle in terminal cells.
#[derive(Clone, Copy, Debug, PartialEq, Eq, Structural)]
pub struct Rect {
    pub x: u16,
    pub y: u16,
    pub width: u16,
    pub height: u16,
}

/// The right and bottom edges of `r` are screen columns and rows.
pub open spec fn rect_ok(r: Rect) -> bool {
    r.x + r.width <= u16::MAX && r.y + r.height <= u16::MAX
}

/// Whether the cell `(x, y)` lies inside `r`.
pub open spec fn contains_spec(r: Rect, x: u16, y: u16) -> bool {
    x >= r.x && x < r.x + r.width && y >= r.y && y < r.y + r.height
}

/// Whether the cell `(x, y)` lies inside `r`.
pub fn rect_contains(r: Rect, x: u16, y: u16) -> (b: bool)
    requires
        rect_ok(r),
    ensures
        b == contains_spec(r, x, y),
{
    x >= r.x && x < r.x + r.width && y >= r.y && y < r.y + r.height
}

/// A size constraint of one of two stacked regions.
#[derive(Clone, Copy, Debug, PartialEq, Eq, Structural)]
pub enum Constraint {
    /// At least this many cells.
    Min(u16),
    /// Exactly this many cells, as far as room allows.
    Length(u16),
}

/// The two regions `ratatui::layout::Layout::vertical([a, b])` splits `area` into.
pub uninterp spec fn vsplit(area: Rect, a: Constraint, b: Constraint) -> (Rect, Rect);

/// The two regions `ratatui::layout::Layout::horizontal([a, b])` splits `area` into.
pub uninterp spec fn hsplit(area: Rect, a: Constraint, b: Constraint) -> (Rect, Rect);

/// `r` is a full-width band of `area`.
pub open spec fn band_of(r: Rect, area: Rect) -> bool {
    r.x == area.x && r.width == area.width && area.y <= r.y && r.y + r.height <= area.y + area.height
}

/// `r` is a full-height column of `area`.
pub open spec fn column_of(r: Rect, area: Rect) -> bool {
    r.y == area.y && r.height == area.height && area.x <= r.x && r.x + r.width <= area.x + area.width
}

/// `ratatui::layout::Layout::vertical([a, b]).areas(area)`, named `vsplit`.
/// Each region is a full-width band of `area`: the solver holds every edge
/// within `area` as a required constraint and keeps `x` and `width`.
#[verifier::external_body]
fn layout_vertical(area: Rect, a: Constraint, b: Constraint) -> (r: (Rect, Rect))
    requires
        rect_ok(area),
    ensures
        r == vsplit(area, a, b),
        band_of(r.0, area),
        band_of(r.1, area),
{
    let c = |k: Constraint| match k {
        Constraint::Min(n) => ratatui::layout::Constraint::Min(n),
        Constraint::Length(n) => ratatui::layout::Constraint::Length(n),
    };
    let whole = ratatui::layout::Rect { x: area.x, y: area.y, width: area.width, height: area.height };
    let [p, q] = ratatui::layout::Layout::vertical([c(a), c(b)]).areas(whole);
    (Rect { x: p.x, y: p.y, width: p.width, height: p.height }, Rect { x: q.x, y: q.y, width: q.width, height: q.height })
}

/// `ratatui::layout::Layout::horizontal([a, b]).areas(area)`, named `hsplit`.
/// Each region is a full-height column of `area`: the solver holds every edge
/// within `area` as a required constraint and keeps `y` and `height`.
#[verifier::external_body]
fn layout_horizontal(area: Rect, a: Constraint, b: Constraint) -> (r: (Rect, Rect))
    requires
        rect_ok(area),
    ensures
        r == hsplit(area, a, b),
        column_of(r.0, area),
        column_of(r.1, area),
{
    let c = |k: Constraint| match k {
        Constraint::Min(n) => ratatui::layout::Constraint::Min(n),
        Constraint::Length(n) => ratatui::layout::Constraint::Length(n),
    };
    let whole = ratatui::layout::Rect { x: area.x, y: area.y, width: area.width, height: area.height };
    let [p, q] = ratatui::layout::Layout::horizontal([c(a), c(b)]).areas(whole);
    (Rect { x: p.x, y: p.y, width: p.width, height: p.height }, Rect { x: q.x, y: q.y, width: q.width, height: q.height })
}

// ----- the editor gutter -----

/// Number of decimal digits of `n`.
pub open spec fn dec_digits(n: nat) -> nat
    decreases n,
{
    if n < 10 {
        1
    } else {
        1 + dec_digits(n / 10)
    }
}

/// `10` to the power `k`.
pub open spec fn pow10(k: nat) -> nat
    decreases k,
{
    if k == 0 {
        1
    } else {
        10 * pow10((k - 1) as nat)
    }
}

proof fn lemma_dec_digits(n: nat, k: nat)
    requires
        1 <= k,
        n < pow10(k),
    ensures
        1 <= dec_digits(n) <= k,
    decreases n,
{
    if n >= 10 {
        assert(k >= 2) by {
            if k == 1 {
                assert(pow10(1) == 10 * pow10(0));
            }
        }
        lemma_dec_digits(n / 10, (k - 1) as nat);
    }
}

/// Number of decimal digits of `n` (`n.to_string().len()`).
pub fn digit_count(n: usize) -> (d: u16)
    ensures
        d == dec_digits(n as nat),
        1 <= d <= 20,
{
    let mut m = n;
    let mut d: u16 = 1;
    proof {
        reveal_with_fuel(pow10, 21);
        assert(pow10(20) == 100000000000000000000nat);
        lemma_dec_digits(n as nat, 20);
    }
    while m >= 10
        invariant
            d - 1 + dec_digits(m as nat) == dec_digits(n as nat),
            dec_digits(n as nat) <= 20,
            1 <= d,
        decreases m,
    {
        m = m / 10;
        d = d + 1;
    }
    d
}

/// Gutter width for line numbers up to `max_number`: the digits plus two
/// columns, at least four, and one more for the git change marker.
pub open spec fn gutter_width_spec(max_number: usize, git: bool) -> int {
    let digits = dec_digits(max_number as nat) + 2;
    (if digits < 4 { 4 } else { digits }) + if git { 1int } else { 0int }
}

/// Gutter width based on the largest line number shown and whether the file
/// is tracked by git (one extra column for the change marker).
pub fn gutter_width(max_number: usize, git_gutter: bool) -> (w: u16)
    ensures
        w == gutter_width_spec(max_number, git_gutter),
        w <= 23,
{
    let digits = digit_count(max_number);
    let git: u16 = if git_gutter { 1 } else { 0 };
    let base = digits + 2;
    (if base < 4 { 4 } else { base }) + git
}

/// Whether the widest line (`content_len` columns) overflows the text area of
/// an editor `full_width` columns wide with a `gutter_w` gutter (less the
/// vertical scrollbar when there is room for one).
pub open spec fn needs_hscrollbar_spec(content_len: usize, full_width: u16, gutter_w: u16) -> bool {
    let vertical_w = if full_width > gutter_w + SCROLLBAR_WIDTH { SCROLLBAR_WIDTH as int } else { 0 };
    let t1 = if full_width >= gutter_w { full_width - gutter_w } else { 0 };
    let text_w = if t1 >= vertical_w { t1 - vertical_w } else { 0 };
    content_len > text_w
}

pub fn needs_hscrollbar(content_len: usize, full_width: u16, gutter_w: u16) -> (r: bool)
    requires
        gutter_w < u16::MAX,
    ensures
        r == needs_hscrollbar_spec(content_len, full_width, gutter_w),
{
    let vertical_w = if full_width > gutter_w + SCROLLBAR_WIDTH { SCROLLBAR_WIDTH } else { 0 };
    let text_w = full_width.saturating_sub(gutter_w).saturating_sub(vertical_w) as usize;
    content_len > text_w
}

/// Widest source line shown by the editor: the widest buffer line, or the
/// widest removed line woven into a diff tab.
pub open spec fn content_len_spec(widest: usize, deleted: Seq<Seq<char>>) -> int
    decreases deleted.len(),
{
    if deleted.len() == 0 {
        widest as int
    } else {
        let rest = content_len_spec(widest, deleted.drop_last());
        if deleted.last().len() > rest { deleted.last().len() as int } else { rest }
    }
}

/// Widest source line shown by the editor, including removed lines woven into
/// a diff tab. The horizontal scrollbar and its input mapping share this value.
pub fn horizontal_content_len(widest: usize, deleted: &Vec<String>) -> (n: usize)
    ensures
        n == content_len_spec(widest, deleted.deep_view()),
{
    let ghost ds = deleted.deep_view();
    let mut best = widest;
    let mut i: usize = 0;
    assert(ds.take(0) =~= Seq::<Seq<char>>::empty());
    while i < deleted.len()
        invariant
            ds == deleted.deep_view(),
            i <= ds.len(),
            best == content_len_spec(widest, ds.take(i as int)),
        decreases deleted.len() - i,
    {
        assert(ds.take(i + 1).drop_last() =~= ds.take(i as int));
        let n = crate::chars::char_count(deleted[i].as_str());
        if n > best {
            best = n;
        }
        i += 1;
    }
    assert(ds.take(ds.len() as int) =~= ds);
    best
}

// ----- the window layout -----

/// Region rectangles computed during render; reused for mouse events.
#[derive(Clone, Copy, Debug, PartialEq, Eq, Structural)]
pub struct Areas {
    pub activity: Rect,
    pub sidebar: Rect,
    pub sidebar_open: bool,
    /// x coordinate of the sidebar/editor border (drag-resize handle).
    pub sidebar_border_x: u16,
    pub tabs: Rect,
    pub editor: Rect,
    /// Editor scrollbar column (rightmost); zero width when there's no room.
    pub scrollbar: Rect,
    /// Horizontal track, excluding the gutter and vertical-scrollbar corner.
    pub scrollbar_x_track: Rect,
    pub terminal: Rect,
    pub terminal_open: bool,
    /// y coordinate of the terminal top edge (drag-resize handle).
    pub terminal_border_y: u16,
    pub statusbar: Rect,
    /// x where the editor text begins (after the gutter).
    pub editor_text_x: u16,
    pub gutter_w: u16,
}

/// The layout `compute_areas` computes: status bar at the bottom, activity bar
/// at the left, the sidebar (when open), the terminal below the editor column
/// (when open), the tab bar above the editor, a horizontal scrollbar row when
/// the content overflows, and the vertical scrollbar column when there is room.
pub open spec fn areas_spec(
    layout: LayoutState,
    area: Rect,
    gutter_w: u16,
    content_len: usize,
    tab_bar_height: u16,
) -> Areas {
    let (main, statusbar) = vsplit(area, Constraint::Min(1), Constraint::Length(1));
    let (activity, rest) = hsplit(main, Constraint::Length(ACTIVITY_WIDTH), Constraint::Min(0));
    let (sidebar, editor_col) = if layout.sidebar_open {
        hsplit(rest, Constraint::Length(layout.sidebar_width), Constraint::Min(0))
    } else {
        (Rect { width: 0, ..rest }, rest)
    };
    let (editor_body, terminal) = if layout.terminal_open {
        let room = if editor_col.height >= 3 { (editor_col.height - 3) as u16 } else { 0u16 };
        let th = if layout.terminal_height < room { layout.terminal_height } else { room };
        vsplit(editor_col, Constraint::Min(1), Constraint::Length(if th < 1 { 1 } else { th }))
    } else {
        (editor_col, Rect { height: 0, ..editor_col })
    };
    let (tabs, editor_full) = vsplit(editor_body, Constraint::Length(tab_bar_height), Constraint::Min(0));
    let (body, scrollbar_x) = if editor_full.height > 1 && needs_hscrollbar_spec(
        content_len,
        editor_full.width,
        gutter_w,
    ) {
        vsplit(editor_full, Constraint::Min(1), Constraint::Length(1))
    } else {
        (editor_full, Rect { height: 0, ..editor_full })
    };
    let (editor, scrollbar) = if body.width > gutter_w + SCROLLBAR_WIDTH {
        hsplit(body, Constraint::Min(1), Constraint::Length(SCROLLBAR_WIDTH))
    } else {
        (body, Rect { width: 0, ..body })
    };
    let scrollbar_x_track = if scrollbar_x.height > 0 && scrollbar_x.width > gutter_w + scrollbar.width {
        Rect {
            x: (scrollbar_x.x + gutter_w) as u16,
            width: (scrollbar_x.width - gutter_w - scrollbar.width) as u16,
            ..scrollbar_x
        }
    } else {
        Rect { width: 0, height: 0, ..scrollbar_x }
    };
    Areas {
        activity,
        sidebar,
        sidebar_open: layout.sidebar_open,
        sidebar_border_x: editor_col.x,
        tabs,
        editor,
        scrollbar,
        scrollbar_x_track,
        terminal,
        terminal_open: layout.terminal_open,
        terminal_border_y: terminal.y,
        statusbar,
        editor_text_x: (editor.x + gutter_w) as u16,
        gutter_w,
    }
}

/// `r` lies within `area`.
pub open spec fn within(r: Rect, area: Rect) -> bool {
    &&& area.x <= r.x && r.x + r.width <= area.x + area.width
    &&& area.y <= r.y && r.y + r.height <= area.y + area.height
}

/// Every region of the layout lies within the window.
pub open spec fn areas_within(a: Areas, area: Rect) -> bool {
    &&& within(a.activity, area)
    &&& within(a.sidebar, area)
    &&& within(a.tabs, area)
    &&& within(a.editor, area)
    &&& within(a.scrollbar, area)
    &&& within(a.scrollbar_x_track, area)
    &&& within(a.terminal, area)
    &&& within(a.statusbar, area)
}

/// Computes the layout of a window `area` with the given pane sizes, the
/// editor's gutter (line numbers up to `max_gutter_number`, plus the git
/// marker column), its widest line, and the tab bar's height. Rendering and
/// mouse routing use the same result.
pub fn compute_areas(
    layout: &LayoutState,
    area: Rect,
    max_gutter_number: usize,
    git_gutter: bool,
    content_len: usize,
    tab_bar_height: u16,
) -> (r: Areas)
    requires
        rect_ok(area),
        area.x + area.width + 23 <= u16::MAX,
    ensures
        r == areas_spec(*layout, area, gutter_width_spec(max_gutter_number, git_gutter) as u16, content_len, tab_bar_height),
        areas_within(r, area),
{
    let (main, statusbar) = layout_vertical(area, Constraint::Min(1), Constraint::Length(1));
    let (activity, rest) = layout_horizontal(main, Constraint::Length(ACTIVITY_WIDTH), Constraint::Min(0));
    let (sidebar, editor_col) = if layout.sidebar_open {
        layout_horizontal(rest, Constraint::Length(layout.sidebar_width), Constraint::Min(0))
    } else {
        (Rect { width: 0, ..rest }, rest)
    };
    let (editor_body, terminal) = if layout.terminal_open {
        let room = editor_col.height.saturating_sub(3);
        let th = if layout.terminal_height < room { layout.terminal_height } else { room };
        layout_vertical(editor_col, Constraint::Min(1), Constraint::Length(if th < 1 { 1 } else { th }))
    } else {
        (editor_col, Rect { height: 0, ..editor_col })
    };
    let (tabs, editor_full) = layout_vertical(editor_body, Constraint::Length(tab_bar_height), Constraint::Min(0));
    let gutter_w = gutter_width(max_gutter_number, git_gutter);
    // Add a bottom horizontal-scroll row only when content extends beyond the
    // editor's text width and there's enough height to keep one row visible.
    let (body, scrollbar_x) = if editor_full.height > 1 && needs_hscrollbar(
        content_len,
        editor_full.width,
        gutter_w,
    ) {
        layout_vertical(editor_full, Constraint::Min(1), Constraint::Length(1))
    } else {
        (editor_full, Rect { height: 0, ..editor_full })
    };
    // The vertical scrollbar column, when the body is wide enough for it.
    let (editor, scrollbar) = if body.width > gutter_w + SCROLLBAR_WIDTH {
        layout_horizontal(body, Constraint::Min(1), Constraint::Length(SCROLLBAR_WIDTH))
    } else {
        (body, Rect { width: 0, ..body })
    };
    let scrollbar_x_track = if scrollbar_x.height > 0 && scrollbar_x.width > gutter_w + scrollbar.width {
        Rect { x: scrollbar_x.x + gutter_w, width: scrollbar_x.width - gutter_w - scrollbar.width, ..scrollbar_x }
    } else {
        Rect { width: 0, height: 0, ..scrollbar_x }
    };
    let editor_text_x = editor.x + gutter_w;
    Areas {
        activity,
        sidebar,
        sidebar_open: layout.sidebar_open,
        sidebar_border_x: editor_col.x,
        tabs,
        editor,
        scrollbar,
        scrollbar_x_track,
        terminal,
        terminal_open: layout.terminal_open,
        terminal_border_y: terminal.y,
        statusbar,
        editor_text_x,
        gutter_w,
    }
}

// ----- the horizontal scrollbar -----

/// (track, thumb) glyphs of the horizontal scrollbar.
pub open spec fn scrollbar_symbols_spec(ascii: bool) -> (Seq<char>, Seq<char>) {
    if ascii { ("-"@, "="@) } else { ("─"@, "▬"@) }
}

pub fn scrollbar_symbols(ascii: bool) -> (r: (&'static str, &'static str))
    ensures
        (r.0@, r.1@) == scrollbar_symbols_spec(ascii),
{
    if ascii { ("-", "=") } else { ("─", "▬") }
}

#[derive(Clone, Copy, Debug, PartialEq, Eq, Structural)]
pub struct HorizontalScrollMetrics {
    pub thumb_start: usize,
    pub thumb_len: usize,
    pub max_offset: usize,
}

/// `a * b`, saturating at `usize::MAX` (`usize::saturating_mul`).
pub open spec fn sat_mul(a: usize, b: usize) -> int {
    if a * b > usize::MAX { usize::MAX as int } else { a * b }
}

/// The thumb of a horizontal scrollbar: proportional to the visible share of
/// the content, at least one cell and at least `MIN_THUMB_WIDTH` (as far as
/// the track allows), placed proportionally to the offset.
pub open spec fn scroll_metrics_spec(content_len: usize, viewport_len: usize, offset: usize, track_len: usize) -> HorizontalScrollMetrics {
    if track_len == 0 {
        HorizontalScrollMetrics { thumb_start: 0, thumb_len: 0, max_offset: 0 }
    } else {
        let max_offset = if content_len > viewport_len { content_len - viewport_len } else { 0 };
        if max_offset == 0 {
            HorizontalScrollMetrics { thumb_start: 0, thumb_len: track_len, max_offset: 0 }
        } else {
            let proportional = sat_mul(viewport_len, track_len) / (if content_len > 1 { content_len as int } else { 1 });
            let min_thumb = if MIN_THUMB_WIDTH < track_len { MIN_THUMB_WIDTH as int } else { track_len as int };
            let p1 = if proportional > 1 { proportional } else { 1 };
            let thumb_len = if p1 > min_thumb { p1 } else { min_thumb };
            let travel = if track_len > thumb_len { track_len - thumb_len } else { 0 };
            let clamped = if offset < max_offset { offset as int } else { max_offset };
            let start = sat_mul(clamped as usize, travel as usize) / max_offset;
            HorizontalScrollMetrics {
                thumb_start: (if start < travel { start } else { travel }) as usize,
                thumb_len: thumb_len as usize,
                max_offset: max_offset as usize,
            }
        }
    }
}

/// Law: the horizontal thumb always fits its track and is at least one cell
/// long; it sits at the track's start when the view is at the content's start
/// and at the track's end when the view is scrolled all the way (for sizes
/// whose product fits a `usize`); content that fits shows a full thumb.
pub proof fn law_scroll_thumb(content_len: usize, viewport_len: usize, offset: usize, track_len: usize)
    requires
        track_len > 0,
    ensures
        scroll_metrics_spec(content_len, viewport_len, offset, track_len).thumb_len >= 1,
        scroll_metrics_spec(content_len, viewport_len, offset, track_len).thumb_start + scroll_metrics_spec(
            content_len,
            viewport_len,
            offset,
            track_len,
        ).thumb_len <= track_len,
        content_len <= viewport_len ==> scroll_metrics_spec(content_len, viewport_len, offset, track_len)
            == (HorizontalScrollMetrics { thumb_start: 0, thumb_len: track_len, max_offset: 0 }),
        offset == 0 ==> scroll_metrics_spec(content_len, viewport_len, offset, track_len).thumb_start == 0,
        content_len > viewport_len && offset >= content_len - viewport_len && content_len * track_len
            <= usize::MAX ==> scroll_metrics_spec(content_len, viewport_len, offset, track_len).thumb_start
            + scroll_metrics_spec(content_len, viewport_len, offset, track_len).thumb_len == track_len,
{
    if content_len > viewport_len {
        let max_offset = content_len - viewport_len;
        let proportional = sat_mul(viewport_len, track_len) / (if content_len > 1 { content_len as int } else { 1 });
        assert(proportional >= 0) by (nonlinear_arith)
            requires
                sat_mul(viewport_len, track_len) >= 0,
                proportional == sat_mul(viewport_len, track_len) / (if content_len > 1 { content_len as int } else { 1 }),
        ;
        assert(sat_mul(viewport_len, track_len) <= viewport_len * track_len);
        assert(proportional <= track_len) by (nonlinear_arith)
            requires
                0 <= sat_mul(viewport_len, track_len) <= viewport_len * track_len,
                0 <= viewport_len < content_len,
                track_len > 0,
                proportional == sat_mul(viewport_len, track_len) / (if content_len > 1 { content_len as int } else { 1 }),
        ;
        let min_thumb = if MIN_THUMB_WIDTH < track_len { MIN_THUMB_WIDTH as int } else { track_len as int };
        let p1 = if proportional > 1 { proportional } else { 1 };
        let thumb_len = if p1 > min_thumb { p1 } else { min_thumb };
        let travel = if track_len > thumb_len { track_len - thumb_len } else { 0 };
        if offset == 0 {
            assert(sat_mul(0, travel as usize) == 0);
        }
        if offset >= max_offset && content_len * track_len <= usize::MAX {
            assert(max_offset * travel <= content_len * track_len) by (nonlinear_arith)
                requires
                    0 <= max_offset <= content_len,
                    0 <= travel <= track_len,
            ;
            assert(sat_mul(max_offset as usize, travel as usize) == max_offset * travel);
            assert((max_offset * travel) / (max_offset as int) == travel) by (nonlinear_arith)
                requires
                    max_offset > 0,
            ;
        }
    }
}

/// `a * b`, saturating at `usize::MAX`.
pub fn saturating_mul(a: usize, b: usize) -> (r: usize)
    ensures
        r == sat_mul(a, b),
{
    assert((a as int) * (b as int) <= u128::MAX) by (nonlinear_arith)
        requires
            a <= u64::MAX,
            b <= u64::MAX,
    ;
    let p = (a as u128) * (b as u128);
    if p > usize::MAX as u128 {
        usize::MAX
    } else {
        p as usize
    }
}

proof fn lemma_div_le(a: int, b: int, c: int)
    requires
        0 <= a,
        0 < c,
        a <= b * c,
    ensures
        a / c <= b,
{
    assert(a / c <= b) by (nonlinear_arith)
        requires
            0 <= a,
            0 < c,
            a <= b * c,
    ;
}

/// Computes the same proportional thumb used by the vertical scrollbar, with
/// a minimum width so the horizontal thumb remains practical to drag. The
/// thumb always lies within the track.
pub fn horizontal_scroll_metrics(content_len: usize, viewport_len: usize, offset: usize, track_len: usize) -> (m: HorizontalScrollMetrics)
    ensures
        m == scroll_metrics_spec(content_len, viewport_len, offset, track_len),
        m.thumb_start + m.thumb_len <= track_len,
{
    if track_len == 0 {
        return HorizontalScrollMetrics { thumb_start: 0, thumb_len: 0, max_offset: 0 };
    }
    let max_offset = content_len.saturating_sub(viewport_len);
    if max_offset == 0 {
        return HorizontalScrollMetrics { thumb_start: 0, thumb_len: track_len, max_offset };
    }
    let denom = if content_len > 1 { content_len } else { 1 };
    let proportional = saturating_mul(viewport_len, track_len) / denom;
    proof {
        // The visible share is below the whole, so the thumb fits the track.
        if viewport_len * track_len <= usize::MAX {
            assert(viewport_len * track_len <= track_len * (denom as int)) by (nonlinear_arith)
                requires
                    viewport_len < denom,
                    0 < track_len,
            ;
            lemma_div_le(viewport_len * track_len, track_len as int, denom as int);
        } else {
            assert(usize::MAX <= track_len * (denom as int)) by (nonlinear_arith)
                requires
                    viewport_len * track_len > usize::MAX,
                    viewport_len < denom,
                    0 < track_len,
            ;
            lemma_div_le(usize::MAX as int, track_len as int, denom as int);
        }
    }
    let min_thumb = if MIN_THUMB_WIDTH < track_len { MIN_THUMB_WIDTH } else { track_len };
    let p1 = if proportional > 1 { proportional } else { 1 };
    let thumb_len = if p1 > min_thumb { p1 } else { min_thumb };
    let travel = track_len.saturating_sub(thumb_len);
    let clamped = if offset < max_offset { offset } else { max_offset };
    let start = saturating_mul(clamped, travel) / max_offset;
    let thumb_start = if start < travel { start } else { travel };
    HorizontalScrollMetrics { thumb_start, thumb_len, max_offset }
}

/// Which cells of a track `track_len` wide show the thumb.
pub open spec fn in_thumb(m: HorizontalScrollMetrics, col: int) -> bool {
    col >= m.thumb_start && col < m.thumb_start + m.thumb_len
}

/// For each cell of the horizontal scrollbar track, whether it draws the thumb
/// (the rest draw the track), for content `content_len` columns wide scrolled
/// to `scroll_x`.
pub fn hscrollbar_cells(content_len: usize, scroll_x: usize, track_len: usize) -> (r: Vec<bool>)
    ensures
        r@.len() == track_len,
        forall|col: int| 0 <= col < track_len ==> r@[col] == in_thumb(
            scroll_metrics_spec(content_len, track_len, scroll_x, track_len),
            col,
        ),
{
    let m = horizontal_scroll_metrics(content_len, track_len, scroll_x, track_len);
    let mut out: Vec<bool> = Vec::new();
    let mut col: usize = 0;
    while col < track_len
        invariant
            col <= track_len,
            m == scroll_metrics_spec(content_len, track_len, scroll_x, track_len),
            m.thumb_start + m.thumb_len <= track_len,
            out@.len() == col,
            forall|c: int| 0 <= c < col ==> out@[c] == in_thumb(m, c),
        decreases track_len - col,
    {
        out.push(col >= m.thumb_start && col < m.thumb_start + m.thumb_len);
        col += 1;
    }
    out
}

// ----- cells of the editor text -----

/// Placeholder cell for characters that must not reach the terminal raw.
pub const PLACEHOLDER: char = '\u{FFFD}';

/// The cell drawn for a character that must not reach the terminal raw.
pub open spec fn placeholder() -> char {
    PLACEHOLDER
}

/// The single cell drawn for a buffer character: a tab becomes a space;
/// control characters and bidi embedding/override/isolate marks become the
/// placeholder, so they neither move the terminal cursor nor reorder the line.
pub open spec fn display_char_spec(c: char) -> char {
    if c == '\t' {
        ' '
    } else if c == '\u{061C}' || c == '\u{200E}' || c == '\u{200F}' || ('\u{202A}' <= c <= '\u{202E}')
        || ('\u{2066}' <= c <= '\u{2069}') {
        placeholder()
    } else if crate::chars::is_ctrl(c) {
        placeholder()
    } else {
        c
    }
}

/// Maps a buffer character to the single cell drawn for it. Keeps the editor's
/// 1 char = 1 cell invariant that the cursor, selection and find overlays rely on.
pub fn display_char(c: char) -> (r: char)
    ensures
        r == display_char_spec(c),
        !crate::chars::is_ctrl(r),
        !(r == '\u{061C}' || r == '\u{200E}' || r == '\u{200F}' || ('\u{202A}' <= r <= '\u{202E}') || ('\u{2066}' <= r <= '\u{2069}')),
{
    if c == '\t' {
        ' '
    } else if c == '\u{061C}' || c == '\u{200E}' || c == '\u{200F}' || ('\u{202A}' <= c && c <= '\u{202E}')
        || ('\u{2066}' <= c && c <= '\u{2069}') {
        PLACEHOLDER
    } else if crate::chars::char_is_control(c) {
        PLACEHOLDER
    } else {
        c
    }
}


// ----- the visible slice of a line -----

/// The visible cells a piece of source text adds, reading it from source
/// column `col` with `taken` of the `width` cells already filled: characters
/// left of `scroll_x` are skipped, the rest drawn (through `display_char`)
/// until the window is full. Also the column and fill reached.
pub open spec fn piece_visible(text: Seq<char>, col: int, taken: int, scroll_x: int, width: int) -> (Seq<char>, int, int)
    decreases text.len(),
{
    if text.len() == 0 || taken >= width {
        (Seq::empty(), col, taken)
    } else if col >= scroll_x {
        let r = piece_visible(text.drop_first(), col + 1, taken + 1, scroll_x, width);
        (seq![display_char_spec(text[0])] + r.0, r.1, r.2)
    } else {
        piece_visible(text.drop_first(), col + 1, taken, scroll_x, width)
    }
}

/// The spans of colored pieces within the window: one span per piece with a
/// visible cell, in order, stopping once the window is full.
pub open spec fn spans_from<C>(pieces: Seq<(C, Seq<char>)>, col: int, taken: int, scroll_x: int, width: int) -> Seq<(C, Seq<char>)>
    decreases pieces.len(),
{
    if pieces.len() == 0 {
        Seq::empty()
    } else {
        let (v, c2, t2) = piece_visible(pieces[0].1, col, taken, scroll_x, width);
        let here = if v.len() > 0 { seq![(pieces[0].0, v)] } else { Seq::empty() };
        if t2 < width {
            here + spans_from(pieces.drop_first(), c2, t2, scroll_x, width)
        } else {
            here
        }
    }
}

/// The spans a line shows in a window `width` cells wide scrolled to
/// `scroll_x`: its highlighted pieces when there are any, else its plain text
/// (read from the window's start) in `plain_color`.
pub open spec fn clip_spec<C>(pieces: Seq<(C, Seq<char>)>, line: Seq<char>, plain_color: C, scroll_x: int, width: int) -> Seq<(C, Seq<char>)> {
    if width == 0 {
        Seq::empty()
    } else if pieces.len() > 0 {
        spans_from(pieces, 0, 0, scroll_x, width)
    } else {
        let from = if scroll_x < line.len() { scroll_x } else { line.len() as int };
        let to = if from + width < line.len() { from + width } else { line.len() as int };
        spans_from(seq![(plain_color, line.subrange(from, to))], from, 0, scroll_x, width)
    }
}

pub open spec fn pieces_view<C>(v: Seq<(C, String)>) -> Seq<(C, Seq<char>)> {
    v.map_values(|p: (C, String)| (p.0, p.1@))
}

/// Draws one piece into `spans` (when it shows a cell); returns the column
/// and fill reached.
fn push_piece<C: Copy>(spans: &mut Vec<(C, String)>, color: C, text: &str, col: usize, taken: usize, scroll_x: usize, width: usize) -> (r: (usize, usize))
    requires
        taken <= width,
    ensures
        ({
            let (v, c2, t2) = piece_visible(text@, col as int, taken as int, scroll_x as int, width as int);
            &&& r.0 == (if c2 < usize::MAX { c2 } else { usize::MAX as int })
            &&& r.1 == t2
            &&& pieces_view(final(spans)@) == pieces_view(old(spans)@) + if v.len() > 0 {
                seq![(color, v)]
            } else {
                Seq::empty()
            }
        }),
        r.1 <= width,
        col <= r.0,
{
    let chs = crate::chars::str_chars(text);
    let ghost t = text@;
    let ghost target = piece_visible(t, col as int, taken as int, scroll_x as int, width as int);
    let ghost mut scol: int = col as int;
    let mut c = col;
    let mut k = taken;
    let mut visible = String::new();
    let mut i: usize = 0;
    assert(t.skip(0) =~= t);
    assert(visible@ + target.0 =~= target.0);
    while i < chs.len() && k < width
        invariant
            chs@ == t,
            i <= t.len(),
            k <= width,
            col <= c,
            c == (if scol < usize::MAX { scol } else { usize::MAX as int }),
            ({
                let r = piece_visible(t.skip(i as int), scol, k as int, scroll_x as int, width as int);
                (visible@ + r.0, r.1, r.2) == target
            }),
        decreases chs.len() - i,
    {
        assert(t.skip(i as int).drop_first() =~= t.skip(i + 1));
        assert(t.skip(i as int)[0] == chs@[i as int]);
        if c >= scroll_x {
            let d = display_char(chs[i]);
            let ghost before = visible@;
            crate::chars::string_push(&mut visible, d);
            assert(visible@ == before + seq![d]);
            k += 1;
            proof {
                let r2 = piece_visible(t.skip(i + 1), scol + 1, k as int, scroll_x as int, width as int);
                assert(before + (seq![d] + r2.0) =~= visible@ + r2.0);
            }
        }
        if c < usize::MAX {
            c += 1;
        }
        proof {
            scol = scol + 1;
        }
        i += 1;
    }
    proof {
        if i == t.len() {
            assert(t.skip(i as int) =~= Seq::<char>::empty());
        }
        assert(visible@ + Seq::<char>::empty() =~= visible@);
    }
    assert(visible@ == target.0);
    let ghost before = spans@;
    if crate::chars::char_count(visible.as_str()) > 0 {
        let ghost vv = visible@;
        spans.push((color, visible));
        assert(spans@ == before.push((color, spans@.last().1)));
        assert(spans@.last().1@ == vv);
        assert(pieces_view(spans@) =~= pieces_view(before) + seq![(color, target.0)]);
    } else {
        assert(pieces_view(spans@) =~= pieces_view(before) + Seq::<(C, Seq<char>)>::empty());
    }
    (c, k)
}

/// Reading from two source columns that agree once clamped to `usize::MAX`
/// shows the same cells, fills the same, and ends at columns that agree clamped.
proof fn lemma_piece_visible_col(text: Seq<char>, a: int, b: int, taken: int, scroll_x: int, width: int)
    requires
        (if a < usize::MAX { a } else { usize::MAX as int }) == (if b < usize::MAX { b } else { usize::MAX as int }),
        scroll_x <= usize::MAX,
    ensures
        piece_visible(text, a, taken, scroll_x, width).0 == piece_visible(text, b, taken, scroll_x, width).0,
        piece_visible(text, a, taken, scroll_x, width).2 == piece_visible(text, b, taken, scroll_x, width).2,
        ({
            let ca = piece_visible(text, a, taken, scroll_x, width).1;
            let cb = piece_visible(text, b, taken, scroll_x, width).1;
            (if ca < usize::MAX { ca } else { usize::MAX as int }) == (if cb < usize::MAX { cb } else { usize::MAX as int })
        }),
    decreases text.len(),
{
    if text.len() > 0 && taken < width {
        if a >= scroll_x {
            lemma_piece_visible_col(text.drop_first(), a + 1, b + 1, taken + 1, scroll_x, width);
        } else {
            lemma_piece_visible_col(text.drop_first(), a + 1, b + 1, taken, scroll_x, width);
        }
    }
}

/// Collects the visible slice of a line into colored spans within the
/// `scroll_x` / `width` window: one span per highlighted piece with a visible
/// cell (or one for the plain text when there are no pieces), each character
/// mapped through `display_char`.
pub fn clip_line<C: Copy>(pieces: &Vec<(C, String)>, line: &str, plain_color: C, scroll_x: usize, width: usize) -> (r: Vec<(C, String)>)
    ensures
        pieces_view(r@) == clip_spec(pieces_view(pieces@), line@, plain_color, scroll_x as int, width as int),
{
    let mut spans: Vec<(C, String)> = Vec::new();
    if width == 0 {
        assert(pieces_view(spans@) =~= Seq::<(C, Seq<char>)>::empty());
        return spans;
    }
    if pieces.len() > 0 {
        let ghost ps = pieces_view(pieces@);
        let ghost mut scol: int = 0;
        let mut col: usize = 0;
        let mut taken: usize = 0;
        let mut i: usize = 0;
        assert(pieces_view(spans@) =~= Seq::<(C, Seq<char>)>::empty());
        assert(ps.skip(0) =~= ps);
        while i < pieces.len()
            invariant_except_break
                pieces_view(spans@) + spans_from(ps.skip(i as int), scol, taken as int, scroll_x as int, width as int)
                    == spans_from(ps, 0, 0, scroll_x as int, width as int),
                taken < width,
            invariant
                ps == pieces_view(pieces@),
                i <= ps.len(),
                col == (if scol < usize::MAX { scol } else { usize::MAX as int }),
                taken <= width,
            ensures
                pieces_view(spans@) == spans_from(ps, 0, 0, scroll_x as int, width as int),
            decreases pieces.len() - i,
        {
            let ghost rest = ps.skip(i as int);
            assert(rest[0] == (pieces@[i as int].0, pieces@[i as int].1@));
            assert(rest.drop_first() =~= ps.skip(i + 1));
            let ghost pv = piece_visible(rest[0].1, scol, taken as int, scroll_x as int, width as int);
            let (c2, t2) = push_piece(&mut spans, pieces[i].0, pieces[i].1.as_str(), col, taken, scroll_x, width);
            proof {
                lemma_piece_visible_col(rest[0].1, scol, col as int, taken as int, scroll_x as int, width as int);
            }
            col = c2;
            taken = t2;
            proof {
                scol = pv.1;
            }
            i += 1;
            if taken >= width {
                break;
            }
        }
        if i == pieces.len() {
            assert(ps.skip(i as int) =~= Seq::<(C, Seq<char>)>::empty());
        }
        return spans;
    }
    let chs = crate::chars::str_chars(line);
    let len = chs.len();
    let from = if scroll_x < len { scroll_x } else { len };
    let to = if width < len - from { from + width } else { len };
    let text = crate::chars::range_string(&chs, from, to);
    let ghost one = seq![(plain_color, text@)];
    let _ = push_piece(&mut spans, plain_color, text.as_str(), from, 0, scroll_x, width);
    assert(one.drop_first() =~= Seq::<(C, Seq<char>)>::empty());
    proof {
        let pv = piece_visible(text@, from as int, 0, scroll_x as int, width as int);
        assert(one[0].1 == text@);
        assert(spans_from(one.drop_first(), pv.1, pv.2, scroll_x as int, width as int) == Seq::<(C, Seq<char>)>::empty());
        assert(spans_from(one, from as int, 0, scroll_x as int, width as int) =~= (if pv.0.len() > 0 {
            seq![(plain_color, pv.0)]
        } else {
            Seq::empty()
        }));
    }
    spans
}


/// The cells a removed diff line shows in a window `width` cells wide
/// scrolled to `scroll_x`: the line without its trailing line break, from
/// column `scroll_x`, through `display_char`.
#[verifier::spinoff_prover]
pub fn deleted_visible(text: &str, scroll_x: usize, width: usize) -> (r: String)
    ensures
        r@ == piece_visible(trim_break(text@), 0, 0, scroll_x as int, width as int).0,
{
    let chs = crate::chars::str_chars(text);
    let mut end = chs.len();
    assert(chs@.take(chs@.len() as int) =~= chs@);
    while end > 0 && (chs[end - 1] == '\n' || chs[end - 1] == '\r')
        invariant
            end <= chs@.len(),
            trim_break(chs@.take(end as int)) == trim_break(chs@),
        decreases end,
    {
        assert(chs@.take(end - 1) =~= chs@.take(end as int).drop_last());
        end -= 1;
    }
    assert(chs@ == text@);
    assert(chs@.subrange(0, end as int) =~= chs@.take(end as int));
    let body = crate::chars::range_string(&chs, 0, end);
    let mut spans: Vec<(bool, String)> = Vec::new();
    let _ = push_piece(&mut spans, true, body.as_str(), 0, 0, scroll_x, width);
    if spans.len() > 0 {
        assert(spans@[0].1@ == pieces_view(spans@)[0].1);
        spans[0].1.clone()
    } else {
        String::new()
    }
}

/// `t` without its trailing run of line feeds and carriage returns.
pub open spec fn trim_break(t: Seq<char>) -> Seq<char>
    decreases t.len(),
{
    if t.len() > 0 && (t.last() == '\n' || t.last() == '\r') {
        trim_break(t.drop_last())
    } else {
        t
    }
}

// ----- the read-only notice -----

/// The width a notice is wrapped to in an editor area `width` cells wide:
/// four cells of margin, at least one and at most seventy cells.
pub open spec fn notice_wrap(width: u16) -> int {
    let w = if width >= 4 { width - 4 } else { 0 };
    if w < 1 { 1 } else if w > 70 { 70 } else { w }
}

/// Rows one paragraph of `len` characters takes wrapped at `w`: at least one,
/// counted in a `u16` as the renderer does.
pub open spec fn paragraph_rows(len: int, w: int) -> int {
    let r = len / w + (if len % w != 0 { 1int } else { 0 });
    (if r < 1 { 1 } else { r }) % 0x10000
}

/// Estimated rows of the paragraphs `paras` wrapped at `w`.
pub open spec fn notice_rows(paras: Seq<Seq<char>>, w: int) -> int
    decreases paras.len(),
{
    if paras.len() == 0 {
        0
    } else {
        notice_rows(paras.drop_last(), w) + paragraph_rows(paras.last().len() as int, w)
    }
}

/// Blank rows above a notice so it sits vertically centered in an editor
/// area of `width` by `height` cells; `None` when the area is too small to
/// show it (no rows, or under four columns).
pub open spec fn notice_pad_spec(width: u16, height: u16, notice: Seq<char>) -> Option<u16> {
    if height == 0 || width < 4 {
        None
    } else {
        let est = notice_rows(crate::chars::split_by(notice, '\n'), notice_wrap(width));
        Some((if height > est { (height - est) / 2 } else { 0 }) as u16)
    }
}

pub proof fn lemma_notice_rows_mono(paras: Seq<Seq<char>>, w: int, i: int)
    requires
        0 <= i <= paras.len(),
        w >= 1,
    ensures
        0 <= notice_rows(paras.take(i), w) <= notice_rows(paras, w),
    decreases paras.len(),
{
    if paras.len() > 0 {
        if i == paras.len() {
            assert(paras.take(i) =~= paras);
            lemma_notice_rows_mono(paras.drop_last(), w, paras.len() - 1);
            assert(paras.drop_last().take(paras.len() - 1) =~= paras.drop_last());
        } else {
            lemma_notice_rows_mono(paras.drop_last(), w, i);
            assert(paras.drop_last().take(i) =~= paras.take(i));
        }
    }
}

/// The top padding of a read-only notice (a binary or unreadable file shown
/// in place of its text), from the editor area's size and the notice's text.
pub fn notice_top_pad(width: u16, height: u16, notice: &str) -> (r: Option<u16>)
    requires
        height == 0 || width < 4
            || notice_rows(crate::chars::split_by(notice@, '\n'), notice_wrap(width)) <= u16::MAX,
    ensures
        r == notice_pad_spec(width, height, notice@),
{
    if height == 0 || width < 4 {
        return None;
    }
    let w0 = width - 4;
    let wrap: usize = if w0 < 1 { 1 } else if w0 > 70 { 70 } else { w0 as usize };
    let paras = crate::chars::split_text(notice, '\n');
    let ghost ps = paras.deep_view();
    let mut est: u16 = 0;
    let mut i: usize = 0;
    while i < paras.len()
        invariant
            ps == paras.deep_view(),
            ps == crate::chars::split_by(notice@, '\n'),
            wrap == notice_wrap(width),
            notice_rows(ps, wrap as int) <= u16::MAX,
            i <= ps.len(),
            est == notice_rows(ps.take(i as int), wrap as int),
        decreases paras.len() - i,
    {
        let len = crate::chars::char_count(paras[i].as_str());
        assert(paras[i as int]@ == ps[i as int]);
        let q = len / wrap;
        assert(len % wrap != 0 ==> q < usize::MAX) by (nonlinear_arith)
            requires
                q == len / wrap,
                1 <= wrap <= 70,
        {
            if wrap == 1 {
                assert(len % wrap == 0);
            } else {
                assert(q * 2 <= q * wrap);
                assert(q * wrap <= len);
            }
        }
        let r = if len % wrap != 0 { q + 1 } else { q };
        let m = if r < 1 { 1 } else { r };
        let rows = (m % 0x10000) as u16;
        proof {
            assert(ps.take(i + 1).drop_last() =~= ps.take(i as int));
            assert(ps.take(i + 1).last() == ps[i as int]);
            lemma_notice_rows_mono(ps, wrap as int, i + 1);
        }
        est = est + rows;
        i += 1;
    }
    assert(ps.take(ps.len() as int) =~= ps);
    let pad = if height > est { (height - est) / 2 } else { 0 };
    Some(pad)
}

// ----- the toast -----

/// Where a toast showing `text_len` characters floats in the screen `area`:
/// a box three rows tall, wide enough for the text plus padding and borders
/// (within the screen), centered horizontally a row above the bottom edge —
/// moved above `avoid_row` when it would cover it and there is room. `None`
/// when the screen is too small.
pub open spec fn toast_rect_spec(area: Rect, text_len: usize, avoid_row: Option<u16>) -> Option<Rect> {
    let room = if area.width >= 2 { area.width - 2 } else { 0 };
    let w0 = if text_len + 4 < room { text_len + 4 } else { room };
    let box_w = if w0 > 3 { w0 } else { 3 };
    if area.height < 5 || area.width < box_w {
        None
    } else {
        let x = area.x + (area.width - box_w) / 2;
        let y0 = area.y + (area.height - 4);
        let y = match avoid_row {
            Some(row) => {
                let above = if row >= 4 { row - 4 } else { 0 };
                if row >= y0 && row < y0 + 3 && above >= area.y { above } else { y0 }
            },
            None => y0,
        };
        Some(Rect { x: x as u16, y: y as u16, width: box_w as u16, height: 3 })
    }
}

/// Places the toast box (see `toast_rect_spec`).
pub fn toast_rect(area: Rect, text_len: usize, avoid_row: Option<u16>) -> (r: Option<Rect>)
    requires
        rect_ok(area),
        text_len + 4 <= usize::MAX,
    ensures
        r == toast_rect_spec(area, text_len, avoid_row),
{
    // Clamped in `usize` before the cast so a huge message can't overflow `u16`.
    let room = area.width.saturating_sub(2) as usize;
    let w0 = if text_len + 4 < room { text_len + 4 } else { room };
    let box_w = (if w0 > 3 { w0 } else { 3 }) as u16;
    let box_h: u16 = 3;
    if area.height < box_h + 2 || area.width < box_w {
        return None;
    }
    // Centered horizontally, a couple of rows above the very bottom edge.
    let x = area.x + (area.width.saturating_sub(box_w)) / 2;
    let mut y = area.y + area.height.saturating_sub(box_h + 1);
    if let Some(row) = avoid_row {
        if row >= y && row < y.saturating_add(box_h) {
            let above = row.saturating_sub(box_h + 1);
            if above >= area.y {
                y = above;
            }
        }
    }
    Some(Rect { x, y, width: box_w, height: box_h })
}


// ----- the editor viewport -----

/// The first buffer line among the first `h` display rows (`Some(line)` for a
/// buffer line, `None` for a removed line woven into a diff tab).
pub open spec fn first_real(rows: Seq<Option<usize>>, h: int) -> Option<usize>
    decreases h,
{
    if h <= 0 {
        None
    } else {
        match first_real(rows, h - 1) {
            Some(f) => Some(f),
            None => if h - 1 < rows.len() { rows[h - 1] } else { None },
        }
    }
}

/// The last of the first `h` display rows that shows buffer line `line`.
pub open spec fn last_row_of(rows: Seq<Option<usize>>, h: int, line: usize) -> Option<int>
    decreases h,
{
    if h <= 0 {
        None
    } else if h - 1 < rows.len() && rows[h - 1] == Some(line) {
        Some(h - 1)
    } else {
        last_row_of(rows, h - 1, line)
    }
}

proof fn lemma_last_row_of(rows: Seq<Option<usize>>, h: int, line: usize)
    ensures
        match last_row_of(rows, h, line) {
            Some(i) => 0 <= i < h && i < rows.len(),
            None => true,
        },
    decreases h,
{
    if h > 0 {
        lemma_last_row_of(rows, h - 1, line);
    }
}

proof fn lemma_no_real_rows(rows: Seq<Option<usize>>, h: int, line: usize)
    requires
        first_real(rows, h) is None,
    ensures
        last_row_of(rows, h, line) is None,
    decreases h,
{
    if h > 0 {
        lemma_no_real_rows(rows, h - 1, line);
    }
}

/// What the editor area shows this frame: geometry, horizontal scroll, and a
/// precomputed buffer-line -> screen-row map for the visible window, built
/// once per frame so overlays never scan the whole display list.
pub struct Viewport {
    area: Rect,
    gutter_w: u16,
    scroll_x: usize,
    text_w: usize,
    /// First buffer line with a row on screen.
    first_line: usize,
    /// `line_row[l - first_line]` = row offset of buffer line `l` from `area.y`.
    line_row: Vec<Option<u16>>,
    /// The display rows on screen.
    window: Ghost<Seq<Option<usize>>>,
}

impl Viewport {
    /// The display rows the viewport shows, from its top row.
    pub closed spec fn rows(&self) -> Seq<Option<usize>> {
        self.window@
    }

    pub closed spec fn rect(&self) -> Rect {
        self.area
    }

    pub closed spec fn scroll(&self) -> usize {
        self.scroll_x
    }

    pub closed spec fn gutter(&self) -> u16 {
        self.gutter_w
    }

    /// The row offsets recorded are those of the window's rows.
    pub closed spec fn wf(&self) -> bool {
        &&& rect_ok(self.area)
        &&& self.window@.len() <= self.area.height
        &&& self.text_w == (if self.area.width >= self.gutter_w { self.area.width - self.gutter_w } else { 0 })
        &&& self.first_line == match first_real(self.window@, self.window@.len() as int) {
            Some(f) => f,
            None => 0,
        }
        &&& forall|k: int| 0 <= k < self.line_row@.len() ==> match #[trigger] self.line_row@[k] {
            Some(off) => last_row_of(self.window@, self.window@.len() as int, (self.first_line + k) as usize) == Some(off as int),
            None => last_row_of(self.window@, self.window@.len() as int, (self.first_line + k) as usize) is None,
        }
        &&& forall|l: usize| l >= self.first_line + self.line_row@.len() ==> #[trigger] last_row_of(self.window@, self.window@.len() as int, l) is None
        &&& self.first_line + self.line_row@.len() <= usize::MAX
        &&& first_real(self.window@, self.window@.len() as int) is None ==> self.line_row@.len() == 0
        &&& first_real(self.window@, self.window@.len() as int) is Some ==> self.line_row@.len() > 0
        &&& self.line_row@.len() > 0 ==> self.line_row@.last() is Some
    }

    /// Builds the viewport of `area` with a `gutter_w` gutter, scrolled
    /// sideways to `scroll_x`, showing the display rows `rows` from its top
    /// (as many as fit).
    pub fn new(area: Rect, gutter_w: u16, scroll_x: usize, rows: &Vec<Option<usize>>) -> (vp: Self)
        requires
            rect_ok(area),
            forall|i: int| 0 <= i < rows@.len() ==> (#[trigger] rows@[i] matches Some(l) ==> l < usize::MAX),
        ensures
            vp.wf(),
            vp.rows() == rows@.take(if rows@.len() < area.height { rows@.len() as int } else { area.height as int }),
            vp.rect() == area,
            vp.scroll() == scroll_x,
            vp.gutter() == gutter_w,
    {
        let height = area.height as usize;
        let n = if rows.len() < height { rows.len() } else { height };
        let ghost w = rows@.take(n as int);
        let mut first_line: Option<usize> = None;
        let mut line_row: Vec<Option<u16>> = Vec::new();
        let mut i: usize = 0;
        while i < n
            invariant
                i <= n <= height,
                n <= rows@.len(),
                height == area.height,
                w == rows@.take(n as int),
                forall|j: int| 0 <= j < rows@.len() ==> (#[trigger] rows@[j] matches Some(l) ==> l < usize::MAX),
                first_line == first_real(w, i as int),
                first_line is None ==> line_row@.len() == 0,
                first_line is Some ==> line_row@.len() > 0,
                line_row@.len() > 0 ==> line_row@.last() is Some,
                forall|k: int| 0 <= k < line_row@.len() ==> match #[trigger] line_row@[k] {
                    Some(off) => last_row_of(w, i as int, (first_line->0 + k) as usize) == Some(off as int),
                    None => last_row_of(w, i as int, (first_line->0 + k) as usize) is None,
                },
                first_line is Some ==> forall|l: usize| l >= first_line->0 + line_row@.len() ==> #[trigger] last_row_of(w, i as int, l) is None,
                first_line is Some ==> first_line->0 + line_row@.len() <= usize::MAX,
            decreases n - i,
        {
            assert(w[i as int] == rows@[i as int]);
            let ghost was = first_line;
            let ghost len0 = line_row@.len();
            if let Some(l) = rows[i] {
                let first = match first_line {
                    Some(f) => f,
                    None => l,
                };
                proof {
                    if was is None {
                        assert forall|m: usize| m >= first implies #[trigger] last_row_of(w, i as int, m) is None by {
                            lemma_no_real_rows(w, i as int, m);
                        }
                    }
                }
                first_line = Some(first);
                if l >= first {
                    let k = l - first;
                    if line_row.len() <= k {
                        while line_row.len() <= k
                            invariant
                                len0 <= line_row@.len() <= k + 1,
                                forall|j: int| 0 <= j < line_row@.len() ==> match #[trigger] line_row@[j] {
                                    Some(off) => last_row_of(w, i as int, (first + j) as usize) == Some(off as int),
                                    None => last_row_of(w, i as int, (first + j) as usize) is None,
                                },
                                forall|m: usize| m >= first + line_row@.len() ==> #[trigger] last_row_of(w, i as int, m) is None,
                                first + k < usize::MAX,
                            decreases k + 1 - line_row.len(),
                        {
                            assert(last_row_of(w, i as int, (first + line_row@.len()) as usize) is None);
                            line_row.push(None);
                        }
                    }
                    line_row.set(k, Some(i as u16));
                }
                proof {
                    assert forall|j: int| 0 <= j < line_row@.len() implies match #[trigger] line_row@[j] {
                        Some(off) => last_row_of(w, i + 1, (first + j) as usize) == Some(off as int),
                        None => last_row_of(w, i + 1, (first + j) as usize) is None,
                    } by {
                        assert(w[(i + 1) - 1] == Some(l));
                    }
                    assert(line_row@.len() >= len0);
                    assert forall|m: usize| m >= first + line_row@.len() implies #[trigger] last_row_of(w, i + 1, m) is None by {
                        assert(w[i as int] == Some(l));
                        assert(m != l);
                        assert(last_row_of(w, i + 1, m) == last_row_of(w, i as int, m));
                        assert(m >= first + len0);
                        assert(last_row_of(w, i as int, m) is None);
                    }
                }
            } else {
                proof {
                    assert forall|j: int| 0 <= j < line_row@.len() implies match #[trigger] line_row@[j] {
                        Some(off) => last_row_of(w, i + 1, (first_line->0 + j) as usize) == Some(off as int),
                        None => last_row_of(w, i + 1, (first_line->0 + j) as usize) is None,
                    } by {
                        assert(w[(i + 1) - 1] is None);
                    }
                    if first_line is Some {
                        assert forall|m: usize| m >= first_line->0 + line_row@.len() implies #[trigger] last_row_of(w, i + 1, m) is None by {
                            assert(w[i as int] is None);
                            assert(last_row_of(w, i + 1, m) == last_row_of(w, i as int, m));
                            assert(last_row_of(w, i as int, m) is None);
                        }
                    }
                }
            }
            i += 1;
        }
        proof {
            if first_line is None {
                assert forall|m: usize| m >= 0 implies #[trigger] last_row_of(w, n as int, m) is None by {
                    lemma_no_real_rows(w, n as int, m);
                }
            }
        }
        assert(w.len() == n);
        Viewport {
            area,
            gutter_w,
            scroll_x,
            text_w: area.width.saturating_sub(gutter_w) as usize,
            first_line: match first_line {
                Some(f) => f,
                None => 0,
            },
            line_row,
            window: Ghost(w),
        }
    }

    /// Inclusive `(first, last)` buffer lines on screen, or `None` if none are:
    /// the first buffer line shown and the largest one with a row.
    pub fn visible_lines(&self) -> (r: Option<(usize, usize)>)
        requires
            self.wf(),
        ensures
            r is None <==> first_real(self.rows(), self.rows().len() as int) is None,
            r matches Some((a, b)) ==> {
                &&& first_real(self.rows(), self.rows().len() as int) == Some(a)
                &&& a <= b
                &&& last_row_of(self.rows(), self.rows().len() as int, b) is Some
                &&& forall|l: usize| l > b ==> #[trigger] last_row_of(self.rows(), self.rows().len() as int, l) is None
            },
    {
        if self.line_row.len() == 0 {
            None
        } else {
            let last = self.first_line + (self.line_row.len() - 1);
            proof {
                let k = self.line_row@.len() - 1;
                assert(self.line_row@[k] is Some);
            }
            Some((self.first_line, last))
        }
    }

    /// Absolute screen row of buffer line `line`, or `None` when it is off-screen.
    pub fn row_y(&self, line: usize) -> (r: Option<u16>)
        requires
            self.wf(),
        ensures
            r == row_y_spec(self.rows(), self.rect(), line),
    {
        proof {
            lemma_last_row_of(self.window@, self.window@.len() as int, line);
        }
        if line < self.first_line {
            return None;
        }
        let k = line - self.first_line;
        if k >= self.line_row.len() {
            return None;
        }
        match self.line_row[k] {
            Some(off) => Some(self.area.y + off),
            None => None,
        }
    }

    /// Absolute screen column of char column `col`, or `None` when it is
    /// scrolled off horizontally.
    pub fn col_x(&self, col: usize) -> (r: Option<u16>)
        requires
            self.wf(),
        ensures
            r == col_x_spec(self.rect(), self.gutter(), self.scroll(), col),
    {
        if col < self.scroll_x {
            return None;
        }
        let vis = col - self.scroll_x;
        if vis < self.text_w {
            Some(self.area.x + self.gutter_w + vis as u16)
        } else {
            None
        }
    }

    /// The char columns of `[from, to)` that are on screen: clipped to the
    /// horizontal scroll window.
    pub fn paint_span(&self, from: usize, to: usize) -> (r: (usize, usize))
        requires
            self.wf(),
            self.scroll() + u16::MAX <= usize::MAX,
        ensures
            r == paint_span_spec(self.rect(), self.gutter(), self.scroll(), from, to),
    {
        let lo = if from > self.scroll_x { from } else { self.scroll_x };
        let end = self.scroll_x + self.text_w;
        let hi = if to < end { to } else { end };
        (lo, hi)
    }
}

/// The screen row of buffer line `line` in a viewport of `area` showing
/// `rows`: the last row showing it, unless it lies above the first buffer line
/// shown.
pub open spec fn row_y_spec(rows: Seq<Option<usize>>, area: Rect, line: usize) -> Option<u16> {
    match first_real(rows, rows.len() as int) {
        None => None,
        Some(f) => if line < f {
            None
        } else {
            match last_row_of(rows, rows.len() as int, line) {
                Some(i) => Some((area.y + i) as u16),
                None => None,
            }
        },
    }
}

/// The screen column of char column `col`: past the gutter, counted from the
/// horizontal scroll, when it falls within the text area.
pub open spec fn col_x_spec(area: Rect, gutter_w: u16, scroll_x: usize, col: usize) -> Option<u16> {
    let text_w = if area.width >= gutter_w { area.width - gutter_w } else { 0 };
    if col < scroll_x || col - scroll_x >= text_w {
        None
    } else {
        Some((area.x + gutter_w + (col - scroll_x)) as u16)
    }
}

/// `[from, to)` clipped to the columns on screen.
pub open spec fn paint_span_spec(area: Rect, gutter_w: u16, scroll_x: usize, from: usize, to: usize) -> (usize, usize) {
    let text_w = if area.width >= gutter_w { area.width - gutter_w } else { 0 };
    let end = scroll_x + text_w;
    (if from > scroll_x { from } else { scroll_x }, (if to < end { to as int } else { end }) as usize)
}

/// Screen cell of a cursor within the viewport, or `None` when it is scrolled
/// off. Shared by the caret and the completion popup so they never disagree.
pub fn cursor_screen_pos(vp: &Viewport, line: usize, col: usize) -> (r: Option<(u16, u16)>)
    requires
        vp.wf(),
    ensures
        r == match (col_x_spec(vp.rect(), vp.gutter(), vp.scroll(), col), row_y_spec(vp.rows(), vp.rect(), line)) {
            (Some(x), Some(y)) => Some((x, y)),
            _ => None,
        },
{
    let cy = match vp.row_y(line) {
        Some(y) => y,
        None => return None,
    };
    let cx = match vp.col_x(col) {
        Some(x) => x,
        None => return None,
    };
    Some((cx, cy))
}

} // verus!
