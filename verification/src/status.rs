//! The text of the bottom status bar and of the editor's line numbers.

use vstd::prelude::*;
use crate::chars;
use crate::panel::Focus;

verus! {

/// `number` right-aligned in `num_w` cells, then a space (`{number:>num_w$} `).
pub open spec fn number_label_spec(number: usize, num_w: usize) -> Seq<char> {
    let d = chars::dec_str(number as nat);
    let pad = if num_w > d.len() { num_w - d.len() } else { 0 };
    Seq::new(pad as nat, |i: int| ' ') + d + seq![' ']
}

/// The line-number column text of one editor row.
pub fn line_number_label(number: usize, num_w: usize) -> (r: String)
    ensures
        r@ == number_label_spec(number, num_w),
{
    let d = chars::usize_string(number);
    let n = chars::char_count(d.as_str());
    let pad = if num_w > n { num_w - n } else { 0 };
    let mut s = chars::spaces(pad);
    chars::string_push_str(&mut s, d.as_str());
    chars::string_push(&mut s, ' ');
    s
}

/// Cells of the gutter that hold the number: all but the trailing space and,
/// when the file is tracked, the git marker column.
pub fn number_width(gutter_w: u16, git_on: bool) -> (w: usize)
    ensures
        w == (if gutter_w >= (if git_on { 2int } else { 1int }) { gutter_w - (if git_on { 2int } else { 1int }) } else { 0 }),
{
    (gutter_w as usize).saturating_sub(if git_on { 2 } else { 1 })
}

/// The status bar's name of each focus.
pub open spec fn focus_name_spec(f: Focus) -> Seq<char> {
    match f {
        Focus::Editor => "EDITOR"@,
        Focus::Terminal => "TERMINAL"@,
        Focus::Sidebar => "SIDEBAR"@,
        Focus::SearchInput => "SEARCH"@,
        Focus::GitCommit => "COMMIT"@,
        Focus::Find => "FIND"@,
    }
}

pub fn focus_name(f: Focus) -> (r: &'static str)
    ensures
        r@ == focus_name_spec(f),
{
    match f {
        Focus::Editor => "EDITOR",
        Focus::Terminal => "TERMINAL",
        Focus::Sidebar => "SIDEBAR",
        Focus::SearchInput => "SEARCH",
        Focus::GitCommit => "COMMIT",
        Focus::Find => "FIND",
    }
}

/// What the status bar shows of the active buffer: its cursor (0-based line
/// and column), whether it has unsaved edits, and the selection's length.
#[derive(Clone, Copy, Debug, PartialEq, Eq, Structural)]
pub struct CursorStatus {
    pub line: usize,
    pub col: usize,
    pub dirty: bool,
    pub selected: Option<usize>,
}

/// The right block of the status bar: "Ln L, Col C  " (1-based), "● " when
/// dirty, "Selected: N  " with a selection — all only with an active buffer —
/// then the focus and a space.
pub open spec fn status_right_spec(buf: Option<CursorStatus>, focus: Focus) -> Seq<char> {
    let b = match buf {
        None => Seq::empty(),
        Some(s) => "Ln "@ + chars::dec_str((s.line + 1) as nat) + ", Col "@ + chars::dec_str((s.col + 1) as nat)
            + "  "@ + (if s.dirty { "● "@ } else { Seq::empty() }) + match s.selected {
            Some(n) => "Selected: "@ + chars::dec_str(n as nat) + "  "@,
            None => Seq::empty(),
        },
    };
    b + focus_name_spec(focus) + seq![' ']
}

pub fn status_right(buf: Option<CursorStatus>, focus: Focus) -> (r: String)
    requires
        buf matches Some(s) ==> s.line < usize::MAX && s.col < usize::MAX,
    ensures
        r@ == status_right_spec(buf, focus),
{
    let mut right = String::new();
    if let Some(s) = buf {
        chars::string_push_str(&mut right, "Ln ");
        let l = chars::usize_string(s.line + 1);
        chars::string_push_str(&mut right, l.as_str());
        chars::string_push_str(&mut right, ", Col ");
        let c = chars::usize_string(s.col + 1);
        chars::string_push_str(&mut right, c.as_str());
        chars::string_push_str(&mut right, "  ");
        if s.dirty {
            chars::string_push_str(&mut right, "● ");
        }
        if let Some(n) = s.selected {
            chars::string_push_str(&mut right, "Selected: ");
            let k = chars::usize_string(n);
            chars::string_push_str(&mut right, k.as_str());
            chars::string_push_str(&mut right, "  ");
        }
    }
    chars::string_push_str(&mut right, focus_name(focus));
    chars::string_push(&mut right, ' ');
    proof {
        assert(right@ =~= status_right_spec(buf, focus));
    }
    right
}

/// The badge shown while the leader key is armed, naming its chord; empty
/// otherwise.
pub open spec fn leader_segment_spec(leader: bool, chord: Seq<char>) -> Seq<char> {
    if leader { " LEADER ON · "@ + chord + " → next key "@ } else { Seq::empty() }
}

pub fn leader_segment(leader: bool, chord: &str) -> (r: String)
    ensures
        r@ == leader_segment_spec(leader, chord@),
{
    if leader {
        let mut s = chars::str_to_string(" LEADER ON · ");
        chars::string_push_str(&mut s, chord);
        chars::string_push_str(&mut s, " → next key ");
        s
    } else {
        String::new()
    }
}

/// The left block cut to what the right block (`right_len` cells) leaves of
/// a bar `total` cells wide, and the padding that fills the rest: the right
/// block always wins the space it needs.
pub open spec fn status_fit_spec(total: usize, left: Seq<char>, right_len: usize) -> (Seq<char>, int) {
    let room = if total > right_len { total - right_len } else { 0 };
    let kept = if left.len() < room { left } else { left.take(room) };
    let used = kept.len() + right_len;
    (kept, if total > used { total - used } else { 0 })
}

pub fn status_fit(total: usize, left: &str, right_len: usize) -> (r: (String, usize))
    requires
        right_len + total <= usize::MAX,
    ensures
        (r.0@, r.1 as int) == status_fit_spec(total, left@, right_len),
{
    let v = chars::str_chars(left);
    let room = total.saturating_sub(right_len);
    let n = if v.len() < room { v.len() } else { room };
    let kept = chars::range_string(&v, 0, n);
    proof {
        if v@.len() < room {
            assert(kept@ =~= left@);
        } else {
            assert(kept@ =~= left@.take(room as int));
        }
    }
    let pad = total.saturating_sub(n + right_len);
    (kept, pad)
}

/// `-` right-aligned in `num_w` cells, then a space: the number column of a
/// removed diff row, which has no number in the new file.
pub open spec fn removed_label_spec(num_w: usize) -> Seq<char> {
    let pad = if num_w > 1 { num_w - 1 } else { 0 };
    Seq::new(pad as nat, |i: int| ' ') + "- "@
}

pub fn removed_line_label(num_w: usize) -> (r: String)
    ensures
        r@ == removed_label_spec(num_w),
{
    let pad = if num_w > 1 { num_w - 1 } else { 0 };
    let mut s = chars::spaces(pad);
    chars::string_push_str(&mut s, "- ");
    s
}

/// A line's change in the git gutter.
#[derive(Clone, Copy, Debug, PartialEq, Eq, Structural)]
pub enum GutterMark {
    Added,
    Deleted,
}

/// The git gutter cell of a line: a bar for an added line, a low line for a
/// removed one below it, blank otherwise; plain ASCII when asked.
pub open spec fn gutter_glyph_spec(mark: Option<GutterMark>, ascii_icons: bool) -> Seq<char> {
    match mark {
        Some(GutterMark::Added) => if ascii_icons { "|"@ } else { "▍"@ },
        Some(GutterMark::Deleted) => if ascii_icons { "_"@ } else { "▁"@ },
        None => " "@,
    }
}

pub fn gutter_glyph(mark: Option<GutterMark>, ascii_icons: bool) -> (r: &'static str)
    ensures
        r@ == gutter_glyph_spec(mark, ascii_icons),
{
    match mark {
        Some(GutterMark::Added) => if ascii_icons { "|" } else { "▍" },
        Some(GutterMark::Deleted) => if ascii_icons { "_" } else { "▁" },
        None => " ",
    }
}

/// The git gutter cell of a removed diff row.
pub fn removed_row_glyph(ascii_icons: bool) -> (r: &'static str)
    ensures
        r@ == (if ascii_icons { "-"@ } else { "▁"@ }),
{
    if ascii_icons { "-" } else { "▁" }
}

} // verus!
