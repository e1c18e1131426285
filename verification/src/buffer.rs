//! Rope-based text buffer: cursor, selection, undo/redo, dirty flag.
//!
//! The buffer's text is modelled as `Seq<char>` (see `crate::text`); every
//! public operation states its effect on that text, on the cursor and anchor,
//! and on the undo and redo histories, which are modelled as the sequences of
//! (text, cursor) states that `undo` and `redo` would step back to.

use vstd::prelude::*;
use std::path::PathBuf;
use std::time::Instant;
use ropey::Rope;
use crate::text;
use crate::rope;
use crate::chars;
use crate::clock;
use crate::paste;

verus! {

/// A position within the text (line, column) — both 0-based, in character units.
#[derive(Clone, Copy, Debug, PartialEq, Eq, Structural, PartialOrd, Ord, Default)]
pub struct Cursor {
    pub line: usize,
    pub col: usize,
}

/// `std::path::PathBuf`, an opaque file path.
#[verifier::external_type_specification]
#[verifier::external_body]
pub struct ExPathBuf(PathBuf);

/// The last component of a path as `Path::file_name` gives it, converted
/// lossily to text; `None` when the path has none (it ends in `..`, or is a
/// root).
pub uninterp spec fn path_name(p: PathBuf) -> Option<Seq<char>>;

/// `Path::file_name`, converted lossily to a `String`; named `path_name`.
#[verifier::external_body]
fn path_file_name(p: &PathBuf) -> (r: Option<String>)
    ensures
        match r {
            Some(n) => path_name(*p) == Some(n@),
            None => path_name(*p) is None,
        },
{
    p.file_name().map(|n| n.to_string_lossy().into_owned())
}

/// A single undoable edit: replaces the `before` text with `after` at
/// position `char_idx`. Undo applies these in reverse.
struct Edit {
    char_idx: usize,
    before: String,
    after: String,
    cursor_before: Cursor,
    cursor_after: Cursor,
    /// Time of the last change, used to group consecutive typing.
    stamp: Instant,
    /// Is this edit a pure "typing" edit (consecutive character insertion)?
    typing: bool,
}

pub struct Buffer {
    pub path: Option<PathBuf>,
    pub(crate) rope: Rope,
    pub cursor: Cursor,
    /// Selection anchor. When `Some`, the range between it and the cursor is selected.
    pub anchor: Option<Cursor>,
    /// Topmost visible line of the editor viewport.
    pub scroll_y: usize,
    pub scroll_x: usize,
    pub dirty: bool,
    /// Version that increments on every edit; used to invalidate the highlight cache.
    pub version: u64,
    /// Lowest line index touched since the highlight cache last consumed it.
    /// `usize::MAX` means "no edit since last highlight".
    dirty_from: usize,
    /// Whether any edit since the last highlight spanned more than one line.
    dirty_wide: bool,
    undo_stack: Vec<Edit>,
    redo_stack: Vec<Edit>,
}

// ----- the position model -----

/// The line a cursor refers to, clamped into the text.
pub open spec fn clamp_line(s: Seq<char>, line: int) -> int {
    if line < text::nlines(s) - 1 { line } else { text::nlines(s) - 1 }
}

/// Absolute character index of a cursor, clamped into the text.
pub open spec fn pos_of(s: Seq<char>, c: Cursor) -> int {
    let l = clamp_line(s, c.line as int);
    text::line_start(s, l as nat) + if c.col < text::line_len(s, l) { c.col as int } else { text::line_len(s, l) }
}

/// The cursor at absolute character index `idx` (clamped into the text).
pub open spec fn cursor_at(s: Seq<char>, idx: int) -> Cursor {
    let i = if idx < s.len() { idx } else { s.len() as int };
    let l = text::count_nl(s.take(i));
    Cursor { line: l as usize, col: (i - text::line_start(s, l)) as usize }
}

/// A cursor clamped into the text: line and column both within range.
pub open spec fn clamp_cursor(s: Seq<char>, c: Cursor) -> Cursor {
    let l = clamp_line(s, c.line as int);
    Cursor {
        line: l as usize,
        col: if c.col < text::line_len(s, l) { c.col } else { text::line_len(s, l) as usize },
    }
}

/// Strict (line, column) order of cursors.
pub open spec fn cursor_lt(a: Cursor, b: Cursor) -> bool {
    a.line < b.line || (a.line == b.line && a.col < b.col)
}

/// The selection between `anchor` and `cursor` in sorted order, if non-empty.
pub open spec fn sel_range(cursor: Cursor, anchor: Option<Cursor>) -> Option<(Cursor, Cursor)> {
    match anchor {
        None => None,
        Some(a) => if a == cursor {
            None
        } else if cursor_lt(a, cursor) {
            Some((a, cursor))
        } else {
            Some((cursor, a))
        },
    }
}

// ----- the history model -----

spec fn unapply(e: Edit, t: Seq<char>) -> Seq<char> {
    t.take(e.char_idx as int) + e.before@ + t.skip(e.char_idx + e.after@.len())
}

spec fn apply(e: Edit, t: Seq<char>) -> Seq<char> {
    t.take(e.char_idx as int) + e.after@ + t.skip(e.char_idx + e.before@.len())
}

/// Every step of the undo stack can be taken back from text `t`.
spec fn undo_ok(es: Seq<Edit>, t: Seq<char>) -> bool
    decreases es.len(),
{
    if es.len() == 0 {
        true
    } else {
        let e = es.last();
        &&& e.char_idx + e.after@.len() <= t.len()
        &&& t.subrange(e.char_idx as int, e.char_idx + e.after@.len()) == e.after@
        &&& undo_ok(es.drop_last(), unapply(e, t))
    }
}

/// The (text, cursor) states that successive undos from text `t` lead to, last first.
spec fn undo_states(es: Seq<Edit>, t: Seq<char>) -> Seq<(Seq<char>, Cursor)>
    decreases es.len(),
{
    if es.len() == 0 {
        Seq::empty()
    } else {
        let e = es.last();
        undo_states(es.drop_last(), unapply(e, t)).push((unapply(e, t), e.cursor_before))
    }
}

/// Every step of the redo stack can be replayed from text `t`.
spec fn redo_ok(es: Seq<Edit>, t: Seq<char>) -> bool
    decreases es.len(),
{
    if es.len() == 0 {
        true
    } else {
        let e = es.last();
        &&& e.char_idx + e.before@.len() <= t.len()
        &&& t.subrange(e.char_idx as int, e.char_idx + e.before@.len()) == e.before@
        &&& redo_ok(es.drop_last(), apply(e, t))
    }
}

/// The (text, cursor) states that successive redos from text `t` lead to, last first.
spec fn redo_states(es: Seq<Edit>, t: Seq<char>) -> Seq<(Seq<char>, Cursor)>
    decreases es.len(),
{
    if es.len() == 0 {
        Seq::empty()
    } else {
        let e = es.last();
        redo_states(es.drop_last(), apply(e, t)).push((apply(e, t), e.cursor_after))
    }
}

/// Whether a typed character at `next_idx`, `elapsed_ms` after the last undo
/// step, joins that step: the step must be a run of typing that only
/// inserted text, the character must land right where the run ends, and
/// less than 600 ms must have passed.
pub open spec fn merge_spec(
    last_typing: bool,
    last_before_len: int,
    last_idx: int,
    last_after_len: int,
    next_idx: int,
    elapsed_ms: int,
) -> bool {
    last_typing && last_before_len == 0 && last_idx + last_after_len == next_idx && elapsed_ms < 600
}

/// Decides whether consecutive typing merges into the last undo step.
pub fn merges_into(
    last_typing: bool,
    last_before_len: usize,
    last_idx: usize,
    last_after_len: usize,
    next_idx: usize,
    elapsed_ms: u128,
) -> (r: bool)
    ensures
        r == merge_spec(last_typing, last_before_len as int, last_idx as int, last_after_len as int, next_idx as int, elapsed_ms as int),
{
    last_typing && last_before_len == 0 && last_idx <= next_idx && next_idx - last_idx == last_after_len && elapsed_ms < 600
}

impl Buffer {
    /// The text the buffer holds.
    pub closed spec fn text(&self) -> Seq<char> {
        rope::rope_text(self.rope)
    }

    /// The cursor (public field `cursor`).
    pub closed spec fn cur(&self) -> Cursor {
        self.cursor
    }

    /// The selection anchor (public field `anchor`).
    pub closed spec fn anc(&self) -> Option<Cursor> {
        self.anchor
    }

    /// The edit counter (public field `version`).
    pub closed spec fn ver(&self) -> u64 {
        self.version
    }

    /// The unsaved-changes flag (public field `dirty`).
    pub closed spec fn is_dirty(&self) -> bool {
        self.dirty
    }

    /// The viewport's top line and left column (public fields `scroll_y`, `scroll_x`).
    pub closed spec fn scroll(&self) -> (usize, usize) {
        (self.scroll_y, self.scroll_x)
    }

    /// The file the buffer belongs to (public field `path`).
    pub closed spec fn file(&self) -> Option<PathBuf> {
        self.path
    }

    /// The undo and redo stacks are consistent with the text.
    pub closed spec fn wf(&self) -> bool {
        undo_ok(self.undo_stack@, self.text()) && redo_ok(self.redo_stack@, self.text())
    }

    /// The states successive `undo` calls restore, the next one last.
    pub closed spec fn undo_history(&self) -> Seq<(Seq<char>, Cursor)> {
        undo_states(self.undo_stack@, self.text())
    }

    /// The states successive `redo` calls restore, the next one last.
    pub closed spec fn redo_history(&self) -> Seq<(Seq<char>, Cursor)> {
        redo_states(self.redo_stack@, self.text())
    }

    /// The pending re-highlight range: (lowest touched line, any multi-line edit).
    pub closed spec fn dirty_range(&self) -> (usize, bool) {
        (self.dirty_from, self.dirty_wide)
    }

    /// Where the run of typing that the last undo step records ends, when the
    /// last step is such a run (a typed character may extend it).
    pub closed spec fn typing_tail(&self) -> Option<int> {
        let n = self.undo_stack@.len();
        if n > 0 && self.undo_stack@[n - 1].typing {
            let e = self.undo_stack@[n - 1];
            Some(e.char_idx + e.after@.len())
        } else {
            None
        }
    }

    /// The cursor the last undo step leaves behind (the one a redo of it
    /// restores); `None` with nothing to undo.
    pub closed spec fn undo_cursor_after(&self) -> Option<Cursor> {
        let n = self.undo_stack@.len();
        if n > 0 {
            Some(self.undo_stack@[n - 1].cursor_after)
        } else {
            None
        }
    }

    /// The non-empty selection, in sorted order.
    pub open spec fn selection(&self) -> Option<(Cursor, Cursor)> {
        sel_range(self.cur(), self.anc())
    }

    /// Character indices of the selection's start and end (both the cursor's
    /// index when nothing is selected).
    pub open spec fn sel_bounds(&self) -> (int, int) {
        match self.selection() {
            Some((a, b)) => (pos_of(self.text(), a), pos_of(self.text(), b)),
            None => (pos_of(self.text(), self.cur()), pos_of(self.text(), self.cur())),
        }
    }

    /// The selection (if any) starts no later in the text than it ends (true
    /// whenever the cursor and anchor lie within the text: see
    /// `lemma_sel_ok_in_text`).
    pub open spec fn sel_ok(&self) -> bool {
        match self.selection() {
            None => true,
            Some((a, b)) => pos_of(self.text(), a) <= pos_of(self.text(), b),
        }
    }

    pub fn new(path: Option<PathBuf>, text: &str) -> (b: Self)
        ensures
            b.text() == text@,
            b.file() == path,
            b.cur() == (Cursor { line: 0, col: 0 }),
            b.anc() is None,
            b.scroll() == (0usize, 0usize),
            !b.is_dirty(),
            b.ver() == 0,
            b.dirty_range() == (0usize, false),
            b.undo_history().len() == 0,
            b.redo_history().len() == 0,
            b.wf(),
    {
        Buffer {
            path,
            rope: rope::rope_from_str(text),
            cursor: Cursor { line: 0, col: 0 },
            anchor: None,
            scroll_y: 0,
            scroll_x: 0,
            dirty: false,
            version: 0,
            dirty_from: 0,
            dirty_wide: false,
            undo_stack: Vec::new(),
            redo_stack: Vec::new(),
        }
    }

    /// An empty, unnamed buffer.
    pub fn scratch() -> (b: Self)
        ensures
            b.text() == Seq::<char>::empty(),
            b.file() is None,
            b.cur() == (Cursor { line: 0, col: 0 }),
            b.anc() is None,
            !b.is_dirty(),
            b.ver() == 0,
            b.undo_history().len() == 0,
            b.redo_history().len() == 0,
            b.wf(),
    {
        proof {
            reveal_strlit("");
        }
        Buffer::new(None, "")
    }

    /// Returns `(lowest changed line, wide?)` since the last call, then resets to
    /// "clean". `usize::MAX` means nothing changed.
    pub fn take_dirty(&mut self) -> (r: (usize, bool))
        ensures
            r == old(self).dirty_range(),
            final(self).dirty_range() == (usize::MAX, false),
            final(self).text() == old(self).text(),
            final(self).wf() == old(self).wf(),
            final(self).undo_history() == old(self).undo_history(),
            final(self).redo_history() == old(self).redo_history(),
            final(self).cur() == old(self).cur(),
            final(self).anc() == old(self).anc(),
            final(self).ver() == old(self).ver(),
            final(self).is_dirty() == old(self).is_dirty(),
    {
        let from = self.dirty_from;
        let wide = self.dirty_wide;
        self.dirty_from = usize::MAX;
        self.dirty_wide = false;
        (from, wide)
    }

    /// The file name of the buffer's path, or "untitled" for an unnamed buffer.
    pub fn display_name(&self) -> (r: String)
        ensures
            r@ == match self.file() {
                Some(p) => match path_name(p) {
                    Some(n) => n,
                    None => "untitled"@,
                },
                None => "untitled"@,
            },
    {
        let name = match &self.path {
            Some(p) => path_file_name(p),
            None => None,
        };
        match name {
            Some(n) => n,
            None => {
                let r = chars::str_to_string("untitled");
                r
            },
        }
    }

    pub fn line_count(&self) -> (n: usize)
        ensures
            n == text::nlines(self.text()),
    {
        let n = rope::rope_len_lines(&self.rope);
        if n < 1 { 1 } else { n }
    }

    /// Character length of the given line (excluding the line ending).
    pub fn line_len(&self, line: usize) -> (n: usize)
        ensures
            n == text::line_len(self.text(), line as int),
    {
        let nl = rope::rope_len_lines(&self.rope);
        if line >= nl {
            return 0;
        }
        let ghost s = self.text();
        proof {
            text::lemma_line(s, line as nat);
            if line + 1 < nl {
                text::lemma_line(s, (line + 1) as nat);
            }
        }
        let start = rope::rope_line_to_char(&self.rope, line);
        let end = rope::rope_line_to_char(&self.rope, line + 1);
        let ghost raw = s.subrange(start as int, end as int);
        assert(raw == text::raw_line(s, line as nat));
        let mut len = end - start;
        assert(raw.take(len as int) =~= raw);
        while len > 0
            invariant_except_break
                start <= end <= s.len(),
                s == self.text(),
                raw == s.subrange(start as int, end as int),
                len <= end - start,
                text::trim_eol(raw) == text::trim_eol(raw.take(len as int)),
            ensures
                text::trim_eol(raw).len() == len,
            decreases len,
        {
            let c = rope::rope_char(&self.rope, start + len - 1);
            if c == '\n' || c == '\r' {
                assert(raw.take(len as int).drop_last() =~= raw.take(len - 1));
                len -= 1;
            } else {
                break;
            }
        }
        len
    }

    /// Character length of the longest line, excluding line endings.
    pub fn max_line_len(&self) -> (n: usize)
        ensures
            n == max_len_upto(self.text(), text::nlines(self.text()) as int),
    {
        let count = self.line_count();
        let mut best: usize = 0;
        let mut line: usize = 0;
        while line < count
            invariant
                count == text::nlines(self.text()),
                line <= count,
                best == max_len_upto(self.text(), line as int),
            decreases count - line,
        {
            let l = self.line_len(line);
            if l > best {
                best = l;
            }
            line += 1;
        }
        best
    }

    pub fn line_text(&self, line: usize) -> (r: String)
        ensures
            r@ == text::line_text(self.text(), line as int),
    {
        let nl = rope::rope_len_lines(&self.rope);
        if line >= nl {
            return String::new();
        }
        proof {
            text::lemma_line(self.text(), line as nat);
            text::lemma_line_text(self.text(), line as nat);
        }
        let _n = rope::rope_len_chars(&self.rope);
        let len = self.line_len(line);
        let start = rope::rope_line_to_char(&self.rope, line);
        rope::rope_slice_string(&self.rope, start, start + len)
    }

    pub fn full_text(&self) -> (r: String)
        ensures
            r@ == self.text(),
    {
        rope::rope_to_string(&self.rope)
    }

    /// The kind of terminator line `line` ends with (see `text::ending_kind`).
    fn ending_kind_at(&self, line: usize) -> (k: u8)
        ensures
            k as int == text::ending_kind(self.text(), line as int),
    {
        let nl = rope::rope_len_lines(&self.rope);
        if line >= nl {
            return 0;
        }
        let ghost s = self.text();
        proof {
            text::lemma_line(s, line as nat);
            if line + 1 < nl {
                text::lemma_line(s, (line + 1) as nat);
            }
        }
        let start = rope::rope_line_to_char(&self.rope, line);
        let end = rope::rope_line_to_char(&self.rope, line + 1);
        let ghost raw = s.subrange(start as int, end as int);
        assert(raw == text::raw_line(s, line as nat));
        let n = end - start;
        if n == 0 || rope::rope_char(&self.rope, end - 1) != '\n' {
            0
        } else if n >= 2 && rope::rope_char(&self.rope, end - 2) == '\r' {
            2
        } else {
            1
        }
    }

    /// Returns the document's line-ending style ("CRLF", "LF" or "Mixed"), or an
    /// empty string when the document has no line breaks.
    pub fn line_ending_label(&self) -> (r: &'static str)
        ensures
            r@ == ending_label(self.text()),
    {
        let ghost s = self.text();
        let nl = rope::rope_len_lines(&self.rope);
        let mut detected: u8 = 0;
        let mut line: usize = 0;
        while line < nl
            invariant
                s == self.text(),
                nl == text::nlines(s),
                line <= nl,
                detected <= 2,
                detected == 0 ==> forall|k: int| 0 <= k < line ==> text::ending_kind(s, k) == 0,
                detected != 0 ==> exists|k: int| 0 <= k < line && text::ending_kind(s, k) == detected,
                detected != 0 ==> forall|k: int|
                    0 <= k < line ==> text::ending_kind(s, k) == 0 || text::ending_kind(s, k) == detected,
            decreases nl - line,
        {
            let kind = self.ending_kind_at(line);
            if kind != 0 {
                if detected != 0 && detected != kind {
                    proof {
                        let w = choose|k: int| 0 <= k < line && text::ending_kind(s, k) == detected;
                        assert(has_ending(s, detected as int));
                        assert(text::ending_kind(s, line as int) == kind);
                        assert(has_ending(s, kind as int));
                    }
                    return "Mixed";
                }
                detected = kind;
            }
            line += 1;
        }
        proof {
            if detected != 0 {
                let w = choose|k: int| 0 <= k < line && text::ending_kind(s, k) == detected;
                assert(has_ending(s, detected as int));
            }
            if has_ending(s, 1) {
                let w = choose|k: int| 0 <= k < text::nlines(s) && text::ending_kind(s, k) == 1;
                assert(text::ending_kind(s, w) == 1);
            }
            if has_ending(s, 2) {
                let w = choose|k: int| 0 <= k < text::nlines(s) && text::ending_kind(s, k) == 2;
                assert(text::ending_kind(s, w) == 2);
            }
        }
        if detected == 2 {
            "CRLF"
        } else if detected == 1 {
            "LF"
        } else {
            ""
        }
    }

    /// The terminator that ends `line`: `"\r\n"`, `"\n"`, or `""` for the final
    /// line (or one past the end).
    fn line_ending(&self, line: usize) -> (r: &'static str)
        ensures
            r@ == text::line_ending(self.text(), line as int),
    {
        let k = self.ending_kind_at(line);
        proof {
            reveal_strlit("\r\n");
            reveal_strlit("\n");
            reveal_strlit("");
        }
        if k == 2 {
            "\r\n"
        } else if k == 1 {
            "\n"
        } else {
            ""
        }
    }

    /// The line break to insert on `line`: its own terminator, or — for the
    /// unterminated last line — the one of the line above, so a CRLF file stays
    /// CRLF. Falls back to `"\n"`.
    fn newline_for(&self, line: usize) -> (r: &'static str)
        ensures
            r@ == newline_for_spec(self.text(), line as int),
    {
        let k = self.ending_kind_at(line);
        proof {
            reveal_strlit("\r\n");
            reveal_strlit("\n");
        }
        if k == 0 {
            if line >= 1 && self.ending_kind_at(line - 1) == 2 {
                "\r\n"
            } else {
                "\n"
            }
        } else if k == 2 {
            "\r\n"
        } else {
            "\n"
        }
    }

    /// Absolute character index of the cursor (for find/replace positioning).
    pub fn cursor_char_index(&self) -> (r: usize)
        ensures
            r == pos_of(self.text(), self.cur()),
    {
        self.cursor_to_char(self.cursor)
    }

    fn cursor_to_char(&self, c: Cursor) -> (r: usize)
        ensures
            r == pos_of(self.text(), c),
            r <= self.text().len(),
    {
        let nl = rope::rope_len_lines(&self.rope);
        let line = if c.line < nl - 1 { c.line } else { nl - 1 };
        proof {
            text::lemma_line(self.text(), line as nat);
            text::lemma_line_text(self.text(), line as nat);
        }
        let _n = rope::rope_len_chars(&self.rope);
        let line_start = rope::rope_line_to_char(&self.rope, line);
        let max_col = self.line_len(line);
        line_start + if c.col < max_col { c.col } else { max_col }
    }

    fn char_to_cursor(&self, idx: usize) -> (c: Cursor)
        ensures
            c == cursor_at(self.text(), idx as int),
    {
        let len = rope::rope_len_chars(&self.rope);
        let idx = if idx < len { idx } else { len };
        proof {
            text::lemma_pos_line(self.text(), idx as int);
        }
        let line = rope::rope_char_to_line(&self.rope, idx);
        let line_start = rope::rope_line_to_char(&self.rope, line);
        Cursor { line, col: idx - line_start }
    }

    // ----- LSP position conversion (UTF-16 code units <-> char columns) -----

    /// Char column within a line -> UTF-16 code-unit offset (outgoing to LSP).
    pub fn char_col_to_utf16(&self, line: usize, col: usize) -> (r: u32)
        ensures
            line >= text::nlines(self.text()) ==> r == 0,
            line < text::nlines(self.text()) ==> r == (text::utf16_len(
                text::line_text(self.text(), line as int).take(
                    if col < text::line_len(self.text(), line as int) { col as int } else { text::line_len(self.text(), line as int) },
                ),
            ) as u32),
    {
        let nl = rope::rope_len_lines(&self.rope);
        if line >= nl {
            return 0;
        }
        let ghost s = self.text();
        proof {
            text::lemma_line(s, line as nat);
            text::lemma_line_text(s, line as nat);
        }
        let _len = rope::rope_len_chars(&self.rope);
        let max_col = self.line_len(line);
        let col = if col < max_col { col } else { max_col };
        let start = rope::rope_line_to_char(&self.rope, line);
        proof {
            text::lemma_utf16_take_mono(s, start as int, start + col);
            assert(s.subrange(start as int, start + col) =~= text::line_text(s, line as int).take(col as int));
        }
        let a = rope::rope_char_to_utf16(&self.rope, start + col);
        let b = rope::rope_char_to_utf16(&self.rope, start);
        (a - b) as u32
    }

    /// UTF-16 code-unit offset within a line -> char column (incoming from LSP),
    /// clamped to the line's content length.
    #[verifier::rlimit(30)]
    pub fn utf16_to_char_col(&self, line: usize, utf16: u32) -> (col: usize)
        ensures
            line >= text::nlines(self.text()) ==> col == 0,
            line < text::nlines(self.text()) ==> is_utf16_col(
                text::line_text(self.text(), line as int),
                utf16 as int,
                col as int,
            ),
    {
        let nl = rope::rope_len_lines(&self.rope);
        if line >= nl {
            return 0;
        }
        let ghost s = self.text();
        proof {
            text::lemma_line(s, line as nat);
            text::lemma_line_text(s, line as nat);
        }
        let _len = rope::rope_len_chars(&self.rope);
        let max_col = self.line_len(line);
        let start = rope::rope_line_to_char(&self.rope, line);
        let ghost t = text::line_text(s, line as int);
        proof {
            text::lemma_utf16_take_mono(s, start as int, start + max_col);
            text::lemma_utf16_take_mono(s, start + max_col, s.len() as int);
            assert(s.take(s.len() as int) =~= s);
            assert(s.subrange(start as int, start + max_col) =~= t);
        }
        let base = rope::rope_char_to_utf16(&self.rope, start);
        let top = rope::rope_char_to_utf16(&self.rope, start + max_col);
        let max_u16 = top - base;
        let u = if (utf16 as usize) < max_u16 { utf16 as usize } else { max_u16 };
        let abs = rope::rope_utf16_to_char(&self.rope, base + u);
        proof {
            if abs < start {
                text::lemma_utf16_take_mono(s, abs + 1, start as int);
            }
        }
        let c = abs - start;
        let r = if c < max_col { c } else { max_col };
        assert(max_u16 == text::utf16_len(t));
        assert(t.len() == max_col);
        proof {
            text::lemma_utf16_take_mono(s, start as int, abs as int);
            if r < max_col {
                text::lemma_utf16_take_mono(s, start as int, abs + 1);
                assert(s.subrange(start as int, abs + 1) =~= t.take(r + 1));
                assert(s.subrange(start as int, abs as int) =~= t.take(r as int));
                assert(text::utf16_len(s.take(abs as int)) <= base + u);
                assert(text::utf16_len(t.take(r as int)) <= u);
            } else {
                assert(t.take(r as int) =~= t);
                assert(text::utf16_len(t.take(r as int)) == max_u16);
                text::lemma_utf16_take_mono(s, start + max_col, abs as int);
                if c == max_col {
                    assert(s.subrange(start as int, abs as int) =~= t.take(r as int));
                }
            }
            assert(text::utf16_len(t.take(r as int)) <= u);
            assert(r < t.len() ==> u < text::utf16_len(t.take(r + 1)));
        }
        r
    }

    /// Absolute char index of an LSP position (line + UTF-16 character). Clamps a
    /// past-the-end line to the document end (LSP edits can target EOF).
    pub fn lsp_pos_to_char(&self, line: usize, utf16: u32) -> (r: usize)
        ensures
            line >= text::nlines(self.text()) ==> r == self.text().len(),
            line < text::nlines(self.text()) ==> is_utf16_col(
                text::line_text(self.text(), line as int),
                utf16 as int,
                r - text::line_start(self.text(), line as nat),
            ),
    {
        let nl = rope::rope_len_lines(&self.rope);
        if line >= nl {
            return rope::rope_len_chars(&self.rope);
        }
        proof {
            text::lemma_line(self.text(), line as nat);
            text::lemma_line_text(self.text(), line as nat);
        }
        let _len = rope::rope_len_chars(&self.rope);
        rope::rope_line_to_char(&self.rope, line) + self.utf16_to_char_col(line, utf16)
    }

    // ----- Selection -----

    /// The selection's (start, end) cursors in sorted order.
    pub fn selection_range(&self) -> (r: Option<(Cursor, Cursor)>)
        ensures
            r == self.selection(),
    {
        let a = match self.anchor {
            Some(a) => a,
            None => return None,
        };
        if a == self.cursor {
            return None;
        }
        if cursor_less(a, self.cursor) {
            Some((a, self.cursor))
        } else {
            Some((self.cursor, a))
        }
    }

    pub fn selected_text(&self) -> (r: Option<String>)
        requires
            self.sel_ok(),
        ensures
            r is Some <==> self.selection() is Some,
            r matches Some(t) ==> t@ == self.text().subrange(
                self.sel_bounds().0,
                self.sel_bounds().1,
            ),
    {
        let (start, end) = match self.selection_range() {
            Some(p) => p,
            None => return None,
        };
        let s = self.cursor_to_char(start);
        let e = self.cursor_to_char(end);
        Some(rope::rope_slice_string(&self.rope, s, e))
    }

    /// Number of chars in the selection, without copying it out.
    pub fn selected_char_count(&self) -> (r: Option<usize>)
        requires
            self.sel_ok(),
        ensures
            r is Some <==> self.selection() is Some,
            r matches Some(n) ==> n == self.sel_bounds().1 - self.sel_bounds().0,
    {
        let (start, end) = match self.selection_range() {
            Some(p) => p,
            None => return None,
        };
        Some(self.cursor_to_char(end) - self.cursor_to_char(start))
    }

    pub fn clear_selection(&mut self)
        ensures
            final(self).anc() is None,
            final(self).cur() == old(self).cur(),
            final(self).text() == old(self).text(),
            final(self).wf() == old(self).wf(),
            final(self).undo_history() == old(self).undo_history(),
            final(self).redo_history() == old(self).redo_history(),
            final(self).ver() == old(self).ver(),
    {
        self.anchor = None;
    }

    /// `self` is `other` unchanged.
    pub closed spec fn unchanged_from(&self, other: &Self) -> bool {
        self.same_but_caret(other) && self.cursor == other.cursor && self.anchor == other.anchor
    }

    /// `other` and `self` differ at most in cursor and anchor.
    pub closed spec fn same_but_caret(&self, other: &Self) -> bool {
        &&& self.rope == other.rope
        &&& self.undo_stack@ == other.undo_stack@
        &&& self.redo_stack@ == other.redo_stack@
        &&& self.version == other.version
        &&& self.dirty == other.dirty
        &&& self.dirty_from == other.dirty_from
        &&& self.dirty_wide == other.dirty_wide
        &&& self.path == other.path
        &&& self.scroll_y == other.scroll_y
        &&& self.scroll_x == other.scroll_x
    }

    /// What `same_but_caret` keeps, as the public views state it.
    pub proof fn lemma_same_but_caret(&self, other: &Self)
        requires
            self.same_but_caret(other),
        ensures
            self.text() == other.text(),
            self.ver() == other.ver(),
            self.is_dirty() == other.is_dirty(),
            self.scroll() == other.scroll(),
            self.file() == other.file(),
            self.wf() == other.wf(),
            self.undo_history() == other.undo_history(),
            self.redo_history() == other.redo_history(),
            self.dirty_range() == other.dirty_range(),
            self.typing_tail() == other.typing_tail(),
            self.undo_cursor_after() == other.undo_cursor_after(),
    {
    }

    /// What `unchanged_from` keeps, as the public views state it: everything.
    pub proof fn lemma_unchanged_from(&self, other: &Self)
        requires
            self.unchanged_from(other),
        ensures
            self.same_but_caret(other),
            self.text() == other.text(),
            self.cur() == other.cur(),
            self.anc() == other.anc(),
            self.ver() == other.ver(),
            self.is_dirty() == other.is_dirty(),
            self.scroll() == other.scroll(),
            self.file() == other.file(),
            self.wf() == other.wf(),
            self.undo_history() == other.undo_history(),
            self.redo_history() == other.redo_history(),
            self.dirty_range() == other.dirty_range(),
            self.typing_tail() == other.typing_tail(),
            self.undo_cursor_after() == other.undo_cursor_after(),
    {
        self.lemma_same_but_caret(other);
    }

    /// Selection handling before a move: when `extend` is true the anchor is kept.
    fn pre_move(&mut self, extend: bool)
        ensures
            final(self).anchor == moved_anchor(old(self).cursor, old(self).anchor, extend),
            final(self).cursor == old(self).cursor,
            final(self).same_but_caret(old(self)),
    {
        if extend {
            if self.anchor.is_none() {
                self.anchor = Some(self.cursor);
            }
        } else {
            self.anchor = None;
        }
    }

    // ----- Cursor movements -----

    pub fn move_left(&mut self, extend: bool)
        ensures
            final(self).same_but_caret(old(self)),
            final(self).anc() == moved_anchor(old(self).cur(), old(self).anc(), extend),
            final(self).cur() == if old(self).cur().col > 0 {
                Cursor { line: old(self).cur().line, col: (old(self).cur().col - 1) as usize }
            } else if old(self).cur().line > 0 {
                Cursor {
                    line: (old(self).cur().line - 1) as usize,
                    col: text::line_len(old(self).text(), old(self).cur().line - 1) as usize,
                }
            } else {
                old(self).cur()
            },
    {
        self.pre_move(extend);
        if self.cursor.col > 0 {
            self.cursor.col = self.cursor.col - 1;
        } else if self.cursor.line > 0 {
            self.cursor.line = self.cursor.line - 1;
            self.cursor.col = self.line_len(self.cursor.line);
        }
    }

    pub fn move_right(&mut self, extend: bool)
        requires
            old(self).cur().line < usize::MAX,
        ensures
            final(self).same_but_caret(old(self)),
            final(self).anc() == moved_anchor(old(self).cur(), old(self).anc(), extend),
            final(self).cur() == if old(self).cur().col < text::line_len(old(self).text(), old(self).cur().line as int) {
                Cursor { line: old(self).cur().line, col: (old(self).cur().col + 1) as usize }
            } else if old(self).cur().line + 1 < text::nlines(old(self).text()) {
                Cursor { line: (old(self).cur().line + 1) as usize, col: 0 }
            } else {
                old(self).cur()
            },
    {
        self.pre_move(extend);
        let len = self.line_len(self.cursor.line);
        if self.cursor.col < len {
            self.cursor.col = self.cursor.col + 1;
        } else if self.cursor.line + 1 < self.line_count() {
            self.cursor.line = self.cursor.line + 1;
            self.cursor.col = 0;
        }
    }

    pub fn move_up(&mut self, extend: bool)
        ensures
            final(self).same_but_caret(old(self)),
            final(self).anc() == moved_anchor(old(self).cur(), old(self).anc(), extend),
            final(self).cur() == if old(self).cur().line > 0 {
                Cursor {
                    line: (old(self).cur().line - 1) as usize,
                    col: min_col(old(self).cur().col, text::line_len(old(self).text(), old(self).cur().line - 1)),
                }
            } else {
                Cursor { line: old(self).cur().line, col: 0 }
            },
    {
        self.pre_move(extend);
        if self.cursor.line > 0 {
            self.cursor.line = self.cursor.line - 1;
            let len = self.line_len(self.cursor.line);
            self.cursor.col = if self.cursor.col < len { self.cursor.col } else { len };
        } else {
            self.cursor.col = 0;
        }
    }

    pub fn move_down(&mut self, extend: bool)
        requires
            old(self).cur().line < usize::MAX,
        ensures
            final(self).same_but_caret(old(self)),
            final(self).anc() == moved_anchor(old(self).cur(), old(self).anc(), extend),
            final(self).cur() == if old(self).cur().line + 1 < text::nlines(old(self).text()) {
                Cursor {
                    line: (old(self).cur().line + 1) as usize,
                    col: min_col(old(self).cur().col, text::line_len(old(self).text(), old(self).cur().line + 1)),
                }
            } else {
                Cursor {
                    line: old(self).cur().line,
                    col: text::line_len(old(self).text(), old(self).cur().line as int) as usize,
                }
            },
    {
        self.pre_move(extend);
        if self.cursor.line + 1 < self.line_count() {
            self.cursor.line = self.cursor.line + 1;
            let len = self.line_len(self.cursor.line);
            self.cursor.col = if self.cursor.col < len { self.cursor.col } else { len };
        } else {
            self.cursor.col = self.line_len(self.cursor.line);
        }
    }

    /// Smart Home: jumps to the first non-whitespace character. If already there
    /// (or the line has no indent), toggles to column 0.
    pub fn move_home(&mut self, extend: bool)
        ensures
            final(self).same_but_caret(old(self)),
            final(self).anc() == moved_anchor(old(self).cur(), old(self).anc(), extend),
            final(self).cur().line == old(self).cur().line,
            final(self).cur().col == if old(self).cur().col == lead_blank(
                text::line_text(old(self).text(), old(self).cur().line as int),
            ) {
                0
            } else {
                lead_blank(text::line_text(old(self).text(), old(self).cur().line as int))
            },
    {
        self.pre_move(extend);
        let line = self.line_text(self.cursor.line);
        let first = leading_ws(line.as_str());
        self.cursor.col = if self.cursor.col == first { 0 } else { first };
    }

    pub fn move_end(&mut self, extend: bool)
        ensures
            final(self).same_but_caret(old(self)),
            final(self).anc() == moved_anchor(old(self).cur(), old(self).anc(), extend),
            final(self).cur() == (Cursor {
                line: old(self).cur().line,
                col: text::line_len(old(self).text(), old(self).cur().line as int) as usize,
            }),
    {
        self.pre_move(extend);
        self.cursor.col = self.line_len(self.cursor.line);
    }

    /// Moves the cursor left to the previous word boundary (Ctrl+Left).
    /// Skips whitespace, then a run of same-class characters (word vs. symbol).
    pub fn move_word_left(&mut self, extend: bool)
        ensures
            final(self).same_but_caret(old(self)),
            final(self).anc() == moved_anchor(old(self).cur(), old(self).anc(), extend),
            final(self).cur() == cursor_at(
                old(self).text(),
                word_left_pos(old(self).text(), pos_of(old(self).text(), old(self).cur())),
            ),
    {
        self.pre_move(extend);
        let ghost s = self.text();
        let i0 = self.cursor_to_char(self.cursor);
        let mut i = i0;
        while i > 0 && chars::char_is_whitespace(rope::rope_char(&self.rope, i - 1))
            invariant
                s == self.text(),
                i <= i0 <= s.len(),
                skip_ws_back(s, i as int) == skip_ws_back(s, i0 as int),
            decreases i,
        {
            i -= 1;
        }
        if i > 0 {
            let word = is_word_char(rope::rope_char(&self.rope, i - 1));
            let i1 = i;
            while i > 0
                invariant_except_break
                    s == self.text(),
                    i <= i1 <= s.len(),
                    skip_run_back(s, i as int, word) == skip_run_back(s, i1 as int, word),
                ensures
                    i == skip_run_back(s, i1 as int, word),
                decreases i,
            {
                let c = rope::rope_char(&self.rope, i - 1);
                if chars::char_is_whitespace(c) || is_word_char(c) != word {
                    break;
                }
                i -= 1;
            }
        }
        self.cursor = self.char_to_cursor(i);
    }

    /// Moves the cursor right to the next word boundary (Ctrl+Right).
    pub fn move_word_right(&mut self, extend: bool)
        ensures
            final(self).same_but_caret(old(self)),
            final(self).anc() == moved_anchor(old(self).cur(), old(self).anc(), extend),
            final(self).cur() == cursor_at(
                old(self).text(),
                word_right_pos(old(self).text(), pos_of(old(self).text(), old(self).cur())),
            ),
    {
        self.pre_move(extend);
        let ghost s = self.text();
        let len = rope::rope_len_chars(&self.rope);
        let i0 = self.cursor_to_char(self.cursor);
        let mut i = i0;
        while i < len && chars::char_is_whitespace(rope::rope_char(&self.rope, i))
            invariant
                s == self.text(),
                len == s.len(),
                i0 <= i <= len,
                skip_ws_fwd(s, i as int) == skip_ws_fwd(s, i0 as int),
            decreases len - i,
        {
            i += 1;
        }
        if i < len {
            let word = is_word_char(rope::rope_char(&self.rope, i));
            let i1 = i;
            while i < len
                invariant_except_break
                    s == self.text(),
                    len == s.len(),
                    i1 <= i <= len,
                    skip_run_fwd(s, i as int, word) == skip_run_fwd(s, i1 as int, word),
                ensures
                    i == skip_run_fwd(s, i1 as int, word),
                decreases len - i,
            {
                let c = rope::rope_char(&self.rope, i);
                if chars::char_is_whitespace(c) || is_word_char(c) != word {
                    break;
                }
                i += 1;
            }
        }
        self.cursor = self.char_to_cursor(i);
    }

    pub fn move_page(&mut self, delta: isize, extend: bool)
        requires
            old(self).cur().line <= isize::MAX,
            isize::MIN <= old(self).cur().line + delta <= isize::MAX,
            text::nlines(old(self).text()) - 1 <= isize::MAX,
        ensures
            final(self).same_but_caret(old(self)),
            final(self).anc() == moved_anchor(old(self).cur(), old(self).anc(), extend),
            final(self).cur() == (Cursor {
                line: page_target(old(self).cur().line + delta, text::nlines(old(self).text()) - 1) as usize,
                col: min_col(
                    old(self).cur().col,
                    text::line_len(
                        old(self).text(),
                        page_target(old(self).cur().line + delta, text::nlines(old(self).text()) - 1),
                    ),
                ),
            }),
    {
        self.pre_move(extend);
        let last = self.line_count() - 1;
        let t = self.cursor.line as isize + delta;
        let target: usize = if t < 0 { 0 } else if t > last as isize { last } else { t as usize };
        self.cursor.line = target;
        let len = self.line_len(self.cursor.line);
        self.cursor.col = if self.cursor.col < len { self.cursor.col } else { len };
    }

    pub fn select_all(&mut self)
        ensures
            final(self).same_but_caret(old(self)),
            final(self).anc() == Some(Cursor { line: 0, col: 0 }),
            final(self).cur() == (Cursor {
                line: (text::nlines(old(self).text()) - 1) as usize,
                col: text::line_len(old(self).text(), text::nlines(old(self).text()) - 1) as usize,
            }),
    {
        self.anchor = Some(Cursor { line: 0, col: 0 });
        let last = self.line_count() - 1;
        self.cursor = Cursor { line: last, col: self.line_len(last) };
    }

    /// Selects the word (identifier run) at the given position. No-op when there
    /// is no word character to select there. Used by editor double-click.
    pub fn select_word_at(&mut self, c: Cursor)
        ensures
            final(self).same_but_caret(old(self)),
            ({
                let s = old(self).text();
                let line = clamp_line(s, c.line as int);
                let t = text::line_text(s, line);
                let col = if c.col < t.len() { c.col as int } else { t.len() as int };
                if col < t.len() && is_word(t[col]) {
                    &&& final(self).anc() == Some(Cursor { line: line as usize, col: word_start(t, col) as usize })
                    &&& final(self).cur() == (Cursor { line: line as usize, col: word_end(t, col) as usize })
                } else {
                    &&& final(self).anc() == old(self).anc()
                    &&& final(self).cur() == old(self).cur()
                }
            }),
    {
        let nl = self.line_count();
        let line = if c.line < nl - 1 { c.line } else { nl - 1 };
        let s = self.line_text(line);
        let text = chars::str_chars(s.as_str());
        let len = text.len();
        let col = if c.col < len { c.col } else { len };
        if !(col < len && is_word_char(text[col])) {
            return;
        }
        let mut st = col;
        let mut en = col;
        while st > 0 && is_word_char(text[st - 1])
            invariant
                st <= col < len == text@.len(),
                word_start(text@, st as int) == word_start(text@, col as int),
            decreases st,
        {
            st -= 1;
        }
        while en < len && is_word_char(text[en])
            invariant
                col <= en <= len == text@.len(),
                word_end(text@, en as int) == word_end(text@, col as int),
            decreases len - en,
        {
            en += 1;
        }
        if st == en {
            return;
        }
        self.anchor = Some(Cursor { line, col: st });
        self.cursor = Cursor { line, col: en };
    }

    /// Selects the character range [start, end) given in absolute character
    /// indices (used to highlight a find match). Clamps into the text.
    pub fn select_char_range(&mut self, start: usize, end: usize)
        ensures
            final(self).same_but_caret(old(self)),
            final(self).anc() == Some(cursor_at(old(self).text(), start as int)),
            final(self).cur() == cursor_at(old(self).text(), end as int),
    {
        self.anchor = Some(self.char_to_cursor(start));
        self.cursor = self.char_to_cursor(end);
    }

    pub fn set_cursor(&mut self, c: Cursor, extend: bool)
        ensures
            final(self).same_but_caret(old(self)),
            final(self).anc() == moved_anchor(old(self).cur(), old(self).anc(), extend),
            final(self).cur() == clamp_cursor(old(self).text(), c),
    {
        self.pre_move(extend);
        let nl = self.line_count();
        let line = if c.line < nl - 1 { c.line } else { nl - 1 };
        let len = self.line_len(line);
        self.cursor = Cursor { line, col: if c.col < len { c.col } else { len } };
    }

    /// Moves the cursor to the start of the given line (for search results / goto).
    pub fn goto_line(&mut self, line: usize)
        ensures
            final(self).same_but_caret(old(self)),
            final(self).anc() is None,
            final(self).cur() == (Cursor { line: clamp_line(old(self).text(), line as int) as usize, col: 0 }),
    {
        self.anchor = None;
        let nl = self.line_count();
        let line = if line < nl - 1 { line } else { nl - 1 };
        self.cursor = Cursor { line, col: 0 };
    }

    // ----- Editing -----

    /// The text after the selection (if any) is deleted.
    pub open spec fn del_text(&self) -> Seq<char> {
        match self.selection() {
            Some(_) => self.text().take(self.sel_bounds().0) + self.text().skip(self.sel_bounds().1),
            None => self.text(),
        }
    }

    /// The cursor after the selection (if any) is deleted: its start.
    pub open spec fn del_cursor(&self) -> Cursor {
        match self.selection() {
            Some((a, _)) => a,
            None => self.cur(),
        }
    }

    /// The anchor after the selection (if any) is deleted.
    pub open spec fn del_anchor(&self) -> Option<Cursor> {
        match self.selection() {
            Some(_) => None,
            None => self.anc(),
        }
    }

    /// The undo history after the selection (if any) is deleted.
    pub open spec fn del_history(&self) -> Seq<(Seq<char>, Cursor)> {
        match self.selection() {
            Some(_) => self.undo_history().push((self.text(), self.cur())),
            None => self.undo_history(),
        }
    }

    /// Undo steps the selection deletion records: 1 with a selection, else 0.
    pub open spec fn del_steps(&self) -> int {
        if self.selection() is Some { 1 } else { 0 }
    }

    /// `self` is `old` edited: same path and scroll, and the re-highlight range
    /// only grew, reaching at least the line of index `idx` of the new text.
    pub closed spec fn edited_from(&self, old: &Self, idx: int) -> bool {
        &&& self.path == old.path
        &&& self.scroll_y == old.scroll_y
        &&& self.scroll_x == old.scroll_x
        &&& self.dirty_from <= old.dirty_from
        &&& self.dirty_from <= text::count_nl(self.text().take(if idx < self.text().len() { idx } else { self.text().len() as int }))
        &&& (old.dirty_wide ==> self.dirty_wide)
    }

    /// What `edited_from` states, as the public views state it.
    pub proof fn lemma_edited_from(&self, old: &Self, idx: int)
        requires
            self.edited_from(old, idx),
        ensures
            self.file() == old.file(),
            self.scroll() == old.scroll(),
            self.dirty_range().0 <= old.dirty_range().0,
            self.dirty_range().0 <= text::count_nl(
                self.text().take(if idx < self.text().len() { idx } else { self.text().len() as int }),
            ),
            old.dirty_range().1 ==> self.dirty_range().1,
    {
    }

    /// Records that the line holding index `char_idx` (and everything below it)
    /// may need re-highlighting.
    fn mark_dirty_from(&mut self, char_idx: usize, wide: bool)
        ensures
            final(self).rope == old(self).rope,
            final(self).undo_stack@ == old(self).undo_stack@,
            final(self).redo_stack@ == old(self).redo_stack@,
            final(self).cursor == old(self).cursor,
            final(self).anchor == old(self).anchor,
            final(self).version == old(self).version,
            final(self).dirty == old(self).dirty,
            final(self).path == old(self).path,
            final(self).scroll_y == old(self).scroll_y,
            final(self).scroll_x == old(self).scroll_x,
            final(self).dirty_wide == (old(self).dirty_wide || wide),
            final(self).dirty_from == if old(self).dirty_from < text::count_nl(
                old(self).text().take(if char_idx < old(self).text().len() { char_idx as int } else { old(self).text().len() as int }),
            ) {
                old(self).dirty_from as int
            } else {
                text::count_nl(
                    old(self).text().take(if char_idx < old(self).text().len() { char_idx as int } else { old(self).text().len() as int }),
                ) as int
            },
    {
        let len = rope::rope_len_chars(&self.rope);
        let idx = if char_idx < len { char_idx } else { len };
        let line = rope::rope_char_to_line(&self.rope, idx);
        if line < self.dirty_from {
            self.dirty_from = line;
        }
        self.dirty_wide = self.dirty_wide || wide;
    }

    /// Records a mutation at `char_idx`: bumps the version, marks the buffer
    /// dirty, and extends the re-highlight range.
    fn bump_version(&mut self, char_idx: usize, wide: bool)
        requires
            old(self).version < u64::MAX,
        ensures
            final(self).rope == old(self).rope,
            final(self).undo_stack@ == old(self).undo_stack@,
            final(self).redo_stack@ == old(self).redo_stack@,
            final(self).cursor == old(self).cursor,
            final(self).anchor == old(self).anchor,
            final(self).version == old(self).version + 1,
            final(self).dirty,
            final(self).edited_from(old(self), char_idx as int),
            final(self).dirty_wide == (old(self).dirty_wide || wide),
    {
        self.dirty = true;
        self.version = self.version + 1;
        self.mark_dirty_from(char_idx, wide);
    }

    /// Records `edit`, whose effect is already in the rope: the undo history
    /// gains the state before it, unless consecutive typing merges it into
    /// the previous step.
    fn push_edit(&mut self, edit: Edit)
        requires
            old(self).version < u64::MAX,
            edit.char_idx + edit.after@.len() <= old(self).text().len(),
            old(self).text().subrange(edit.char_idx as int, edit.char_idx + edit.after@.len()) == edit.after@,
            undo_ok(old(self).undo_stack@, unapply(edit, old(self).text())),
            edit.typing ==> edit.before@.len() == 0,
        ensures
            final(self).rope == old(self).rope,
            final(self).cursor == old(self).cursor,
            final(self).anchor == old(self).anchor,
            final(self).version == old(self).version + 1,
            final(self).dirty,
            final(self).edited_from(old(self), edit.char_idx as int),
            final(self).wf(),
            final(self).redo_history().len() == 0,
            final(self).undo_history() == undo_states(old(self).undo_stack@, unapply(edit, old(self).text())).push(
                (unapply(edit, old(self).text()), edit.cursor_before),
            ) || (edit.typing && old(self).typing_tail() == Some(edit.char_idx as int) && final(self).undo_history()
                == undo_states(old(self).undo_stack@, unapply(edit, old(self).text()))),
            final(self).typing_tail() == if edit.typing { Some(edit.char_idx + edit.after@.len()) } else { None::<int> },
            final(self).undo_cursor_after() == Some(edit.cursor_after),
    {
        let ghost t = self.text();
        let ghost tp = unapply(edit, t);
        let wide = chars::has_newline(edit.before.as_str()) || chars::has_newline(edit.after.as_str());
        self.bump_version(edit.char_idx, wide);
        self.redo_stack = Vec::new();
        let n = self.undo_stack.len();
        if edit.typing && n > 0 {
            let ghost old_stack = self.undo_stack@;
            let last_typing = self.undo_stack[n - 1].typing;
            let last_before = chars::char_count(self.undo_stack[n - 1].before.as_str());
            let last_idx = self.undo_stack[n - 1].char_idx;
            let last_after = chars::char_count(self.undo_stack[n - 1].after.as_str());
            if last_typing && last_before == 0 && last_idx <= edit.char_idx && edit.char_idx - last_idx == last_after {
                let d = clock::instant_duration_since(&edit.stamp, &self.undo_stack[n - 1].stamp);
                let ms = clock::duration_as_millis(&d);
                if merges_into(last_typing, last_before, last_idx, last_after, edit.char_idx, ms) {
                    let mut last = self.undo_stack.pop().unwrap();
                    assert(old_stack.drop_last() == self.undo_stack@);
                    let ghost l0 = last;
                    chars::string_push_str(&mut last.after, edit.after.as_str());
                    last.cursor_after = edit.cursor_after;
                    last.stamp = edit.stamp;
                    proof {
                        let li = l0.char_idx as int;
                        let ei = edit.char_idx as int;
                        let a1 = l0.after@;
                        let a2 = edit.after@;
                        assert(tp =~= t.take(ei) + t.skip(ei + a2.len()));
                        assert(unapply(last, t) =~= unapply(l0, tp));
                        assert(t.subrange(li, li + a1.len() + a2.len()) =~= a1 + a2) by {
                            assert(tp.subrange(li, li + a1.len()) =~= t.subrange(li, ei));
                            assert(t.subrange(ei, ei + a2.len()) == a2);
                        }
                    }
                    self.undo_stack.push(last);
                    proof {
                        assert(self.undo_stack@.drop_last() == old_stack.drop_last());
                    }
                    return;
                }
            }
        }
        self.undo_stack.push(edit);
        proof {
            assert(self.undo_stack@.drop_last() =~= old(self).undo_stack@);
        }
    }

    /// Deletes the selection (if any) and records the edit (merged into a single undo step).
    fn delete_selection_internal(&mut self) -> (r: bool)
        requires
            old(self).wf(),
            old(self).sel_ok(),
            old(self).version < u64::MAX,
        ensures
            r == old(self).selection() is Some,
            final(self).wf(),
            final(self).text() == old(self).del_text(),
            final(self).cursor == old(self).del_cursor(),
            final(self).anchor == if r { None } else { old(self).anchor },
            final(self).undo_history() == old(self).del_history(),
            r ==> final(self).redo_history().len() == 0,
            !r ==> final(self).redo_history() == old(self).redo_history(),
            final(self).version == old(self).version + old(self).del_steps(),
            final(self).dirty == (old(self).dirty || r),
            r ==> final(self).edited_from(old(self), old(self).sel_bounds().0),
            r ==> final(self).typing_tail() is None,
            r ==> final(self).undo_cursor_after() == Some(final(self).cursor),
            !r ==> final(self).same_but_caret(old(self)),
    {
        if let Some((start, end)) = self.selection_range() {
            let ghost t = self.text();
            let s = self.cursor_to_char(start);
            let e = self.cursor_to_char(end);
            let removed = rope::rope_slice_string(&self.rope, s, e);
            let cursor_before = self.cursor;
            rope::rope_remove(&mut self.rope, s, e);
            self.anchor = None;
            self.cursor = start;
            let edit = Edit {
                char_idx: s,
                before: removed,
                after: String::new(),
                cursor_before,
                cursor_after: self.cursor,
                stamp: clock::instant_now(),
                typing: false,
            };
            proof {
                lemma_edit_roundtrip(t, s as int, removed@, Seq::empty());
                assert(self.text() =~= t.take(s as int) + Seq::<char>::empty() + t.skip(s + removed@.len()));
                assert(unapply(edit, self.text()) == t);
            }
            self.push_edit(edit);
            true
        } else {
            false
        }
    }

    pub fn insert_char(&mut self, ch: char)
        requires
            old(self).wf(),
            old(self).sel_ok(),
            old(self).ver() + old(self).del_steps() + 1 <= u64::MAX,
        ensures
            final(self).wf(),
            ({
                let t1 = old(self).del_text();
                let c1 = old(self).del_cursor();
                let i = pos_of(t1, c1);
                &&& final(self).text() == t1.take(i).push(ch) + t1.skip(i)
                &&& final(self).cur() == cursor_at(final(self).text(), i + 1)
                &&& final(self).edited_from(old(self), i)
                &&& (final(self).undo_history() == old(self).del_history().push((t1, c1)) || (!chars::is_ws(ch)
                    && old(self).selection() is None && old(self).typing_tail() == Some(i)
                    && final(self).undo_history() == old(self).del_history()))
                &&& final(self).typing_tail() == if !chars::is_ws(ch) { Some(i + 1) } else { None::<int> }
            }),
            final(self).undo_cursor_after() == Some(final(self).cur()),
            final(self).anc() == old(self).del_anchor(),
            final(self).redo_history().len() == 0,
            final(self).ver() == old(self).ver() + old(self).del_steps() + 1,
            final(self).is_dirty(),
    {
        self.delete_selection_internal();
        let ghost t = self.text();
        let idx = self.cursor_to_char(self.cursor);
        let cursor_before = self.cursor;
        rope::rope_insert_char(&mut self.rope, idx, ch);
        let _len = rope::rope_len_chars(&self.rope);
        self.cursor = self.char_to_cursor(idx + 1);
        let is_word = !chars::char_is_whitespace(ch);
        let mut after = String::new();
        chars::string_push(&mut after, ch);
        let edit = Edit {
            char_idx: idx,
            before: String::new(),
            after,
            cursor_before,
            cursor_after: self.cursor,
            stamp: clock::instant_now(),
            typing: is_word,
        };
        proof {
            assert(t.subrange(idx as int, idx as int) =~= Seq::<char>::empty());
            lemma_edit_roundtrip(t, idx as int, Seq::empty(), after@);
            assert(self.text() =~= t.take(idx as int) + after@ + t.skip(idx as int));
            assert(t.skip(idx + 0) =~= t.skip(idx as int));
            assert(unapply(edit, self.text()) == t);
        }
        self.push_edit(edit);
    }

    pub fn insert_str(&mut self, text: &str)
        requires
            old(self).wf(),
            old(self).sel_ok(),
            old(self).ver() + old(self).del_steps() + 1 <= u64::MAX,
        ensures
            insert_str_post(*old(self), *final(self), text@),

    {
        let char_len = chars::char_count(text);
        if char_len == 0 {
            return;
        }
        self.delete_selection_internal();
        let ghost t = self.text();
        let idx = self.cursor_to_char(self.cursor);
        let cursor_before = self.cursor;
        rope::rope_insert(&mut self.rope, idx, text);
        let _len = rope::rope_len_chars(&self.rope);
        self.cursor = self.char_to_cursor(idx + char_len);
        let edit = Edit {
            char_idx: idx,
            before: String::new(),
            after: chars::str_to_string(text),
            cursor_before,
            cursor_after: self.cursor,
            stamp: clock::instant_now(),
            typing: false,
        };
        proof {
            assert(t.subrange(idx as int, idx as int) =~= Seq::<char>::empty());
            lemma_edit_roundtrip(t, idx as int, Seq::empty(), text@);
            assert(t.skip(idx + 0) =~= t.skip(idx as int));
            assert(unapply(edit, self.text()) == t);
        }
        self.push_edit(edit);
    }

    /// The current line's leading whitespace, clipped at the cursor so pressing
    /// Enter *inside* the indent only carries the part the cursor is past.
    fn indent_at_cursor(&self) -> (r: String)
        ensures
            r@ == indent_of(self.text(), self.cursor),
    {
        let line = self.line_text(self.cursor.line);
        let v = chars::str_chars(line.as_str());
        let n = if self.cursor.col < v.len() { self.cursor.col } else { v.len() };
        let ghost p = v@.take(n as int);
        let mut out = String::new();
        let mut i: usize = 0;
        while i < n && (v[i] == ' ' || v[i] == '\t')
            invariant
                n <= v@.len(),
                p == v@.take(n as int),
                i <= n,
                out@ == p.take(i as int),
                lead_blank_from(p, i as int) == lead_blank(p),
            decreases n - i,
        {
            chars::string_push(&mut out, v[i]);
            assert(p.take(i + 1) =~= p.take(i as int).push(v@[i as int]));
            i += 1;
        }
        out
    }

    /// Inserts a line break, carrying the current line's indentation onto the
    /// new line. The break and the indent are one edit, so undo takes both and
    /// the typing group ends here.
    pub fn insert_newline(&mut self)
        requires
            old(self).wf(),
            old(self).sel_ok(),
            old(self).ver() + old(self).del_steps() + 1 <= u64::MAX,
        ensures
            final(self).wf(),
            ({
                let t1 = old(self).del_text();
                let c1 = old(self).del_cursor();
                let i = pos_of(t1, c1);
                let ins = newline_for_spec(t1, c1.line as int) + indent_of(t1, c1);
                &&& final(self).text() == t1.take(i) + ins + t1.skip(i)
                &&& final(self).cur() == cursor_at(final(self).text(), i + ins.len())
                &&& final(self).undo_history() == old(self).del_history().push((t1, c1))
                &&& final(self).edited_from(old(self), i)
            }),
            final(self).anc() == old(self).del_anchor(),
            final(self).redo_history().len() == 0,
            final(self).ver() == old(self).ver() + old(self).del_steps() + 1,
            final(self).is_dirty(),
            fresh_step(*final(self)),
    {
        self.delete_selection_internal();
        let indent = self.indent_at_cursor();
        let nl = self.newline_for(self.cursor.line);
        let mut s = chars::str_to_string(nl);
        chars::string_push_str(&mut s, indent.as_str());
        self.insert_str(s.as_str());
    }

    /// Inserts an already chosen paste: verbatim when it is a single line,
    /// else after the selection is dropped, re-indented onto the indentation
    /// of the line it lands on (see `paste::reindent_paste`).
    pub fn paste_reindented(&mut self, text: &str)
        requires
            old(self).wf(),
            old(self).sel_ok(),
            old(self).ver() + old(self).del_steps() + 1 <= u64::MAX,
        ensures
            paste_post(*old(self), *final(self), text@),
    {
        if !chars::has_newline(text) {
            self.insert_str(text);
            return;
        }
        // Drop the selection first so the base indent is read from the line the
        // paste actually lands on.
        self.delete_selection_internal();
        let base = self.indent_at_cursor();
        let reindented = paste::reindent_paste(text, base.as_str());
        proof {
            paste::lemma_reindent_nonempty(text@, base@);
        }
        self.insert_str(reindented.as_str());
    }

    /// Inserts pasted text, re-indenting the continuation lines so the block
    /// aligns to the cursor's current indentation. Single-line pastes insert
    /// verbatim — unless the whole paste is a JSON object/array, which is
    /// pretty-printed first (see `paste::pretty_print_json`).
    pub fn insert_paste(&mut self, text: &str)
        requires
            old(self).wf(),
            old(self).sel_ok(),
            old(self).ver() + old(self).del_steps() + 1 <= u64::MAX,
        ensures
            paste_post(*old(self), *final(self), match paste::pretty_spec(text@) {
                Some(p) => p,
                None => text@,
            }),
    {
        match paste::pretty_print_json(text) {
            Some(pretty) => {
                self.paste_reindented(pretty.as_str());
                assert(paste_post(*old(self), *self, pretty@));
            },
            None => {
                self.paste_reindented(text);
                assert(paste_post(*old(self), *self, text@));
            },
        }
    }

    #[verifier::spinoff_prover]
    pub fn backspace(&mut self)
        requires
            old(self).wf(),
            old(self).sel_ok(),
            old(self).ver() + 1 <= u64::MAX,
        ensures
            backspace_post(*old(self), *final(self)),

    {
        if self.delete_selection_internal() {
            return;
        }
        let ghost t = self.text();
        let idx = self.cursor_to_char(self.cursor);
        if idx == 0 {
            return;
        }
        // A CRLF line break is one unit: joining lines removes both chars.
        let start = if idx >= 2 && rope::rope_char(&self.rope, idx - 1) == '\n' && rope::rope_char(&self.rope, idx - 2) == '\r' {
            idx - 2
        } else {
            idx - 1
        };
        let removed = rope::rope_slice_string(&self.rope, start, idx);
        let cursor_before = self.cursor;
        rope::rope_remove(&mut self.rope, start, idx);
        self.cursor = self.char_to_cursor(start);
        let edit = Edit {
            char_idx: start,
            before: removed,
            after: String::new(),
            cursor_before,
            cursor_after: self.cursor,
            stamp: clock::instant_now(),
            typing: false,
        };
        proof {
            lemma_edit_roundtrip(t, start as int, removed@, Seq::empty());
            assert(self.text() =~= t.take(start as int) + Seq::<char>::empty() + t.skip(start + removed@.len()));
            assert(unapply(edit, self.text()) == t);
        }
        self.push_edit(edit);
    }

    #[verifier::spinoff_prover]
    pub fn delete_forward(&mut self)
        requires
            old(self).wf(),
            old(self).sel_ok(),
            old(self).ver() + 1 <= u64::MAX,
        ensures
            delete_forward_post(*old(self), *final(self)),

    {
        if self.delete_selection_internal() {
            return;
        }
        let ghost t = self.text();
        let idx = self.cursor_to_char(self.cursor);
        let len = rope::rope_len_chars(&self.rope);
        if idx >= len {
            return;
        }
        // At the end of a CRLF line the cursor sits on the '\r': delete the
        // whole break, not half of it.
        let end = if rope::rope_char(&self.rope, idx) == '\r' && idx + 1 < len && rope::rope_char(&self.rope, idx + 1) == '\n' {
            idx + 2
        } else {
            idx + 1
        };
        let removed = rope::rope_slice_string(&self.rope, idx, end);
        let cursor_before = self.cursor;
        rope::rope_remove(&mut self.rope, idx, end);
        let edit = Edit {
            char_idx: idx,
            before: removed,
            after: String::new(),
            cursor_before,
            cursor_after: self.cursor,
            stamp: clock::instant_now(),
            typing: false,
        };
        proof {
            lemma_edit_roundtrip(t, idx as int, removed@, Seq::empty());
            assert(self.text() =~= t.take(idx as int) + Seq::<char>::empty() + t.skip(idx + removed@.len()));
            assert(unapply(edit, self.text()) == t);
        }
        self.push_edit(edit);
    }

    pub fn undo(&mut self)
        requires
            old(self).wf(),
            old(self).ver() < u64::MAX,
        ensures
            undo_post(*old(self), *final(self)),

    {
        let ghost t = self.text();
        let _len = rope::rope_len_chars(&self.rope);
        if self.undo_stack.len() == 0 {
            return;
        }
        let edit = self.undo_stack.pop().unwrap();
        let start = edit.char_idx;
        let after_len = chars::char_count(edit.after.as_str());
        let before_len = chars::char_count(edit.before.as_str());
        // Remove the `after` text and restore the `before` text.
        rope::rope_remove(&mut self.rope, start, start + after_len);
        if before_len > 0 {
            rope::rope_insert(&mut self.rope, start, edit.before.as_str());
        }
        proof {
            assert(self.text() =~= unapply(edit, t));
            assert(apply(edit, unapply(edit, t)) =~= t);
            assert(unapply(edit, t).subrange(start as int, start + before_len) =~= edit.before@);
        }
        self.cursor = edit.cursor_before;
        self.anchor = None;
        let wide = chars::has_newline(edit.before.as_str()) || chars::has_newline(edit.after.as_str());
        self.bump_version(start, wide);
        self.redo_stack.push(edit);
        proof {
            assert(self.redo_stack@.drop_last() =~= old(self).redo_stack@);
            assert(self.wf());
            assert(self.text() == old(self).undo_history().last().0);
            assert(self.undo_history() == old(self).undo_history().drop_last());
            assert(self.redo_history().drop_last() == old(self).redo_history());
            assert(self.redo_history().last().0 == old(self).text());
        }
    }

    pub fn redo(&mut self)
        requires
            old(self).wf(),
            old(self).ver() < u64::MAX,
        ensures
            redo_post(*old(self), *final(self)),

    {
        let ghost t = self.text();
        let _len = rope::rope_len_chars(&self.rope);
        if self.redo_stack.len() == 0 {
            return;
        }
        let edit = self.redo_stack.pop().unwrap();
        let start = edit.char_idx;
        let after_len = chars::char_count(edit.after.as_str());
        let before_len = chars::char_count(edit.before.as_str());
        rope::rope_remove(&mut self.rope, start, start + before_len);
        if after_len > 0 {
            rope::rope_insert(&mut self.rope, start, edit.after.as_str());
        }
        proof {
            assert(self.text() =~= apply(edit, t));
            assert(unapply(edit, apply(edit, t)) =~= t);
            assert(apply(edit, t).subrange(start as int, start + after_len) =~= edit.after@);
        }
        self.cursor = edit.cursor_after;
        self.anchor = None;
        let wide = chars::has_newline(edit.before.as_str()) || chars::has_newline(edit.after.as_str());
        self.bump_version(start, wide);
        self.undo_stack.push(edit);
        proof {
            assert(self.undo_stack@.drop_last() =~= old(self).undo_stack@);
            assert(self.wf());
            assert(self.text() == old(self).redo_history().last().0);
            assert(self.redo_history() == old(self).redo_history().drop_last());
            assert(self.undo_history().drop_last() == old(self).undo_history());
            assert(self.undo_history().last().0 == old(self).text());
            assert(self.wf());
            assert(self.text() == old(self).redo_history().last().0);
            assert(self.redo_history() == old(self).redo_history().drop_last());
            assert(self.undo_history().drop_last() == old(self).undo_history());
            assert(self.undo_history().last().0 == old(self).text());
        }
    }

    pub fn mark_saved(&mut self)
        ensures
            !final(self).is_dirty(),
            final(self).text() == old(self).text(),
            final(self).wf() == old(self).wf(),
            final(self).cur() == old(self).cur(),
            final(self).anc() == old(self).anc(),
            final(self).undo_history() == old(self).undo_history(),
            final(self).redo_history() == old(self).redo_history(),
            final(self).ver() == old(self).ver(),
    {
        self.dirty = false;
    }

    /// Replaces the entire buffer content, recorded as a single undo step.
    /// The cursor is clamped into the new text. No-op if the text is unchanged.
    pub fn replace_all(&mut self, text: &str)
        requires
            old(self).wf(),
            old(self).ver() < u64::MAX,
        ensures
            replace_all_post(*old(self), *final(self), text@),

    {
        let old_text = rope::rope_to_string(&self.rope);
        if chars::same_text(old_text.as_str(), text) {
            return;
        }
        let ghost t = self.text();
        let cursor_before = self.cursor;
        self.rope = rope::rope_from_str(text);
        let _len = rope::rope_len_chars(&self.rope);
        let nl = self.line_count();
        let line = if self.cursor.line < nl - 1 { self.cursor.line } else { nl - 1 };
        let len = self.line_len(line);
        self.cursor = Cursor { line, col: if self.cursor.col < len { self.cursor.col } else { len } };
        self.anchor = None;
        let edit = Edit {
            char_idx: 0,
            before: old_text,
            after: chars::str_to_string(text),
            cursor_before,
            cursor_after: self.cursor,
            stamp: clock::instant_now(),
            typing: false,
        };
        proof {
            assert(self.text().subrange(0, text@.len() as int) =~= text@);
            assert(unapply(edit, self.text()) =~= t);
        }
        self.push_edit(edit);
    }

    /// Deletes the selected text (recorded as a single undo operation). Returns
    /// false if there is no selection.
    pub fn delete_selection(&mut self) -> (r: bool)
        requires
            old(self).wf(),
            old(self).sel_ok(),
            old(self).ver() < u64::MAX,
        ensures
            r == old(self).selection() is Some,
            final(self).wf(),
            final(self).text() == old(self).del_text(),
            final(self).cur() == old(self).del_cursor(),
            final(self).anc() == old(self).del_anchor(),
            final(self).undo_history() == old(self).del_history(),
            r ==> final(self).redo_history().len() == 0,
            !r ==> final(self).redo_history() == old(self).redo_history(),
            final(self).ver() == old(self).ver() + old(self).del_steps(),
            final(self).is_dirty() == (old(self).is_dirty() || r),
            r ==> final(self).edited_from(old(self), old(self).sel_bounds().0),
            !r ==> final(self).same_but_caret(old(self)),
    {
        self.delete_selection_internal()
    }

    /// Scrolls so the cursor line sits (roughly) in the vertical center.
    pub fn center_cursor(&mut self, height: usize)
        ensures
            final(self).scroll().0 == if old(self).cur().line >= height / 2 {
                (old(self).cur().line - height / 2) as usize
            } else {
                0usize
            },
            final(self).scroll().1 == old(self).scroll().1,
            final(self).text() == old(self).text(),
            final(self).wf() == old(self).wf(),
            final(self).cur() == old(self).cur(),
            final(self).anc() == old(self).anc(),
            final(self).undo_history() == old(self).undo_history(),
            final(self).redo_history() == old(self).redo_history(),
            final(self).ver() == old(self).ver(),
    {
        let half = height / 2;
        self.scroll_y = if self.cursor.line >= half { self.cursor.line - half } else { 0 };
    }

    /// Adjusts scroll to keep the cursor visible given the viewport height.
    pub fn ensure_visible(&mut self, height: usize, width: usize)
        requires
            old(self).scroll().0 + height <= usize::MAX,
            old(self).scroll().1 + width <= usize::MAX,
        ensures
            final(self).scroll() == visible_scroll(old(self).scroll(), old(self).cur(), height, width),
            final(self).text() == old(self).text(),
            final(self).wf() == old(self).wf(),
            final(self).cur() == old(self).cur(),
            final(self).anc() == old(self).anc(),
            final(self).undo_history() == old(self).undo_history(),
            final(self).redo_history() == old(self).redo_history(),
            final(self).ver() == old(self).ver(),
    {
        if height == 0 {
            return;
        }
        if self.cursor.line < self.scroll_y {
            self.scroll_y = self.cursor.line;
        } else if self.cursor.line >= self.scroll_y + height {
            self.scroll_y = self.cursor.line - height + 1;
        }
        if width > 0 {
            if self.cursor.col < self.scroll_x {
                self.scroll_x = self.cursor.col;
            } else if self.cursor.col >= self.scroll_x + width {
                self.scroll_x = self.cursor.col - width + 1;
            }
        }
    }

    /// The lines listed in `order`, each followed by the terminator of the
    /// slot it lands in (slots numbered from `first_slot`).
    fn join_region(&self, order: &Vec<usize>, first_slot: usize) -> (r: String)
        requires
            first_slot + order@.len() <= usize::MAX,
        ensures
            r@ == join_lines(self.text(), order@.map_values(|x: usize| x as int), first_slot as int),
    {
        let ghost s = self.text();
        let ghost ord = order@.map_values(|x: usize| x as int);
        let mut new_text = String::new();
        let mut i: usize = 0;
        while i < order.len()
            invariant
                s == self.text(),
                i <= order@.len(),
                ord == order@.map_values(|x: usize| x as int),
                first_slot + order@.len() <= usize::MAX,
                new_text@ == join_lines(s, ord.take(i as int), first_slot as int),
            decreases order.len() - i,
        {
            let lt = self.line_text(order[i]);
            chars::string_push_str(&mut new_text, lt.as_str());
            let le = self.line_ending(first_slot + i);
            chars::string_push_str(&mut new_text, le);
            proof {
                assert(ord.take(i + 1).drop_last() =~= ord.take(i as int));
                assert(ord.take(i + 1).last() == order@[i as int] as int);
            }
            i += 1;
        }
        assert(ord.take(ord.len() as int) =~= ord);
        new_text
    }

    /// Replaces the characters in `[start, end)` by `new_text` as one undo
    /// step, leaving the cursor and anchor as given.
    fn replace_range(&mut self, start: usize, end: usize, new_text: String, cursor: Cursor, anchor: Option<Cursor>)
        requires
            old(self).wf(),
            old(self).version < u64::MAX,
            start <= end <= old(self).text().len(),
        ensures
            final(self).wf(),
            final(self).text() == old(self).text().take(start as int) + new_text@ + old(self).text().skip(end as int),
            final(self).cursor == cursor,
            final(self).anchor == anchor,
            final(self).undo_history() == old(self).undo_history().push((old(self).text(), old(self).cursor)),
            final(self).redo_history().len() == 0,
            final(self).version == old(self).version + 1,
            final(self).dirty,
            final(self).edited_from(old(self), start as int),
            fresh_step(*final(self)),
    {
        let ghost s = self.text();
        let old_text = rope::rope_slice_string(&self.rope, start, end);
        let cursor_before = self.cursor;
        rope::rope_remove(&mut self.rope, start, end);
        rope::rope_insert(&mut self.rope, start, new_text.as_str());
        self.cursor = cursor;
        self.anchor = anchor;
        let edit = Edit {
            char_idx: start,
            before: old_text,
            after: new_text,
            cursor_before,
            cursor_after: cursor,
            stamp: clock::instant_now(),
            typing: false,
        };
        proof {
            lemma_edit_roundtrip(s, start as int, old_text@, edit.after@);
            assert(self.text() =~= s.take(start as int) + edit.after@ + s.skip(end as int));
            assert(unapply(edit, self.text()) == s);
        }
        self.push_edit(edit);
    }

    /// Moves the line(s) touched by the selection (or just the cursor line) up
    /// (`delta < 0`) or down (`delta > 0`) by one, carrying the cursor and
    /// selection with them. Recorded as a single undo step.
    #[verifier::rlimit(50)]
    pub fn move_lines(&mut self, delta: isize)
        requires
            old(self).wf(),
            block_moves(*old(self), delta as int) ==> old(self).ver() < u64::MAX,
            delta < 0 ==> block_lines(old(self).cur(), old(self).anc()).0 <= text::nlines(old(self).text()) + 1,
            delta < 0 ==> block_lines(old(self).cur(), old(self).anc()).1 + 2 <= usize::MAX,
        ensures
            move_lines_post(*old(self), *final(self), delta as int),
    {
        let ghost s = self.text();
        if delta == 0 {
            return;
        }
        let last = self.line_count() - 1;
        let (sel_start, sel_end) = match self.selection_range() {
            Some(p) => p,
            None => (self.cursor, self.cursor),
        };
        let start = sel_start.line;
        // A selection ending at column 0 doesn't visually include that last line.
        let end = if sel_end.line > start && sel_end.col == 0 { sel_end.line - 1 } else { sel_end.line };
        if delta < 0 && start == 0 {
            return;
        }
        if delta > 0 && end >= last {
            return;
        }
        assert(start <= end);
        // Region of physical lines to rewrite, and their new order.
        let region_start_line = if delta < 0 { start - 1 } else { start };
        let region_end_line = if delta < 0 { end } else { end + 1 };
        let order = block_order_vec(start, end, delta);
        let nl = rope::rope_len_lines(&self.rope);
        let _len = rope::rope_len_chars(&self.rope);
        proof {
            text::lemma_line_start_mono(s, region_start_line as nat, (region_end_line + 1) as nat);
        }
        let region_start = rope::rope_line_to_char(&self.rope, region_start_line);
        let region_end = if region_end_line + 1 < nl {
            rope::rope_line_to_char(&self.rope, region_end_line + 1)
        } else {
            rope::rope_len_chars(&self.rope)
        };
        let new_text = self.join_region(&order, region_start_line);
        // Cursor and selection ride along with the block by one line.
        // The block moves by one line, whatever the size of `delta`.
        let new_cursor = Cursor {
            line: if delta < 0 { self.cursor.line - 1 } else { self.cursor.line + 1 },
            col: self.cursor.col,
        };
        let new_anchor = match self.anchor {
            Some(a) => Some(Cursor { line: if delta < 0 { a.line - 1 } else { a.line + 1 }, col: a.col }),
            None => None,
        };
        self.replace_range(region_start, region_end, new_text, new_cursor, new_anchor);
    }

    /// The inclusive line range the selection touches, or `None` with no
    /// selection. A selection ending at column 0 does not include that final
    /// line — nothing on it is actually selected.
    fn selected_line_span(&self) -> (r: Option<(usize, usize)>)
        ensures
            r == line_span(self.cursor, self.anchor),
    {
        let (s, e) = match self.selection_range() {
            Some(p) => p,
            None => return None,
        };
        let end = if e.line > s.line && e.col == 0 { e.line - 1 } else { e.line };
        Some((s.line, end))
    }

    /// True when the selection spans more than one line — the case where Tab
    /// indents the block instead of inserting a tab.
    pub fn selection_is_multiline(&self) -> (r: bool)
        ensures
            r == (line_span(self.cur(), self.anc()) matches Some((s, e)) && e > s),
    {
        match self.selected_line_span() {
            Some((s, e)) => e > s,
            None => false,
        }
    }

    /// Indents every selected line by one unit (four spaces). Blank lines are
    /// left untouched so no trailing whitespace is created.
    pub fn indent_selection(&mut self)
        requires
            old(self).wf(),
            old(self).ver() < u64::MAX,
            shift_ok(*old(self), true),
        ensures
            shift_post(*old(self), *final(self), true),
    {
        if let Some((start, end)) = self.selected_line_span() {
            self.shift_lines(start, end, true);
        }
    }

    /// Removes up to one indent unit (four leading spaces, or a leading tab) from
    /// every selected line.
    pub fn dedent_selection(&mut self)
        requires
            old(self).wf(),
            old(self).ver() < u64::MAX,
            shift_ok(*old(self), false),
        ensures
            shift_post(*old(self), *final(self), false),
    {
        if let Some((start, end)) = self.selected_line_span() {
            self.shift_lines(start, end, false);
        }
    }

    /// Column shift of line `line` under an indent (+4 unless blank) or a
    /// dedent (minus its leading indent width).
    fn line_shift(&self, line: usize, indent: bool) -> (d: isize)
        ensures
            d == line_shift_spec(self.text(), line as int, indent),
            -4 <= d <= 4,
    {
        let t = self.line_text(line);
        if indent {
            if chars::char_count(t.as_str()) == 0 { 0 } else { 4 }
        } else {
            -(leading_indent_width(t.as_str()) as isize)
        }
    }

    /// The cursor `c` carried along by the shift of lines `start..=end`.
    fn recol(&self, c: Cursor, start: usize, end: usize, indent: bool) -> (r: Cursor)
        requires
            c.col + 4 <= isize::MAX,
        ensures
            r == recol_spec(self.text(), c, start as int, end as int, indent),
    {
        if c.line < start || c.line > end {
            return c;
        }
        let d = self.line_shift(c.line, indent);
        let col = c.col as isize + d;
        Cursor { line: c.line, col: if col < 0 { 0 } else { col as usize } }
    }

    /// The shifted text of lines `start..=end`, with their terminators.
    fn shifted_region(&self, start: usize, end: usize, indent: bool) -> (r: String)
        requires
            start <= end < usize::MAX,
        ensures
            r@ == shift_join(self.text(), start as int, end - start + 1, indent),
    {
        let ghost s = self.text();
        let nl = rope::rope_len_lines(&self.rope);
        let len = rope::rope_len_chars(&self.rope);
        let mut out = String::new();
        let mut ln = start;
        while ln <= end
            invariant
                s == self.text(),
                nl == text::nlines(s),
                len == s.len(),
                start <= ln <= end + 1,
                end < usize::MAX,
                out@ == shift_join(s, start as int, ln - start, indent),
            decreases end + 1 - ln,
        {
            let ghost k = ln as nat;
            proof {
                if ln < nl {
                    text::lemma_line(s, k);
                    text::lemma_line_text(s, k);
                    text::lemma_raw_line(s, k);
                    if ln + 1 < nl {
                        text::lemma_line(s, k + 1);
                    }
                } else {
                    text::lemma_line(s, (nl - 1) as nat);
                    text::lemma_line_start_mono(s, nl as nat, k);
                    text::lemma_line_start_mono(s, nl as nat, k + 1);
                }
            }
            let ls = if ln < nl { rope::rope_line_to_char(&self.rope, ln) } else { len };
            let le = if ln + 1 < nl { rope::rope_line_to_char(&self.rope, ln + 1) } else { len };
            assert(ls == text::line_start(s, k));
            assert(le == text::line_start(s, k + 1));
            let raw = rope::rope_slice_string(&self.rope, ls, le);
            assert(raw@ == text::raw_line(s, k));
            let t = self.line_text(ln);
            proof {
                if ln < nl {
                    assert(t@ == raw@.take(t@.len() as int));
                } else {
                    assert(t@.len() == 0);
                }
            }
            if indent {
                if chars::char_count(t.as_str()) != 0 {
                    chars::string_push_str(&mut out, "    ");
                }
                chars::string_push_str(&mut out, raw.as_str());
                proof {
                    reveal_strlit("    ");
                }
            } else {
                let drop = leading_indent_width(t.as_str());
                let v = chars::str_chars(raw.as_str());
                let mut j = drop;
                let ghost before = out@;
                assert(v@.subrange(drop as int, drop as int) =~= Seq::<char>::empty());
                while j < v.len()
                    invariant
                        drop <= j <= v@.len(),
                        out@ == before + v@.subrange(drop as int, j as int),
                    decreases v.len() - j,
                {
                    chars::string_push(&mut out, v[j]);
                    assert(v@.subrange(drop as int, j + 1) =~= v@.subrange(drop as int, j as int).push(v@[j as int]));
                    j += 1;
                }
                assert(v@.subrange(drop as int, v@.len() as int) =~= raw@.skip(drop as int));
            }
            ln += 1;
        }
        out
    }

    /// Re-indents lines `start..=end` as a single undo step, carrying the cursor
    /// and selection anchor along by however much their own line shifted. A no-op
    /// (dedenting lines with no leading whitespace) makes no edit.
    fn shift_lines(&mut self, start: usize, end: usize, indent: bool)
        requires
            old(self).wf(),
            old(self).version < u64::MAX,
            start <= end < usize::MAX,
            start <= text::nlines(old(self).text()),
            old(self).cursor.col + 4 <= isize::MAX,
            old(self).anchor matches Some(a) ==> a.col + 4 <= isize::MAX,
        ensures
            shift_lines_post(*old(self), *final(self), start as int, end as int, indent),
    {
        let ghost s = self.text();
        let nl = rope::rope_len_lines(&self.rope);
        let _len = rope::rope_len_chars(&self.rope);
        proof {
            text::lemma_line_start_mono(s, start as nat, (end + 1) as nat);
        }
        let region_start = rope::rope_line_to_char(&self.rope, start);
        let region_end = if end + 1 < nl {
            rope::rope_line_to_char(&self.rope, end + 1)
        } else {
            rope::rope_len_chars(&self.rope)
        };
        let old_text = rope::rope_slice_string(&self.rope, region_start, region_end);
        let new_text = self.shifted_region(start, end, indent);
        // Dedenting lines with no indent changes nothing — skip the edit so it
        // does not bump the version or leave an empty undo step.
        if chars::same_text(new_text.as_str(), old_text.as_str()) {
            return;
        }
        let new_cursor = self.recol(self.cursor, start, end, indent);
        let new_anchor = match self.anchor {
            Some(a) => Some(self.recol(a, start, end, indent)),
            None => None,
        };
        self.replace_range(region_start, region_end, new_text, new_cursor, new_anchor);
    }
}

/// The longest of the first `n` lines of `s` (0 when `n` is 0).
pub open spec fn max_len_upto(s: Seq<char>, n: int) -> int
    decreases n,
{
    if n <= 0 {
        0
    } else {
        let rest = max_len_upto(s, n - 1);
        if text::line_len(s, n - 1) > rest { text::line_len(s, n - 1) } else { rest }
    }
}

} // verus!

verus! {

/// `cursor_lt`, executably.
fn cursor_less(a: Cursor, b: Cursor) -> (r: bool)
    ensures
        r == cursor_lt(a, b),
{
    a.line < b.line || (a.line == b.line && a.col < b.col)
}

/// Some line ends with a terminator of this kind.
pub open spec fn has_ending(s: Seq<char>, kind: int) -> bool {
    exists|k: int| 0 <= k < text::nlines(s) && text::ending_kind(s, k) == kind
}

/// The document's line-ending label: "CRLF", "LF", "Mixed" when both occur,
/// and "" when there is no line break.
pub open spec fn ending_label(s: Seq<char>) -> Seq<char> {
    if has_ending(s, 1) && has_ending(s, 2) {
        "Mixed"@
    } else if has_ending(s, 2) {
        "CRLF"@
    } else if has_ending(s, 1) {
        "LF"@
    } else {
        ""@
    }
}

/// The break to insert on line `k`: its own terminator, else the one of the
/// line above when that is "\r\n", else "\n".
pub open spec fn newline_for_spec(s: Seq<char>, k: int) -> Seq<char> {
    if text::ending_kind(s, k) != 0 {
        text::line_ending(s, k)
    } else if k >= 1 && text::ending_kind(s, k - 1) == 2 {
        seq!['\r', '\n']
    } else {
        seq!['\n']
    }
}

/// `col` is the character column of `t` whose UTF-16 code units contain unit
/// `u` (clamped to the end of `t`).
pub open spec fn is_utf16_col(t: Seq<char>, u: int, col: int) -> bool {
    let uu = if u < text::utf16_len(t) { u } else { text::utf16_len(t) as int };
    &&& 0 <= col <= t.len()
    &&& text::utf16_len(t.take(col)) <= uu
    &&& col < t.len() ==> uu < text::utf16_len(t.take(col + 1))
}

} // verus!

verus! {

/// The anchor after a move: kept (or dropped at the cursor) when extending,
/// cleared otherwise.
pub open spec fn moved_anchor(cursor: Cursor, anchor: Option<Cursor>, extend: bool) -> Option<Cursor> {
    if extend {
        match anchor {
            Some(a) => Some(a),
            None => Some(cursor),
        }
    } else {
        None
    }
}

/// `col` limited to `len`.
pub open spec fn min_col(col: usize, len: int) -> usize {
    if col < len { col } else { len as usize }
}

/// `t` clamped to `[0, last]`.
pub open spec fn page_target(t: int, last: int) -> int {
    if t < 0 { 0 } else if t > last { last } else { t }
}

/// An identifier character: alphanumeric or underscore.
pub open spec fn is_word(c: char) -> bool {
    chars::is_alnum(c) || c == '_'
}

/// A space or a tab.
pub open spec fn is_blank(c: char) -> bool {
    c == ' ' || c == '\t'
}

/// Index of the first non-blank character of `t` at or after `i`.
pub open spec fn lead_blank_from(t: Seq<char>, i: int) -> int
    decreases t.len() - i,
{
    if 0 <= i < t.len() && is_blank(t[i]) { lead_blank_from(t, i + 1) } else { i }
}

/// Number of leading spaces and tabs of `t`.
pub open spec fn lead_blank(t: Seq<char>) -> int {
    lead_blank_from(t, 0)
}

/// From `i`, back over whitespace.
pub open spec fn skip_ws_back(s: Seq<char>, i: int) -> int
    decreases i,
{
    if 0 < i <= s.len() && chars::is_ws(s[i - 1]) { skip_ws_back(s, i - 1) } else { i }
}

/// From `i`, back over non-whitespace characters of one class (word or not).
pub open spec fn skip_run_back(s: Seq<char>, i: int, word: bool) -> int
    decreases i,
{
    if 0 < i <= s.len() && !chars::is_ws(s[i - 1]) && is_word(s[i - 1]) == word {
        skip_run_back(s, i - 1, word)
    } else {
        i
    }
}

/// Where Ctrl+Left lands from index `i`.
pub open spec fn word_left_pos(s: Seq<char>, i: int) -> int {
    let j = skip_ws_back(s, i);
    if j > 0 { skip_run_back(s, j, is_word(s[j - 1])) } else { j }
}

/// From `i`, forward over whitespace.
pub open spec fn skip_ws_fwd(s: Seq<char>, i: int) -> int
    decreases s.len() - i,
{
    if 0 <= i < s.len() && chars::is_ws(s[i]) { skip_ws_fwd(s, i + 1) } else { i }
}

/// From `i`, forward over non-whitespace characters of one class.
pub open spec fn skip_run_fwd(s: Seq<char>, i: int, word: bool) -> int
    decreases s.len() - i,
{
    if 0 <= i < s.len() && !chars::is_ws(s[i]) && is_word(s[i]) == word {
        skip_run_fwd(s, i + 1, word)
    } else {
        i
    }
}

/// Where Ctrl+Right lands from index `i`.
pub open spec fn word_right_pos(s: Seq<char>, i: int) -> int {
    let j = skip_ws_fwd(s, i);
    if j < s.len() { skip_run_fwd(s, j, is_word(s[j])) } else { j }
}

/// Start of the identifier run around `col`.
pub open spec fn word_start(t: Seq<char>, col: int) -> int
    decreases col,
{
    if 0 < col <= t.len() && is_word(t[col - 1]) { word_start(t, col - 1) } else { col }
}

/// End of the identifier run around `col`.
pub open spec fn word_end(t: Seq<char>, col: int) -> int
    decreases t.len() - col,
{
    if 0 <= col < t.len() && is_word(t[col]) { word_end(t, col + 1) } else { col }
}

/// `is_word`, executably.
pub fn is_word_char(c: char) -> (r: bool)
    ensures
        r == is_word(c),
{
    chars::char_is_alphanumeric(c) || c == '_'
}

/// Number of leading spaces and tabs of `s`.
pub fn leading_ws(s: &str) -> (n: usize)
    ensures
        n == lead_blank(s@),
{
    let v = chars::str_chars(s);
    let mut i: usize = 0;
    while i < v.len() && (v[i] == ' ' || v[i] == '\t')
        invariant
            i <= v@.len(),
            v@ == s@,
            lead_blank_from(v@, i as int) == lead_blank(v@),
        decreases v.len() - i,
    {
        i += 1;
    }
    i
}

} // verus!

verus! {

/// Replacing `before` by `after` at `i` and then `after` by `before` gives
/// back the text.
proof fn lemma_edit_roundtrip(t: Seq<char>, i: int, before: Seq<char>, after: Seq<char>)
    requires
        0 <= i,
        i + before.len() <= t.len(),
        t.subrange(i, i + before.len()) == before,
    ensures
        ({
            let n = t.take(i) + after + t.skip(i + before.len());
            &&& i + after.len() <= n.len()
            &&& n.subrange(i, i + after.len()) == after
            &&& n.take(i) + before + n.skip(i + after.len()) == t
        }),
{
    let n = t.take(i) + after + t.skip(i + before.len());
    assert(n.subrange(i, i + after.len()) =~= after);
    assert(n.take(i) =~= t.take(i));
    assert(n.skip(i + after.len()) =~= t.skip(i + before.len()));
    assert(t.take(i) + before + t.skip(i + before.len()) =~= t);
}

} // verus!

verus! {

/// The indentation carried by Enter at cursor `c`: the leading blanks of its
/// line, up to the cursor column.
pub open spec fn indent_of(s: Seq<char>, c: Cursor) -> Seq<char> {
    let t = text::line_text(s, c.line as int);
    let p = t.take(if c.col < t.len() { c.col as int } else { t.len() as int });
    p.take(lead_blank(p))
}

/// Where Backspace at index `i > 0` starts deleting: a CRLF pair goes as one.
pub open spec fn backspace_start(t: Seq<char>, i: int) -> int {
    if i >= 2 && t[i - 1] == '\n' && t[i - 2] == '\r' { i - 2 } else { i - 1 }
}

/// Where Delete at index `i` stops deleting: a CRLF pair goes as one.
pub open spec fn delete_end(t: Seq<char>, i: int) -> int {
    if t[i] == '\r' && i + 1 < t.len() && t[i + 1] == '\n' { i + 2 } else { i + 1 }
}

/// The viewport offsets after scrolling the least that keeps cursor `c`
/// inside a `height` x `width` window (a zero size leaves that axis; a zero
/// height leaves both).
pub open spec fn visible_scroll(scroll: (usize, usize), c: Cursor, height: usize, width: usize) -> (usize, usize) {
    if height == 0 {
        scroll
    } else {
        let y = if c.line < scroll.0 {
            c.line
        } else if c.line >= scroll.0 + height {
            (c.line + 1 - height) as usize
        } else {
            scroll.0
        };
        let x = if width == 0 {
            scroll.1
        } else if c.col < scroll.1 {
            c.col
        } else if c.col >= scroll.1 + width {
            (c.col + 1 - width) as usize
        } else {
            scroll.1
        };
        (y, x)
    }
}

/// Law: keeping the cursor visible puts it inside the window and moves the
/// view the least it can: no window holding the cursor lies closer to where
/// the view was, so a cursor already in view leaves it alone, one above it
/// lands on the top row and one below it on the bottom row (columns alike).
pub proof fn law_visible_scroll(scroll: (usize, usize), c: Cursor, height: usize, width: usize, y2: int, x2: int)
    requires
        height > 0,
        width > 0,
        c.line < usize::MAX,
        c.col < usize::MAX,
    ensures
        visible_scroll(scroll, c, height, width).0 <= c.line < visible_scroll(scroll, c, height, width).0 + height,
        visible_scroll(scroll, c, height, width).1 <= c.col < visible_scroll(scroll, c, height, width).1 + width,
        y2 <= c.line < y2 + height ==> {
            let y = visible_scroll(scroll, c, height, width).0 as int;
            let d = if y >= scroll.0 { y - scroll.0 } else { scroll.0 - y };
            let d2 = if y2 >= scroll.0 { y2 - scroll.0 } else { scroll.0 - y2 };
            d <= d2
        },
        x2 <= c.col < x2 + width ==> {
            let x = visible_scroll(scroll, c, height, width).1 as int;
            let d = if x >= scroll.1 { x - scroll.1 } else { scroll.1 - x };
            let d2 = if x2 >= scroll.1 { x2 - scroll.1 } else { scroll.1 - x2 };
            d <= d2
        },
{
}

} // verus!

verus! {

/// What `insert_str(text)` does: replaces the selection (if any) by `text`.
pub open spec fn insert_str_post(old: Buffer, new: Buffer, text: Seq<char>) -> bool {
    &&& new.wf()
    &&& text.len() == 0 ==> new.unchanged_from(&old)
    &&& text.len() > 0 ==> ({
            let t1 = old.del_text();
            let c1 = old.del_cursor();
            let i = pos_of(t1, c1);
            &&& new.text() == t1.take(i) + text + t1.skip(i)
            &&& new.cur() == cursor_at(new.text(), i + text.len())
            &&& new.anc() == old.del_anchor()
            &&& new.undo_history() == old.del_history().push((t1, c1))
            &&& new.redo_history().len() == 0
            &&& new.ver() == old.ver() + old.del_steps() + 1
            &&& new.is_dirty()
            &&& fresh_step(new)
            &&& new.edited_from(&old, i)
        })
}

/// What pasting the chosen text `p` does: a single line is inserted as
/// `insert_str` would; a block replaces the selection and lands re-indented
/// onto the indentation before the cursor, as one undo step.
pub open spec fn paste_post(old: Buffer, new: Buffer, p: Seq<char>) -> bool {
    if !p.contains('\n') {
        insert_str_post(old, new, p)
    } else {
        let t1 = old.del_text();
        let c1 = old.del_cursor();
        let i = pos_of(t1, c1);
        let ins = paste::reindent_spec(p, indent_of(t1, c1));
        &&& new.wf()
        &&& new.text() == t1.take(i) + ins + t1.skip(i)
        &&& new.cur() == cursor_at(new.text(), i + ins.len())
        &&& new.anc() == old.del_anchor()
        &&& new.undo_history() == old.del_history().push((t1, c1))
        &&& new.redo_history().len() == 0
        &&& new.ver() == old.ver() + old.del_steps() + 1
        &&& new.is_dirty()
        &&& fresh_step(new)
        &&& new.edited_from(&old, i)
    }
}

/// Pasting text that is not reformatted as JSON and holds no line break does
/// exactly what `insert_str` does with it.
pub proof fn law_paste_plain_is_insert(old: Buffer, new: Buffer, text: Seq<char>)
    requires
        paste::pretty_spec(text) is None,
        !text.contains('\n'),
        paste_post(old, new, match paste::pretty_spec(text) {
            Some(p) => p,
            None => text,
        }),
    ensures
        insert_str_post(old, new, text),
{
}

/// What `backspace` does: deletes the selection, else the character (or CRLF pair) before the cursor.
pub open spec fn backspace_post(old: Buffer, new: Buffer) -> bool {
    &&& new.wf()
    &&& old.selection() is Some ==> {
            &&& new.text() == old.del_text()
            &&& new.cur() == old.del_cursor()
            &&& new.anc() is None
            &&& new.undo_history() == old.del_history()
            &&& new.redo_history().len() == 0
            &&& new.ver() == old.ver() + 1
            &&& new.is_dirty()
            &&& fresh_step(new)
            &&& new.edited_from(&old, old.sel_bounds().0)
        }
    &&& old.selection() is None ==> ({
            let t = old.text();
            let i = pos_of(t, old.cur());
            if i == 0 {
                new.unchanged_from(&old)
            } else {
                let st = backspace_start(t, i);
                &&& new.text() == t.take(st) + t.skip(i)
                &&& new.cur() == cursor_at(new.text(), st)
                &&& new.anc() == old.anc()
                &&& new.undo_history() == old.undo_history().push((t, old.cur()))
                &&& new.redo_history().len() == 0
                &&& new.ver() == old.ver() + 1
                &&& new.is_dirty()
                &&& fresh_step(new)
                &&& new.edited_from(&old, st)
            }
        })
}

/// What `delete_forward` does: deletes the selection, else the character (or CRLF pair) at the cursor.
pub open spec fn delete_forward_post(old: Buffer, new: Buffer) -> bool {
    &&& new.wf()
    &&& old.selection() is Some ==> {
            &&& new.text() == old.del_text()
            &&& new.cur() == old.del_cursor()
            &&& new.anc() is None
            &&& new.undo_history() == old.del_history()
            &&& new.redo_history().len() == 0
            &&& new.ver() == old.ver() + 1
            &&& new.is_dirty()
            &&& fresh_step(new)
            &&& new.edited_from(&old, old.sel_bounds().0)
        }
    &&& old.selection() is None ==> ({
            let t = old.text();
            let i = pos_of(t, old.cur());
            if i >= t.len() {
                new.unchanged_from(&old)
            } else {
                let en = delete_end(t, i);
                &&& new.text() == t.take(i) + t.skip(en)
                &&& new.cur() == old.cur()
                &&& new.anc() == old.anc()
                &&& new.undo_history() == old.undo_history().push((t, old.cur()))
                &&& new.redo_history().len() == 0
                &&& new.ver() == old.ver() + 1
                &&& new.is_dirty()
                &&& fresh_step(new)
                &&& new.edited_from(&old, i)
            }
        })
}

/// After an edit: the last undo step is no run of typing (the next typed
/// character starts a new step) and leaves the cursor where it now is.
pub open spec fn fresh_step(b: Buffer) -> bool {
    b.typing_tail() is None && b.undo_cursor_after() == Some(b.cur())
}

/// What `undo` does: restores the last state of the undo history.
pub open spec fn undo_post(old: Buffer, new: Buffer) -> bool {
    &&& new.wf()
    &&& old.undo_history().len() == 0 ==> new.unchanged_from(&old)
    &&& old.undo_history().len() > 0 ==> {
            &&& new.text() == old.undo_history().last().0
            &&& new.cur() == old.undo_history().last().1
            &&& new.anc() is None
            &&& new.undo_history() == old.undo_history().drop_last()
            &&& new.redo_history().drop_last() == old.redo_history()
            &&& new.redo_history().len() == old.redo_history().len() + 1
            &&& new.redo_history().last().0 == old.text()
            &&& new.redo_history().last().1 == old.undo_cursor_after()->0
            &&& new.ver() == old.ver() + 1
            &&& new.is_dirty()
            &&& new.file() == old.file()
            &&& new.scroll() == old.scroll()
        }
}

/// What `redo` does: restores the last state of the redo history.
pub open spec fn redo_post(old: Buffer, new: Buffer) -> bool {
    &&& new.wf()
    &&& old.redo_history().len() == 0 ==> new.unchanged_from(&old)
    &&& old.redo_history().len() > 0 ==> {
            &&& new.text() == old.redo_history().last().0
            &&& new.cur() == old.redo_history().last().1
            &&& new.anc() is None
            &&& new.redo_history() == old.redo_history().drop_last()
            &&& new.undo_history().drop_last() == old.undo_history()
            &&& new.undo_history().len() == old.undo_history().len() + 1
            &&& new.undo_history().last().0 == old.text()
            &&& new.undo_cursor_after() == Some(new.cur())
            &&& new.ver() == old.ver() + 1
            &&& new.is_dirty()
            &&& new.file() == old.file()
            &&& new.scroll() == old.scroll()
        }
}

/// What `replace_all(text)` does: the whole text replaced as one undo step.
pub open spec fn replace_all_post(old: Buffer, new: Buffer, text: Seq<char>) -> bool {
    &&& new.wf()
    &&& text == old.text() ==> new.unchanged_from(&old)
    &&& text != old.text() ==> {
            &&& new.text() == text
            &&& new.cur() == clamp_cursor(text, old.cur())
            &&& new.anc() is None
            &&& new.undo_history() == old.undo_history().push((old.text(), old.cur()))
            &&& new.redo_history().len() == 0
            &&& new.ver() == old.ver() + 1
            &&& new.is_dirty()
            &&& fresh_step(new)
            &&& new.edited_from(&old, 0)
        }
}

} // verus!

verus! {

/// Law: a char column sent out as UTF-16 code units (`char_col_to_utf16`)
/// and read back (`utf16_to_char_col`) is the same column, clamped to the
/// line's length, whenever the units fit the `u32` they travel in.
pub proof fn law_utf16_round_trip(b: Buffer, line: usize, col: usize, u: u32, back: usize)
    requires
        line < text::nlines(b.text()),
        u as int == text::utf16_len(
            text::line_text(b.text(), line as int).take(
                if col < text::line_len(b.text(), line as int) { col as int } else { text::line_len(b.text(), line as int) },
            ),
        ),
        is_utf16_col(text::line_text(b.text(), line as int), u as int, back as int),
    ensures
        back == (if col < text::line_len(b.text(), line as int) { col as int } else { text::line_len(b.text(), line as int) }),
{
    let t = text::line_text(b.text(), line as int);
    let len = text::line_len(b.text(), line as int);
    assert(t.len() == len);
    let c = if col < len { col as int } else { len };
    let k = back as int;
    text::lemma_utf16_take_mono(t, c, t.len() as int);
    assert(t.take(t.len() as int) =~= t);
    if k > c {
        text::lemma_utf16_take_mono(t, c, k);
        text::lemma_utf16_ge_len(t.subrange(c, k));
    }
    if k < c {
        text::lemma_utf16_take_mono(t, k + 1, c);
    }
}

/// Dedenting lines that have no indentation gives back exactly their text.
#[verifier::spinoff_prover]
#[verifier::rlimit(30)]
proof fn lemma_shift_join_plain(s: Seq<char>, start: int, n: int)
    requires
        0 <= start,
        0 <= n,
        forall|k: int| start <= k < start + n ==> indent_width(#[trigger] text::line_text(s, k)) == 0,
    ensures
        shift_join(s, start, n, false) == s.subrange(
            text::line_start(s, start as nat),
            text::line_start(s, (start + n) as nat),
        ),
    decreases n,
{
    text::lemma_line_start_mono(s, start as nat, (start + n) as nat);
    if n == 0 {
        assert(s.subrange(text::line_start(s, start as nat), text::line_start(s, start as nat)) =~= Seq::<char>::empty());
    } else {
        lemma_shift_join_plain(s, start, n - 1);
        let k = start + n - 1;
        text::lemma_line_start_mono(s, start as nat, k as nat);
        text::lemma_line_start_mono(s, k as nat, (k + 1) as nat);
        assert(indent_width(text::line_text(s, k)) == 0);
        let r = text::raw_line(s, k as nat);
        assert(r.skip(0) =~= r);
        assert(s.subrange(text::line_start(s, start as nat), text::line_start(s, k as nat)) + r =~= s.subrange(
            text::line_start(s, start as nat),
            text::line_start(s, (start + n) as nat),
        ));
    }
}

/// Law: dedenting a selection whose lines have no indentation changes
/// nothing — not a character of the text, not the version, not the undo
/// history, not the cursor or the anchor.
pub proof fn law_dedent_without_indent_changes_nothing(b0: Buffer, b1: Buffer)
    requires
        b0.wf(),
        shift_post(b0, b1, false),
        forall|k: int| (line_span(b0.cur(), b0.anc()) matches Some((st, en)) && st <= k <= en) ==> indent_width(
            #[trigger] text::line_text(b0.text(), k),
        ) == 0,
    ensures
        b1.text() == b0.text(),
        b1.ver() == b0.ver(),
        b1.is_dirty() == b0.is_dirty(),
        b1.undo_history() == b0.undo_history(),
        b1.redo_history() == b0.redo_history(),
        b1.cur() == b0.cur(),
        b1.anc() == b0.anc(),
{
    if let Some((st, en)) = line_span(b0.cur(), b0.anc()) {
        let s = b0.text();
        lemma_shift_join_plain(s, st as int, en - st + 1);
        let re = region_end_pos(s, en as int);
        if en + 1 >= text::nlines(s) {
            text::lemma_line(s, (text::nlines(s) - 1) as nat);
            text::lemma_line_start_mono(s, text::nlines(s), (en + 1) as nat);
        }
        assert(re == text::line_start(s, (en + 1) as nat));
    }
}

/// A cursor that lies within the text: on one of its lines, at most at the
/// line's end.
pub open spec fn in_text(s: Seq<char>, c: Cursor) -> bool {
    c.line < text::nlines(s) && c.col <= text::line_len(s, c.line as int)
}

/// A selection whose ends lie within the text is well ordered, so the
/// editing operations that require `sel_ok` may be called on it.
pub proof fn lemma_sel_ok_in_text(b: Buffer)
    requires
        in_text(b.text(), b.cur()),
        b.anc() matches Some(a) ==> in_text(b.text(), a),
    ensures
        b.sel_ok(),
{
    let s = b.text();
    if let Some((x, y)) = b.selection() {
        assert(in_text(s, x) && in_text(s, y));
        assert(clamp_line(s, x.line as int) == x.line);
        assert(clamp_line(s, y.line as int) == y.line);
        if x.line < y.line {
            text::lemma_line(s, x.line as nat);
            text::lemma_line_text(s, x.line as nat);
            text::lemma_line_start_mono(s, (x.line + 1) as nat, y.line as nat);
        }
    }
}

/// Moving the caret keeps everything else: the text, the undo and redo
/// histories (and so well-formedness), the version and the dirty state.
pub proof fn lemma_caret_moves_keep_state(old: Buffer, new: Buffer)
    requires
        new.same_but_caret(&old),
    ensures
        new.text() == old.text(),
        new.wf() == old.wf(),
        new.undo_history() == old.undo_history(),
        new.redo_history() == old.redo_history(),
        new.ver() == old.ver(),
        new.is_dirty() == old.is_dirty(),
        new.file() == old.file(),
        new.scroll() == old.scroll(),
{
}

/// Law: an edit that records one undo step (from the state it started in) is
/// taken back by one undo: the text and the cursor come back, with no
/// selection, and the buffer counts as changed.
pub proof fn law_undo_takes_back_one_step(b0: Buffer, b1: Buffer, b2: Buffer)
    requires
        b1.undo_history() == b0.undo_history().push((b0.text(), b0.cur())),
        undo_post(b1, b2),
    ensures
        b2.text() == b0.text(),
        b2.cur() == b0.cur(),
        b2.anc() is None,
        b2.is_dirty(),
        b2.undo_history() == b0.undo_history(),
{
    assert(b1.undo_history().drop_last() == b0.undo_history());
}

/// Law: redoing an edit that was just undone brings back its text and the
/// cursor it left, for every edit that leaves the cursor with its undo step
/// (`fresh_step`, or typing).
pub proof fn law_redo_restores_cursor(b1: Buffer, b2: Buffer, b3: Buffer)
    requires
        b1.undo_history().len() > 0,
        b1.undo_cursor_after() == Some(b1.cur()),
        undo_post(b1, b2),
        redo_post(b2, b3),
    ensures
        b3.text() == b1.text(),
        b3.cur() == b1.cur(),
        b3.anc() is None,
{
}

/// The line feed at `p` follows a carriage return.
pub open spec fn crlf_at(s: Seq<char>, p: int) -> bool {
    p > 0 && s[p - 1] == '\r'
}

/// A line that ends in a terminator ends at a line feed, and ends in "\r\n"
/// exactly when a carriage return comes before that line feed.
proof fn lemma_ending_at(s: Seq<char>, k: int)
    requires
        0 <= k < text::nlines(s),
        text::ending_kind(s, k) != 0,
    ensures
        0 <= text::line_end(s, k as nat) < s.len(),
        s[text::line_end(s, k as nat)] == '\n',
        (text::ending_kind(s, k) == 2) == crlf_at(s, text::line_end(s, k as nat)),
{
    let kk = k as nat;
    text::lemma_line(s, kk);
    let r = text::raw_line(s, kk);
    let ls = text::line_start(s, kk);
    if k + 1 == text::nlines(s) {
        assert(r.last() == s[s.len() - 1]);
        assert(false);
    }
    let p = text::line_end(s, kk);
    assert(r.len() == p + 1 - ls);
    assert(r.last() == s[p]);
    if p > ls {
        assert(r[r.len() - 2] == s[p - 1]);
    } else if k > 0 {
        assert(s[ls - 1] == '\n');
    }
}

/// Every line feed ends a line that has a terminator.
proof fn lemma_nl_is_ending(s: Seq<char>, p: int)
    requires
        0 <= p < s.len(),
        s[p] == '\n',
    ensures
        ({
            let k = text::count_nl(s.take(p)) as int;
            &&& 0 <= k < text::nlines(s)
            &&& text::line_end(s, k as nat) == p
            &&& text::ending_kind(s, k) != 0
        }),
{
    text::lemma_pos_line(s, p);
    let k = text::count_nl(s.take(p));
    text::lemma_line(s, k);
    let ls = text::line_start(s, k);
    let le = text::line_end(s, k);
    if p < le {
        assert(s[p] != '\n');
    }
    assert(p == le);
    if k + 1 == text::nlines(s) {
        assert(le == s.len());
    }
    let r = text::raw_line(s, k);
    assert(r.last() == s[p]);
}

/// Law: the line-ending label says what the text's line feeds are: none
/// without a line feed, "CRLF" when every line feed follows a carriage
/// return, "LF" when none does, "Mixed" otherwise. It is read from the text
/// itself, so it is never stale after an edit.
pub proof fn law_ending_label_by_chars(s: Seq<char>)
    ensures
        ending_label(s) == if !s.contains('\n') {
            ""@
        } else if forall|p: int| 0 <= p < s.len() && s[p] == '\n' ==> crlf_at(s, p) {
            "CRLF"@
        } else if forall|p: int| 0 <= p < s.len() && s[p] == '\n' ==> !crlf_at(s, p) {
            "LF"@
        } else {
            "Mixed"@
        },
{
    let crlf = exists|p: int| 0 <= p < s.len() && s[p] == '\n' && crlf_at(s, p);
    let lf = exists|p: int| 0 <= p < s.len() && s[p] == '\n' && !crlf_at(s, p);
    assert(has_ending(s, 2) == crlf) by {
        if has_ending(s, 2) {
            let k = choose|k: int| 0 <= k < text::nlines(s) && text::ending_kind(s, k) == 2;
            lemma_ending_at(s, k);
            let p = text::line_end(s, k as nat);
            assert(0 <= p < s.len() && s[p] == '\n' && crlf_at(s, p));
        }
        if crlf {
            let p = choose|p: int| 0 <= p < s.len() && s[p] == '\n' && crlf_at(s, p);
            lemma_nl_is_ending(s, p);
            let k = text::count_nl(s.take(p)) as int;
            lemma_ending_at(s, k);
            assert(text::ending_kind(s, k) == 2);
        }
    }
    assert(has_ending(s, 1) == lf) by {
        if has_ending(s, 1) {
            let k = choose|k: int| 0 <= k < text::nlines(s) && text::ending_kind(s, k) == 1;
            lemma_ending_at(s, k);
            let p = text::line_end(s, k as nat);
            assert(text::ending_kind(s, k) != 2);
            assert(!crlf_at(s, p));
            assert(0 <= p < s.len() && s[p] == '\n' && !crlf_at(s, p));
        }
        if lf {
            let p = choose|p: int| 0 <= p < s.len() && s[p] == '\n' && !crlf_at(s, p);
            lemma_nl_is_ending(s, p);
            let k = text::count_nl(s.take(p)) as int;
            lemma_ending_at(s, k);
            assert(text::ending_kind(s, k) == 1);
        }
    }
    if s.contains('\n') {
        let p = choose|p: int| 0 <= p < s.len() && s[p] == '\n';
        assert(crlf || lf) by {
            if crlf_at(s, p) {
                assert(crlf);
            } else {
                assert(lf);
            }
        }
    } else {
        assert(!crlf && !lf);
    }
}

/// Two lines joined in swapped order: `join_lines` of `[a, b]` from slot `first`.
proof fn lemma_join_two(s: Seq<char>, a: int, b: int, first: int)
    ensures
        join_lines(s, seq![a, b], first) == text::line_text(s, a) + text::line_ending(s, first) + text::line_text(s, b)
            + text::line_ending(s, first + 1),
{
    let o1 = seq![a];
    let o = seq![a, b];
    assert(o1.drop_last() =~= Seq::<int>::empty());
    assert(join_lines(s, o1.drop_last(), first) == Seq::<char>::empty());
    assert(o1.last() == a);
    assert(join_lines(s, o1, first) =~= text::line_text(s, a) + text::line_ending(s, first));
    assert(o.drop_last() =~= o1);
    assert(o.last() == b);
    assert(join_lines(s, o, first) == join_lines(s, o1, first) + text::line_text(s, b) + text::line_ending(s, first + 1));
}

/// The text `p` + `la` `ea` + `lb` `eb` + `sfx`, where `p` ends line `k`:
/// its lines `k` and `k + 1` are `la` and `lb` with their terminators, and
/// the two span from the end of `p` to the start of `sfx`.
#[verifier::spinoff_prover]
#[verifier::rlimit(40)]
proof fn lemma_two_lines(p: Seq<char>, la: Seq<char>, ea: Seq<char>, lb: Seq<char>, eb: Seq<char>, sfx: Seq<char>, k: int)
    requires
        p.len() == 0 || p.last() == '\n',
        text::count_nl(p) == k,
        !la.contains('\n'),
        !lb.contains('\n'),
        text::trim_eol(la) == la,
        text::trim_eol(lb) == lb,
        ea == seq!['\n'] || ea == seq!['\r', '\n'],
        eb == seq!['\n'] || eb == seq!['\r', '\n'] || (eb.len() == 0 && sfx.len() == 0),
    ensures
        ({
            let t = p + (la + ea + (lb + eb + sfx));
            &&& text::line_start(t, k as nat) == p.len()
            &&& region_end_pos(t, k + 1) == p.len() + (la + ea).len() + (lb + eb).len()
            &&& text::line_text(t, k) == la
            &&& text::line_text(t, k + 1) == lb
            &&& text::line_ending(t, k) == ea
            &&& text::line_ending(t, k + 1) == eb
        }),
{
    let q2 = lb + eb + sfx;
    let q1 = la + ea + q2;
    let t = p + q1;
    text::lemma_lines_after(p, q1, 0);
    text::lemma_lines_after(p, q1, 1);
    text::lemma_lines_after(p, q1, 2);
    text::lemma_first_line(la, ea, q2);
    text::lemma_lines_after(la + ea, q2, 0);
    text::lemma_lines_after(la + ea, q2, 1);
    assert(((k + 1) as nat) == text::count_nl(p) + 1);
    assert(((k + 2) as nat) == text::count_nl(p) + 2);
    if eb.len() > 0 {
        text::lemma_first_line(lb, eb, sfx);
        text::lemma_lines_after(lb + eb, sfx, 0);
        assert(text::nlines(q2) >= 2);
        assert(text::nlines(t) > k + 2);
    } else {
        assert(q2 =~= lb);
        lemma_single_line(lb);
        assert(text::nlines(t) == k + 2);
        assert(t.len() == p.len() + (la + ea).len() + (lb + eb).len());
    }
}

/// A line that is not the last ends in a terminator, and its text holds no
/// line feed and nothing `trim_eol` would take.
proof fn lemma_inner_line(s: Seq<char>, k: int)
    requires
        0 <= k < text::nlines(s),
    ensures
        !text::line_text(s, k).contains('\n'),
        text::trim_eol(text::line_text(s, k)) == text::line_text(s, k),
        k + 1 < text::nlines(s) ==> (text::line_ending(s, k) == seq!['\n'] || text::line_ending(s, k) == seq!['\r', '\n']),
        k + 1 == text::nlines(s) ==> text::line_ending(s, k) == Seq::<char>::empty(),
{
    let kk = k as nat;
    text::lemma_line(s, kk);
    text::lemma_line_text(s, kk);
    text::lemma_raw_line(s, kk);
    text::lemma_trim_eol_idem(text::raw_line(s, kk));
    let t = text::line_text(s, k);
    let ls = text::line_start(s, kk);
    assert(!t.contains('\n')) by {
        if t.contains('\n') {
            let i = choose|i: int| 0 <= i < t.len() && t[i] == '\n';
            assert(s[ls + i] == '\n');
        }
    }
    if k + 1 == text::nlines(s) {
        let r = text::raw_line(s, kk);
        if r.len() > 0 {
            assert(r.last() == s[text::line_end(s, kk) - 1]);
        }
    }
}

/// A text without a line feed is one line, its own text.
proof fn lemma_single_line(l: Seq<char>)
    requires
        !l.contains('\n'),
        text::trim_eol(l) == l,
    ensures
        text::nlines(l) == 1,
        text::line_start(l, 1) == l.len(),
        text::line_text(l, 0) == l,
        text::line_ending(l, 0) == Seq::<char>::empty(),
{
    text::lemma_count_none(l);
    text::lemma_line(l, 0);
    assert(text::raw_line(l, 0) =~= l);
    text::lemma_trim_eol_idem(l);
}

/// Lines `k` and `k + 1` of `s`, when each is its text and terminator, cut
/// `s` into what comes before, the two lines, and what follows.
proof fn lemma_cut_two_lines(s: Seq<char>, k: int)
    requires
        0 <= k,
        k + 1 < text::nlines(s),
        text::raw_line(s, k as nat) == text::line_text(s, k) + text::line_ending(s, k),
        text::raw_line(s, (k + 1) as nat) == text::line_text(s, k + 1) + text::line_ending(s, k + 1),
    ensures
        ({
            let p = s.take(text::line_start(s, k as nat));
            let sfx = s.skip(region_end_pos(s, k + 1));
            let (l0, e0, l1, e1) = (text::line_text(s, k), text::line_ending(s, k), text::line_text(s, k + 1), text::line_ending(s, k + 1));
            &&& s == p + (l0 + e0 + (l1 + e1 + sfx))
            &&& p.len() == 0 || p.last() == '\n'
            &&& text::count_nl(p) == k
            &&& !l0.contains('\n') && !l1.contains('\n')
            &&& text::trim_eol(l0) == l0 && text::trim_eol(l1) == l1
            &&& e0 == seq!['\n'] || e0 == seq!['\r', '\n']
            &&& e1 == seq!['\n'] || e1 == seq!['\r', '\n'] || (e1.len() == 0 && sfx.len() == 0)
        }),
{
    let n = text::nlines(s);
    text::lemma_line(s, k as nat);
    text::lemma_line(s, (k + 1) as nat);
    lemma_inner_line(s, k);
    lemma_inner_line(s, k + 1);
    let rs = text::line_start(s, k as nat);
    let re = region_end_pos(s, k + 1);
    assert(re == text::line_start(s, (k + 2) as nat));
    text::lemma_line_start_mono(s, k as nat, (k + 2) as nat);
    text::lemma_line_start_mono(s, (k + 1) as nat, (k + 2) as nat);
    let p = s.take(rs);
    let sfx = s.skip(re);
    let m = text::line_start(s, (k + 1) as nat);
    assert(text::raw_line(s, k as nat) == s.subrange(rs, m));
    assert(text::raw_line(s, (k + 1) as nat) == s.subrange(m, re));
    assert(s =~= p + (text::line_text(s, k) + text::line_ending(s, k) + (text::line_text(s, k + 1) + text::line_ending(s, k + 1) + sfx)));
    if k > 0 {
        assert(p.last() == s[rs - 1]);
    }
    if k + 2 == n {
        assert(sfx.len() == 0);
    }
}

/// Law: moving a line down and then back up restores the text and the
/// cursor — for a cursor line with a line below it, no selection, and a text
/// whose carriage returns all come just before a line feed (a stray CR before
/// a terminator, or at the very end, is not kept by a move).
#[verifier::spinoff_prover]
#[verifier::rlimit(60)]
pub proof fn law_move_down_then_up(b0: Buffer, b1: Buffer, b2: Buffer)
    requires
        b0.anc() is None,
        b0.cur().line + 1 < text::nlines(b0.text()),
        b0.cur().line < usize::MAX,
        text::cr_before_lf(b0.text()),
        move_lines_post(b0, b1, 1),
        move_lines_post(b1, b2, -1),
    ensures
        b1.cur().line == b0.cur().line + 1,
        b2.text() == b0.text(),
        b2.cur() == b0.cur(),
{
    let s = b0.text();
    let k = b0.cur().line as int;
    text::lemma_line_parts(s, k as nat);
    text::lemma_line_parts(s, (k + 1) as nat);
    lemma_cut_two_lines(s, k);
    let p = s.take(text::line_start(s, k as nat));
    let sfx = s.skip(region_end_pos(s, k + 1));
    let (l0, e0, l1, e1) = (text::line_text(s, k), text::line_ending(s, k), text::line_text(s, k + 1), text::line_ending(s, k + 1));
    lemma_two_lines(p, l0, e0, l1, e1, sfx, k);
    assert(block_lines(b0.cur(), b0.anc()) == (k, k));
    assert(block_moves(b0, 1));
    assert(block_order(k, k, 1) =~= seq![k + 1, k]);
    lemma_join_two(s, k + 1, k, k);
    let s1 = b1.text();
    assert(s1 =~= p + (l1 + e0 + (l0 + e1 + sfx)));
    assert(b1.anc() is None);
    assert(b1.cur().line == k + 1);
    assert(block_lines(b1.cur(), b1.anc()) == (k + 1, k + 1));
    lemma_two_lines(p, l1, e0, l0, e1, sfx, k);
    assert(block_order(k + 1, k + 1, -1) =~= seq![k + 1, k]);
    lemma_join_two(s1, k + 1, k, k);
    let rs1 = text::line_start(s1, k as nat);
    let re1 = region_end_pos(s1, k + 1);
    assert(s1.take(rs1) =~= p);
    assert(s1.skip(re1) =~= sfx);
    assert(b2.text() =~= p + (l0 + e0 + (l1 + e1 + sfx)));
}

/// `shift_join` of `j + m` lines is that of the first `j`, then of the next `m`.
proof fn lemma_shift_join_split(s: Seq<char>, st: int, j: int, m: int, indent: bool)
    requires
        0 <= j,
        0 <= m,
    ensures
        shift_join(s, st, j + m, indent) == shift_join(s, st, j, indent) + shift_join(s, st + j, m, indent),
    decreases m,
{
    if m == 0 {
        assert(shift_join(s, st, j, indent) + Seq::<char>::empty() =~= shift_join(s, st, j, indent));
    } else {
        lemma_shift_join_split(s, st, j, m - 1, indent);
        assert(st + j + m - 1 == st + (j + m) - 1);
        assert(shift_join(s, st, j + m, indent) =~= shift_join(s, st, j, indent) + shift_join(s, st + j, m, indent));
    }
}

/// Trimming the line end of `a + b` trims only `b`, while `b` keeps some text.
proof fn lemma_trim_eol_concat(a: Seq<char>, b: Seq<char>)
    requires
        text::trim_eol(b).len() > 0,
    ensures
        text::trim_eol(a + b) == a + text::trim_eol(b),
    decreases b.len(),
{
    if b.len() > 0 && (b.last() == '\n' || b.last() == '\r') {
        assert((a + b).drop_last() =~= a + b.drop_last());
        lemma_trim_eol_concat(a, b.drop_last());
    } else {
        assert(b.len() > 0);
        assert((a + b).last() == b.last());
    }
}

/// A raw line holds at most its final line feed; every line but the last has one.
proof fn lemma_raw_shape(s: Seq<char>, k: int)
    requires
        0 <= k < text::nlines(s),
    ensures
        text::count_nl(text::raw_line(s, k as nat)) == if k + 1 < text::nlines(s) { 1int } else { 0int },
        k + 1 < text::nlines(s) ==> text::raw_line(s, k as nat).last() == '\n',
        text::count_nl(shifted_line(s, k, true)) == text::count_nl(text::raw_line(s, k as nat)),
        k + 1 < text::nlines(s) ==> shifted_line(s, k, true).last() == '\n',
{
    let kk = k as nat;
    text::lemma_line(s, kk);
    text::lemma_raw_line(s, kk);
    let c = s.subrange(text::line_start(s, kk), text::line_end(s, kk));
    assert(!c.contains('\n')) by {
        if c.contains('\n') {
            let i = choose|i: int| 0 <= i < c.len() && c[i] == '\n';
            assert(s[text::line_start(s, kk) + i] == '\n');
        }
    }
    text::lemma_count_none(c);
    reveal_strlit("    ");
    assert(!"    "@.contains('\n')) by {
        if "    "@.contains('\n') {
            let i = choose|i: int| 0 <= i < 4 && "    "@[i] == '\n';
        }
    }
    text::lemma_count_none("    "@);
    let r = text::raw_line(s, kk);
    if k + 1 < text::nlines(s) {
        assert(c.push('\n').drop_last() =~= c);
    }
    text::lemma_count_concat("    "@, r);
}

/// The text after indenting lines `st .. st + cnt`: line `st + j` of it is
/// line `st + j` of `s` indented, and it starts where the indented lines
/// before it end.
#[verifier::spinoff_prover]
#[verifier::rlimit(80)]
proof fn lemma_indented_lines(s: Seq<char>, st: int, cnt: int, j: int)
    requires
        0 <= st,
        0 <= j < cnt,
        st + cnt <= text::nlines(s),
    ensures
        ({
            let p = s.take(text::line_start(s, st as nat));
            let sfx = s.skip(region_end_pos(s, st + cnt - 1));
            let s1 = p + shift_join(s, st, cnt, true) + sfx;
            &&& text::line_start(s1, (st + j) as nat) == p.len() + shift_join(s, st, j, true).len()
            &&& text::raw_line(s1, (st + j) as nat) == shifted_line(s, st + j, true)
            &&& text::count_nl(p + shift_join(s, st, j, true)) == st + j
            &&& st + j < text::nlines(s1)
        }),
    decreases j,
{
    let rs = text::line_start(s, st as nat);
    let p = s.take(rs);
    let sfx = s.skip(region_end_pos(s, st + cnt - 1));
    let t = shift_join(s, st, cnt, true);
    let s1 = p + t + sfx;
    text::lemma_line(s, st as nat);
    let a = p + shift_join(s, st, j, true);
    // `a` ends a line.
    if j == 0 {
        assert(shift_join(s, st, 0, true) =~= Seq::<char>::empty());
        assert(a =~= p);
        if st > 0 {
            assert(p.last() == s[rs - 1]);
        }
        assert(text::count_nl(p) == st) by {
            assert(s.take(rs) == p);
        }
    } else {
        lemma_indented_lines(s, st, cnt, j - 1);
        lemma_shift_join_split(s, st, j - 1, 1, true);
        assert(shift_join(s, st + j - 1, 1, true) =~= shift_join(s, st + j - 1, 0, true) + shifted_line(s, st + j - 1, true));
        assert(shift_join(s, st + j - 1, 0, true) =~= Seq::<char>::empty());
        lemma_raw_shape(s, st + j - 1);
        let x = shifted_line(s, st + j - 1, true);
        assert(a =~= (p + shift_join(s, st, j - 1, true)) + x);
        text::lemma_count_concat(p + shift_join(s, st, j - 1, true), x);
        assert(a.last() == x.last());
    }
    assert(a.len() == 0 || a.last() == '\n');
    // What follows `a`: line `st + j` indented, then the rest.
    let x = shifted_line(s, st + j, true);
    let rest = shift_join(s, st + j + 1, cnt - j - 1, true) + sfx;
    lemma_shift_join_split(s, st, j, cnt - j, true);
    lemma_shift_join_split(s, st + j, 1, cnt - j - 1, true);
    assert(shift_join(s, st + j, 1, true) =~= shift_join(s, st + j, 0, true) + x);
    assert(shift_join(s, st + j, 0, true) =~= Seq::<char>::empty());
    assert(s1 =~= a + (x + rest));
    text::lemma_lines_after(a, x + rest, 0);
    lemma_raw_shape(s, st + j);
    if st + j + 1 < text::nlines(s) {
        text::lemma_lines_after(x, rest, 0);
        assert(text::raw_line(x + rest, 0) =~= x);
    } else {
        assert(cnt - j - 1 == 0);
        assert(shift_join(s, st + j + 1, 0, true) =~= Seq::<char>::empty());
        text::lemma_line(s, (st + j) as nat);
        assert(region_end_pos(s, st + cnt - 1) == s.len());
        assert(rest =~= Seq::<char>::empty());
        assert(x + rest =~= x);
        assert(text::count_nl(x) == 0);
        text::lemma_line(x, 0);
        assert(text::raw_line(x, 0) =~= x);
    }
}

/// The text `s` with lines `st .. st + cnt` indented.
pub open spec fn indented_text(s: Seq<char>, st: int, cnt: int) -> Seq<char> {
    s.take(text::line_start(s, st as nat)) + shift_join(s, st, cnt, true) + s.skip(region_end_pos(s, st + cnt - 1))
}

/// The text `s` with lines `st .. st + cnt` dedented.
pub open spec fn dedented_text(s: Seq<char>, st: int, cnt: int) -> Seq<char> {
    s.take(text::line_start(s, st as nat)) + shift_join(s, st, cnt, false) + s.skip(region_end_pos(s, st + cnt - 1))
}

/// Dedenting an indented line gives back the line.
#[verifier::spinoff_prover]
proof fn lemma_dedent_undoes(s: Seq<char>, st: int, cnt: int, j: int)
    requires
        0 <= st,
        0 <= j < cnt,
        st + cnt <= text::nlines(s),
    ensures
        shifted_line(indented_text(s, st, cnt), st + j, false) == text::raw_line(s, (st + j) as nat),
{
    lemma_indented_lines(s, st, cnt, j);
    let s1 = indented_text(s, st, cnt);
    let k = st + j;
    let r = text::raw_line(s, k as nat);
    let l = text::line_text(s, k);
    assert(l == text::trim_eol(r));
    let x = shifted_line(s, k, true);
    assert(text::raw_line(s1, k as nat) == x);
    assert(text::line_text(s1, k) == text::trim_eol(x));
    reveal_strlit("    ");
    if l.len() == 0 {
        assert(x == r);
        assert(r.skip(0) =~= r);
    } else {
        assert(x == "    "@ + r);
        lemma_trim_eol_concat("    "@, r);
        let t = "    "@ + l;
        assert(text::trim_eol(x) == t);
        assert(t[0] == ' ' && t[1] == ' ' && t[2] == ' ' && t[3] == ' ');
        assert(space_run(t, 4, 4) == 4);
        assert(space_run(t, 3, 4) == 4);
        assert(space_run(t, 2, 4) == 4);
        assert(space_run(t, 1, 4) == 4);
        assert(indent_width(t) == 4);
        assert(x.skip(4) =~= r);
    }
}

/// Dedenting the indented lines gives back the lines as they were.
proof fn lemma_dedent_join(s: Seq<char>, st: int, cnt: int, j: int)
    requires
        0 <= st,
        0 <= j <= cnt,
        st + cnt <= text::nlines(s),
    ensures
        shift_join(indented_text(s, st, cnt), st, j, false) == s.subrange(
            text::line_start(s, st as nat),
            text::line_start(s, (st + j) as nat),
        ),
    decreases j,
{
    text::lemma_line_start_mono(s, st as nat, (st + j) as nat);
    if j == 0 {
        assert(s.subrange(text::line_start(s, st as nat), text::line_start(s, st as nat)) =~= Seq::<char>::empty());
    } else {
        lemma_dedent_join(s, st, cnt, j - 1);
        lemma_dedent_undoes(s, st, cnt, j - 1);
        text::lemma_line_start_mono(s, st as nat, (st + j - 1) as nat);
        text::lemma_line_start_mono(s, (st + j - 1) as nat, (st + j) as nat);
        assert(s.subrange(text::line_start(s, st as nat), text::line_start(s, (st + j - 1) as nat)) + text::raw_line(
            s,
            (st + j - 1) as nat,
        ) =~= s.subrange(text::line_start(s, st as nat), text::line_start(s, (st + j) as nat)));
    }
}

/// Law: indenting lines and then dedenting the same lines gives back the
/// text exactly, whatever their line endings (lines with text take four
/// spaces and lose four; blank lines are left alone both times).
#[verifier::spinoff_prover]
#[verifier::rlimit(60)]
pub proof fn law_indent_then_dedent_text(s: Seq<char>, st: int, cnt: int)
    requires
        0 <= st,
        1 <= cnt,
        st + cnt <= text::nlines(s),
    ensures
        dedented_text(indented_text(s, st, cnt), st, cnt) == s,
{
    let s1 = indented_text(s, st, cnt);
    let rs = text::line_start(s, st as nat);
    let p = s.take(rs);
    let t = shift_join(s, st, cnt, true);
    let sfx = s.skip(region_end_pos(s, st + cnt - 1));
    lemma_indented_lines(s, st, cnt, 0);
    assert(shift_join(s, st, 0, true) =~= Seq::<char>::empty());
    assert(text::line_start(s1, st as nat) == p.len());
    assert(s1.take(p.len() as int) =~= p);
    lemma_dedent_join(s, st, cnt, cnt);
    let e = st + cnt - 1;
    lemma_indented_lines(s, st, cnt, cnt - 1);
    lemma_shift_join_split(s, st, cnt - 1, 1, true);
    assert(shift_join(s, e, 1, true) =~= shift_join(s, e, 0, true) + shifted_line(s, e, true));
    assert(shift_join(s, e, 0, true) =~= Seq::<char>::empty());
    lemma_raw_shape(s, e);
    let a = p + shift_join(s, st, cnt - 1, true);
    let x = shifted_line(s, e, true);
    assert(p + t =~= a + x);
    text::lemma_count_concat(a, x);
    text::lemma_line(s, e as nat);
    text::lemma_line_start_mono(s, st as nat, (st + cnt) as nat);
    if st + cnt < text::nlines(s) {
        assert(region_end_pos(s, e) == text::line_start(s, (st + cnt) as nat));
        assert((p + t).last() == x.last());
        text::lemma_lines_after(p + t, sfx, 0);
        assert(s1 =~= (p + t) + sfx);
        assert(region_end_pos(s1, e) == (p + t).len());
    } else {
        assert(region_end_pos(s, e) == s.len());
        assert(sfx =~= Seq::<char>::empty());
        assert(s1 =~= p + t);
        text::lemma_count_concat(p + t, Seq::<char>::empty());
        assert(text::nlines(s1) == st + cnt);
        assert(region_end_pos(s1, e) == s1.len());
        assert(text::line_start(s, (st + cnt) as nat) == s.len());
    }
    assert(s1.skip(region_end_pos(s1, e)) =~= sfx);
    assert(dedented_text(s1, st, cnt) =~= p + s.subrange(rs, text::line_start(s, (st + cnt) as nat)) + sfx);
    assert(p + s.subrange(rs, text::line_start(s, (st + cnt) as nat)) + sfx =~= s);
}

/// Indenting carries the cursor and anchor so the selected lines stay the same.
proof fn lemma_span_after_indent(s: Seq<char>, c: Cursor, a: Cursor, st: usize, en: usize)
    requires
        line_span(c, Some(a)) == Some((st, en)),
        c.col + 4 <= usize::MAX,
        a.col + 4 <= usize::MAX,
    ensures
        line_span(recol_spec(s, c, st as int, en as int, true), Some(recol_spec(s, a, st as int, en as int, true))) == Some((st, en)),
{
    let c1 = recol_spec(s, c, st as int, en as int, true);
    let a1 = recol_spec(s, a, st as int, en as int, true);
    assert(line_shift_spec(s, c.line as int, true) >= 0);
    assert(line_shift_spec(s, a.line as int, true) >= 0);
    assert(c1.line == c.line && c1.col >= c.col);
    assert(a1.line == a.line && a1.col >= a.col);
    assert(a != c);
    if c.line == a.line {
        assert(st <= c.line <= en);
        assert(c1.col - c.col == a1.col - a.col);
        assert(a1 != c1);
        assert(cursor_lt(a, c) == cursor_lt(a1, c1));
    } else {
        assert(cursor_lt(a, c) == cursor_lt(a1, c1));
        let (x, y) = if cursor_lt(a, c) { (a, c) } else { (c, a) };
        let (x1, y1) = if cursor_lt(a, c) { (a1, c1) } else { (c1, a1) };
        assert(sel_range(c, Some(a)) == Some((x, y)));
        assert(sel_range(c1, Some(a1)) == Some((x1, y1)));
        assert(x.line < y.line);
        if st <= y.line <= en {
            assert(y.col != 0);
            assert(y1.col != 0);
        } else {
            assert(y1 == y);
        }
    }
}

/// Law: indenting the selected lines and then dedenting them gives back the
/// text exactly — for a selection whose lines are lines of the text.
#[verifier::spinoff_prover]
#[verifier::rlimit(80)]
pub proof fn law_indent_then_dedent(b0: Buffer, b1: Buffer, b2: Buffer)
    requires
        b0.anc() is Some,
        line_span(b0.cur(), b0.anc()) matches Some((st, en)) && en < text::nlines(b0.text()),
        b0.cur().col + 4 <= usize::MAX,
        b0.anc()->0.col + 4 <= usize::MAX,
        shift_post(b0, b1, true),
        shift_post(b1, b2, false),
    ensures
        b2.text() == b0.text(),
{
    let s = b0.text();
    let (st, en) = line_span(b0.cur(), b0.anc())->0;
    let (sti, eni) = (st as int, en as int);
    let cnt = eni - sti + 1;
    let rs = text::line_start(s, st as nat);
    let re = region_end_pos(s, eni);
    law_indent_then_dedent_text(s, sti, cnt);
    text::lemma_line_start_mono(s, st as nat, (en + 1) as nat);
    text::lemma_line(s, en as nat);
    assert(s =~= s.take(rs) + s.subrange(rs, re) + s.skip(re));
    // The indented text, and the span it keeps.
    let s1 = indented_text(s, sti, cnt);
    assert(b1.text() == s1);
    lemma_span_after_indent(s, b0.cur(), b0.anc()->0, st, en);
    assert(line_span(b1.cur(), b1.anc()) == Some((st, en)));
    // The dedented text.
    assert(b2.text() == dedented_text(s1, sti, cnt)) by {
        let rs1 = text::line_start(s1, st as nat);
        let re1 = region_end_pos(s1, eni);
        text::lemma_line_start_mono(s1, st as nat, (en + 1) as nat);
        assert(rs1 <= re1 <= s1.len());
        assert(s1 =~= s1.take(rs1) + s1.subrange(rs1, re1) + s1.skip(re1));
    }
}

/// Law: undoing and then redoing gives back the text the buffer had.
pub proof fn law_undo_then_redo(b0: Buffer, b1: Buffer, b2: Buffer)
    requires
        b0.wf(),
        b0.undo_history().len() > 0,
        undo_post(b0, b1),
        redo_post(b1, b2),
    ensures
        b2.text() == b0.text(),
{
}

/// Law: redoing and then undoing gives back the text the buffer had.
pub proof fn law_redo_then_undo(b0: Buffer, b1: Buffer, b2: Buffer)
    requires
        b0.wf(),
        b0.redo_history().len() > 0,
        redo_post(b0, b1),
        undo_post(b1, b2),
    ensures
        b2.text() == b0.text(),
{
}

/// Law: one undo after inserting a non-empty text takes the insertion back;
/// with nothing selected, that restores the text and the cursor.
pub proof fn law_undo_after_insert(b0: Buffer, b1: Buffer, b2: Buffer, t: Seq<char>)
    requires
        b0.wf(),
        t.len() > 0,
        insert_str_post(b0, b1, t),
        undo_post(b1, b2),
    ensures
        b2.text() == b0.del_text(),
        b2.cur() == b0.del_cursor(),
        b0.selection() is None ==> b2.text() == b0.text() && b2.cur() == b0.cur(),
{
}

/// Law: an undo after a Backspace that deleted something restores the text
/// and the cursor.
pub proof fn law_undo_after_backspace(b0: Buffer, b1: Buffer, b2: Buffer)
    requires
        b0.wf(),
        b0.selection() is Some || pos_of(b0.text(), b0.cur()) > 0,
        backspace_post(b0, b1),
        undo_post(b1, b2),
    ensures
        b2.text() == b0.text(),
        b2.cur() == b0.cur(),
{
}

/// Law: an undo after a Delete that deleted something restores the text and
/// the cursor.
pub proof fn law_undo_after_delete_forward(b0: Buffer, b1: Buffer, b2: Buffer)
    requires
        b0.wf(),
        b0.selection() is Some || pos_of(b0.text(), b0.cur()) < b0.text().len(),
        delete_forward_post(b0, b1),
        undo_post(b1, b2),
    ensures
        b2.text() == b0.text(),
        b2.cur() == b0.cur(),
{
}

/// Law: an undo after `replace_all` with a different text restores the text
/// and the cursor.
pub proof fn law_undo_after_replace_all(b0: Buffer, b1: Buffer, b2: Buffer, t: Seq<char>)
    requires
        b0.wf(),
        t != b0.text(),
        replace_all_post(b0, b1, t),
        undo_post(b1, b2),
    ensures
        b2.text() == b0.text(),
        b2.cur() == b0.cur(),
{
}

/// Law: after any edit the redo history is empty, so `redo` changes nothing.
pub proof fn law_edit_clears_redo(b0: Buffer, b1: Buffer, b2: Buffer, t: Seq<char>)
    requires
        b0.wf(),
        t.len() > 0,
        insert_str_post(b0, b1, t),
        redo_post(b1, b2),
    ensures
        b2.unchanged_from(&b1),
{
}

} // verus!

verus! {

/// The first and last line a block move applies to: the lines the selection
/// touches (a selection ending at column 0 leaves out that line), else the
/// cursor line.
pub open spec fn block_lines(cursor: Cursor, anchor: Option<Cursor>) -> (int, int) {
    let (a, b) = match sel_range(cursor, anchor) {
        Some(p) => p,
        None => (cursor, cursor),
    };
    let end = if b.line > a.line && b.col == 0 { b.line - 1 } else { b.line as int };
    (a.line as int, end)
}

/// The new order of the lines of a block move's region: the block, then the
/// line above it (moving up); or the line below it, then the block (down).
pub open spec fn block_order(start: int, end: int, delta: int) -> Seq<int> {
    if delta < 0 {
        Seq::new((end - start + 2) as nat, |i: int| if i <= end - start { start + i } else { start - 1 })
    } else {
        Seq::new((end - start + 2) as nat, |i: int| if i == 0 { end + 1 } else { start + i - 1 })
    }
}

/// The lines of `s` listed in `order`, each followed by the terminator of the
/// slot it lands in (slots numbered from `first_slot`).
pub open spec fn join_lines(s: Seq<char>, order: Seq<int>, first_slot: int) -> Seq<char>
    decreases order.len(),
{
    if order.len() == 0 {
        Seq::empty()
    } else {
        join_lines(s, order.drop_last(), first_slot) + text::line_text(s, order.last()) + text::line_ending(
            s,
            first_slot + order.len() - 1,
        )
    }
}

/// Index where the region ending with line `last` ends (including its terminator).
pub open spec fn region_end_pos(s: Seq<char>, last: int) -> int {
    if last + 1 < text::nlines(s) { text::line_start(s, (last + 1) as nat) } else { s.len() as int }
}

/// Whether `move_lines(delta)` moves anything: the block is not already at
/// the edge it moves toward.
pub open spec fn block_moves(old: Buffer, delta: int) -> bool {
    let (st, en) = block_lines(old.cur(), old.anc());
    delta != 0 && !(delta < 0 && st == 0) && !(delta > 0 && en >= text::nlines(old.text()) - 1)
}

/// A line moved one step with the block: up when `delta < 0`, else down.
pub open spec fn step_line(line: usize, delta: int) -> usize {
    (if delta < 0 { line - 1 } else { line + 1 }) as usize
}

/// What `move_lines(delta)` does: the block of lines the selection touches
/// (or the cursor line) swaps places with the line above or below it, and the
/// cursor and anchor move one line with it.
pub open spec fn move_lines_post(old: Buffer, new: Buffer, delta: int) -> bool {
    let s = old.text();
    let (st, en) = block_lines(old.cur(), old.anc());
    let moves = block_moves(old, delta);
    &&& new.wf()
    &&& !moves ==> new.unchanged_from(&old)
    &&& moves ==> {
        let first = if delta < 0 { st - 1 } else { st };
        let last = if delta < 0 { en } else { en + 1 };
        let rs = text::line_start(s, first as nat);
        let re = region_end_pos(s, last);
        &&& new.text() == s.take(rs) + join_lines(s, block_order(st, en, delta), first) + s.skip(re)
        &&& new.cur() == (Cursor { line: step_line(old.cur().line, delta), col: old.cur().col })
        &&& new.anc() == match old.anc() {
            Some(a) => Some(Cursor { line: step_line(a.line, delta), col: a.col }),
            None => None,
        }
        &&& new.undo_history() == old.undo_history().push((s, old.cur()))
        &&& new.redo_history().len() == 0
        &&& new.ver() == old.ver() + 1
        &&& new.is_dirty()
        &&& fresh_step(new)
        &&& new.edited_from(&old, rs)
    }
}

} // verus!

verus! {

/// `block_order`, as a vector of line numbers.
fn block_order_vec(start: usize, end: usize, delta: isize) -> (v: Vec<usize>)
    requires
        start <= end,
        end + 2 <= usize::MAX,
        delta != 0,
        delta < 0 ==> start > 0,
    ensures
        v@.map_values(|x: usize| x as int) == block_order(start as int, end as int, delta as int),
        v@.len() == end - start + 2,
{
    let ghost ord = block_order(start as int, end as int, delta as int);
    let mut order: Vec<usize> = Vec::new();
    if delta > 0 {
        order.push(end + 1);
    }
    let mut ln = start;
    while ln <= end
        invariant
            start <= ln <= end + 1,
            end < usize::MAX,
            order@.len() == ln - start + if delta > 0 { 1int } else { 0int },
            forall|i: int| 0 <= i < order@.len() ==> order@[i] as int == ord[i],
            ord == block_order(start as int, end as int, delta as int),
            delta != 0,
        decreases end + 1 - ln,
    {
        let ghost k = order@.len() as int;
        assert(0 <= k < ord.len());
        if delta < 0 {
            assert(ord[k] == start + k);
        } else {
            assert(ord[k] == start + k - 1);
        }
        order.push(ln);
        ln += 1;
    }
    if delta < 0 {
        assert(ord[order@.len() as int] == start - 1);
        order.push(start - 1);
    }
    assert forall|i: int| 0 <= i < ord.len() implies order@.map_values(|x: usize| x as int)[i] == ord[i] by {
        assert(order@[i] as int == ord[i]);
    }
    assert(order@.map_values(|x: usize| x as int) =~= ord);
    order
}

} // verus!

verus! {

/// The inclusive line range the selection touches (a selection ending at
/// column 0 leaves out that line), or `None` with no selection.
pub open spec fn line_span(cursor: Cursor, anchor: Option<Cursor>) -> Option<(usize, usize)> {
    match sel_range(cursor, anchor) {
        None => None,
        Some((a, b)) => Some((a.line, if b.line > a.line && b.col == 0 { (b.line - 1) as usize } else { b.line })),
    }
}

/// Index just past the run of spaces of `t` that starts at `i`, looking no
/// further than `lim`.
pub open spec fn space_run(t: Seq<char>, i: int, lim: int) -> int
    decreases lim - i,
{
    if 0 <= i < lim && i < t.len() && t[i] == ' ' { space_run(t, i + 1, lim) } else { i }
}

/// A run of spaces ends between its start and the nearer of `lim` and the end of `t`.
pub proof fn lemma_space_run(t: Seq<char>, i: int, lim: int)
    requires
        0 <= i <= lim,
        i <= t.len(),
    ensures
        i <= space_run(t, i, lim) <= lim,
        space_run(t, i, lim) <= t.len(),
    decreases lim - i,
{
    if i < lim && i < t.len() && t[i] == ' ' {
        lemma_space_run(t, i + 1, lim);
    }
}

/// How many leading characters one dedent removes: a single leading tab, or up
/// to four leading spaces. Zero when the line has no leading whitespace.
pub open spec fn indent_width(t: Seq<char>) -> int {
    if t.len() > 0 && t[0] == '\t' {
        1
    } else if t.len() > 0 && t[0] == ' ' {
        space_run(t, 1, 4)
    } else {
        0
    }
}

/// How many leading characters one dedent removes from `line`: a single leading
/// tab, or up to four leading spaces; zero without leading whitespace.
pub fn leading_indent_width(line: &str) -> (n: usize)
    ensures
        n == indent_width(line@),
        n <= 4,
        n <= line@.len(),
{
    let v = chars::str_chars(line);
    proof {
        if line@.len() > 0 {
            lemma_space_run(line@, 1, 4);
        }
    }
    if v.len() > 0 && v[0] == '\t' {
        return 1;
    }
    if !(v.len() > 0 && v[0] == ' ') {
        return 0;
    }
    let mut i: usize = 1;
    while i < 4 && i < v.len() && v[i] == ' '
        invariant
            1 <= i <= 4,
            v@ == line@,
            space_run(v@, i as int, 4) == space_run(v@, 1, 4),
        decreases 4 - i,
    {
        i += 1;
    }
    i
}

/// Line `k` of `s` after one indent or one dedent, kept byte for byte but for
/// its indentation: four spaces go in front of a line with text, or the
/// leading indent unit is removed. Its terminator, whatever it is, stays.
pub open spec fn shifted_line(s: Seq<char>, k: int, indent: bool) -> Seq<char> {
    let t = text::line_text(s, k);
    let r = text::raw_line(s, k as nat);
    if indent {
        if t.len() == 0 { r } else { "    "@ + r }
    } else {
        r.skip(indent_width(t))
    }
}

/// Lines `start .. start + n` of `s`, each shifted.
pub open spec fn shift_join(s: Seq<char>, start: int, n: int, indent: bool) -> Seq<char>
    decreases n,
{
    if n <= 0 {
        Seq::empty()
    } else {
        shift_join(s, start, n - 1, indent) + shifted_line(s, start + n - 1, indent)
    }
}

/// How far the columns of line `line` move under the shift.
pub open spec fn line_shift_spec(s: Seq<char>, line: int, indent: bool) -> int {
    let t = text::line_text(s, line);
    if indent {
        if t.len() == 0 { 0 } else { 4 }
    } else {
        -indent_width(t)
    }
}

/// Cursor `c` carried along by the shift of lines `start..=end` (clamped at column 0).
pub open spec fn recol_spec(s: Seq<char>, c: Cursor, start: int, end: int, indent: bool) -> Cursor {
    if c.line < start || c.line > end {
        c
    } else {
        let col = c.col + line_shift_spec(s, c.line as int, indent);
        Cursor { line: c.line, col: if col < 0 { 0 } else { col as usize } }
    }
}

/// What shifting lines `start..=end` does: nothing when no line changes,
/// else one undo step rewriting those lines and carrying cursor and anchor.
pub open spec fn shift_lines_post(old: Buffer, new: Buffer, start: int, end: int, indent: bool) -> bool {
    let s = old.text();
    let rs = text::line_start(s, start as nat);
    let re = region_end_pos(s, end);
    let nt = shift_join(s, start, end - start + 1, indent);
    &&& new.wf()
    &&& nt == s.subrange(rs, re) ==> new.unchanged_from(&old)
    &&& nt != s.subrange(rs, re) ==> {
        &&& new.text() == s.take(rs) + nt + s.skip(re)
        &&& new.cur() == recol_spec(s, old.cur(), start, end, indent)
        &&& new.anc() == match old.anc() {
            Some(a) => Some(recol_spec(s, a, start, end, indent)),
            None => None,
        }
        &&& new.undo_history() == old.undo_history().push((s, old.cur()))
        &&& new.redo_history().len() == 0
        &&& new.ver() == old.ver() + 1
        &&& new.is_dirty()
        &&& fresh_step(new)
        &&& new.edited_from(&old, rs)
    }
}

/// The inputs on which indenting or dedenting the selected lines is defined:
/// the span starts within the text and columns leave room for the shift.
pub open spec fn shift_ok(b: Buffer, indent: bool) -> bool {
    match line_span(b.cur(), b.anc()) {
        None => true,
        Some((s, e)) => {
            &&& s <= text::nlines(b.text())
            &&& e < usize::MAX
            &&& b.cur().col + 4 <= isize::MAX
            &&& b.anc() matches Some(a) ==> a.col + 4 <= isize::MAX
        },
    }
}

/// What indenting (`indent`) or dedenting the selected lines does.
pub open spec fn shift_post(old: Buffer, new: Buffer, indent: bool) -> bool {
    match line_span(old.cur(), old.anc()) {
        None => new.unchanged_from(&old) && new.wf(),
        Some((s, e)) => shift_lines_post(old, new, s as int, e as int, indent),
    }
}

// ----- what the editing operations remove and reorder -----

/// `t` opens with exactly `k` spaces before anything else, counting at most four.
pub open spec fn opens_with_spaces(t: Seq<char>, k: int) -> bool {
    &&& 0 <= k <= 4
    &&& k <= t.len()
    &&& forall|j: int| 0 <= j < k ==> t[j] == ' '
    &&& (k == 4 || k == t.len() || t[k] != ' ')
}

proof fn lemma_space_run_exact(t: Seq<char>, i: int, k: int)
    requires
        0 <= i <= k,
        opens_with_spaces(t, k),
    ensures
        space_run(t, i, 4) == k,
    decreases k - i,
{
    if i < k {
        assert(t[i] == ' ');
        lemma_space_run_exact(t, i + 1, k);
    }
}

/// Law: one dedent takes off exactly one unit of indentation: every leading
/// space up to four (a line opening with two spaces loses both), a single
/// leading tab, and nothing from a line that opens with neither.
pub proof fn law_dedent_width(t: Seq<char>, k: int)
    requires
        opens_with_spaces(t, k),
    ensures
        k > 0 ==> indent_width(t) == k,
        t.len() > 0 && t[0] == '\t' ==> indent_width(t) == 1,
        k == 0 && !(t.len() > 0 && t[0] == '\t') ==> indent_width(t) == 0,
{
    if k > 0 {
        lemma_space_run_exact(t, 1, k);
    }
}

/// Law: dedenting line `k` of `s`, whose text opens with `n` spaces (at most
/// four counted), drops exactly those `n` characters from the line.
pub proof fn law_dedent_line(s: Seq<char>, k: int, n: int)
    requires
        0 <= k < text::nlines(s),
        1 <= n,
        opens_with_spaces(text::line_text(s, k), n),
    ensures
        shifted_line(s, k, false) == text::raw_line(s, k as nat).skip(n),
{
    law_dedent_width(text::line_text(s, k), n);
}

/// Law: Backspace with nothing selected deletes the one character before the
/// cursor, or both characters of a "\r\n" break the cursor sits just after.
pub proof fn law_backspace_deletes_one_char(old: Buffer, new: Buffer)
    requires
        backspace_post(old, new),
        old.selection() is None,
        pos_of(old.text(), old.cur()) > 0,
    ensures
        !(pos_of(old.text(), old.cur()) >= 2 && old.text()[pos_of(old.text(), old.cur()) - 2] == '\r'
            && old.text()[pos_of(old.text(), old.cur()) - 1] == '\n') ==> new.text() == old.text().take(
            pos_of(old.text(), old.cur()) - 1,
        ) + old.text().skip(pos_of(old.text(), old.cur())),
        (pos_of(old.text(), old.cur()) >= 2 && old.text()[pos_of(old.text(), old.cur()) - 2] == '\r'
            && old.text()[pos_of(old.text(), old.cur()) - 1] == '\n') ==> new.text() == old.text().take(
            pos_of(old.text(), old.cur()) - 2,
        ) + old.text().skip(pos_of(old.text(), old.cur())),
{
}

/// Law: Delete with nothing selected removes the one character at the
/// cursor, or both characters of a "\r\n" break starting there.
pub proof fn law_delete_removes_one_char(old: Buffer, new: Buffer)
    requires
        delete_forward_post(old, new),
        old.selection() is None,
        pos_of(old.text(), old.cur()) < old.text().len(),
    ensures
        !(old.text()[pos_of(old.text(), old.cur())] == '\r' && pos_of(old.text(), old.cur()) + 1 < old.text().len()
            && old.text()[pos_of(old.text(), old.cur()) + 1] == '\n') ==> new.text() == old.text().take(
            pos_of(old.text(), old.cur()),
        ) + old.text().skip(pos_of(old.text(), old.cur()) + 1),
        (old.text()[pos_of(old.text(), old.cur())] == '\r' && pos_of(old.text(), old.cur()) + 1 < old.text().len()
            && old.text()[pos_of(old.text(), old.cur()) + 1] == '\n') ==> new.text() == old.text().take(
            pos_of(old.text(), old.cur()),
        ) + old.text().skip(pos_of(old.text(), old.cur()) + 2),
{
}

/// Law: a block move keeps the block's lines in their own order and puts the
/// neighbouring line on the other side of it — moving up, the block's lines
/// then the line above; moving down, the line below then the block's lines.
/// Moving a block up and then back down puts every line back in its slot.
pub proof fn law_block_order(start: int, end: int)
    requires
        1 <= start <= end,
    ensures
        block_order(start, end, -1).len() == end - start + 2,
        forall|i: int, j: int|
            0 <= i < j <= end - start ==> #[trigger] block_order(start, end, -1)[i] < #[trigger] block_order(
                start,
                end,
                -1,
            )[j],
        forall|i: int| 0 <= i <= end - start ==> start <= #[trigger] block_order(start, end, -1)[i] <= end,
        block_order(start, end, -1)[end - start + 1] == start - 1,
        block_order(start, end, 1).len() == end - start + 2,
        block_order(start, end, 1)[0] == end + 1,
        forall|i: int, j: int|
            1 <= i < j <= end - start + 1 ==> #[trigger] block_order(start, end, 1)[i] < #[trigger] block_order(
                start,
                end,
                1,
            )[j],
        forall|i: int| 1 <= i <= end - start + 1 ==> start <= #[trigger] block_order(start, end, 1)[i] <= end,
        forall|i: int|
            0 <= i < end - start + 2 ==> block_order(start, end, -1)[#[trigger] block_order(start - 1, end - 1, 1)[i]
                - (start - 1)] == start - 1 + i,
{
}

/// Law: indenting a line puts exactly four spaces in front of it, and leaves
/// a blank line (one with no text) as it is.
pub proof fn law_indent_line(s: Seq<char>, k: int)
    requires
        0 <= k < text::nlines(s),
    ensures
        text::line_text(s, k).len() > 0 ==> shifted_line(s, k, true) == seq![' ', ' ', ' ', ' '] + text::raw_line(
            s,
            k as nat,
        ),
        text::line_text(s, k).len() == 0 ==> shifted_line(s, k, true) == text::raw_line(s, k as nat),
{
    reveal_strlit("    ");
    assert("    "@ =~= seq![' ', ' ', ' ', ' ']);
}

proof fn lemma_lead_blank_from(t: Seq<char>, i: int)
    requires
        0 <= i <= t.len(),
    ensures
        i <= lead_blank_from(t, i) <= t.len(),
        forall|j: int| i <= j < lead_blank_from(t, i) ==> #[trigger] t[j] == ' ' || t[j] == '\t',
        lead_blank_from(t, i) == t.len() || (t[lead_blank_from(t, i)] != ' ' && t[lead_blank_from(t, i)] != '\t'),
    decreases t.len() - i,
{
    if i < t.len() && is_blank(t[i]) {
        lemma_lead_blank_from(t, i + 1);
    }
}

/// Law: the leading blanks of a text are exactly its opening run of spaces
/// and tabs: everything before the count is a space or a tab, and the
/// character at the count (if any) is neither.
pub proof fn law_lead_blank(t: Seq<char>)
    ensures
        0 <= lead_blank(t) <= t.len(),
        forall|j: int| 0 <= j < lead_blank(t) ==> #[trigger] t[j] == ' ' || t[j] == '\t',
        lead_blank(t) == t.len() || (t[lead_blank(t)] != ' ' && t[lead_blank(t)] != '\t'),
{
    lemma_lead_blank_from(t, 0);
}

/// Law: Enter carries the indentation of the cursor's line: exactly the run
/// of spaces and tabs that opens the line, cut at the cursor — all of it when
/// the cursor is past it, none of the text after it.
pub proof fn law_newline_indent(s: Seq<char>, c: Cursor)
    ensures
        indent_of(s, c).len() <= text::line_text(s, c.line as int).len(),
        indent_of(s, c).len() <= c.col,
        indent_of(s, c) == text::line_text(s, c.line as int).take(indent_of(s, c).len() as int),
        forall|j: int| 0 <= j < indent_of(s, c).len() ==> #[trigger] indent_of(s, c)[j] == ' ' || indent_of(s, c)[j]
            == '\t',
        indent_of(s, c).len() < c.col && indent_of(s, c).len() < text::line_text(s, c.line as int).len() ==> {
            let x = text::line_text(s, c.line as int)[indent_of(s, c).len() as int];
            x != ' ' && x != '\t'
        },
{
    let t = text::line_text(s, c.line as int);
    let p = t.take(if c.col < t.len() { c.col as int } else { t.len() as int });
    lemma_lead_blank_from(p, 0);
    let n = lead_blank(p);
    assert(indent_of(s, c) == p.take(n));
    assert(p.take(n) =~= t.take(n));
    if n < c.col && n < t.len() {
        assert(p[n] == t[n]);
    }
}

/// Law: Enter breaks the line with the line's own terminator ("\r\n" or
/// "\n"); on the last line, which has none, with the one of the line above,
/// and "\n" when that one is not "\r\n" either.
pub proof fn law_newline_break(s: Seq<char>, k: int)
    requires
        0 <= k < text::nlines(s),
    ensures
        text::ending_kind(s, k) == 2 ==> newline_for_spec(s, k) == seq!['\r', '\n'],
        text::ending_kind(s, k) == 1 ==> newline_for_spec(s, k) == seq!['\n'],
        text::ending_kind(s, k) == 0 && k >= 1 && text::ending_kind(s, k - 1) == 2 ==> newline_for_spec(s, k)
            == seq!['\r', '\n'],
        text::ending_kind(s, k) == 0 && !(k >= 1 && text::ending_kind(s, k - 1) == 2) ==> newline_for_spec(s, k)
            == seq!['\n'],
{
}

proof fn lemma_word_start(t: Seq<char>, col: int)
    requires
        0 <= col <= t.len(),
    ensures
        0 <= word_start(t, col) <= col,
        forall|j: int| word_start(t, col) <= j < col ==> is_word(#[trigger] t[j]),
        word_start(t, col) == 0 || !is_word(t[word_start(t, col) - 1]),
    decreases col,
{
    if 0 < col && is_word(t[col - 1]) {
        lemma_word_start(t, col - 1);
    }
}

proof fn lemma_word_end(t: Seq<char>, col: int)
    requires
        0 <= col <= t.len(),
    ensures
        col <= word_end(t, col) <= t.len(),
        forall|j: int| col <= j < word_end(t, col) ==> is_word(#[trigger] t[j]),
        word_end(t, col) == t.len() || !is_word(t[word_end(t, col)]),
    decreases t.len() - col,
{
    if col < t.len() && is_word(t[col]) {
        lemma_word_end(t, col + 1);
    }
}

/// Law: the word around a column is the whole run of word characters
/// (letters, digits, `_`) through it: every character between its ends is a
/// word character, and neither end can grow.
pub proof fn law_word_bounds(t: Seq<char>, col: int)
    requires
        0 <= col <= t.len(),
    ensures
        0 <= word_start(t, col) <= col <= word_end(t, col) <= t.len(),
        forall|j: int| word_start(t, col) <= j < word_end(t, col) ==> is_word(#[trigger] t[j]),
        word_start(t, col) == 0 || !is_word(t[word_start(t, col) - 1]),
        word_end(t, col) == t.len() || !is_word(t[word_end(t, col)]),
{
    lemma_word_start(t, col);
    lemma_word_end(t, col);
}

proof fn lemma_skip_ws_fwd(s: Seq<char>, i: int)
    requires
        0 <= i <= s.len(),
    ensures
        i <= skip_ws_fwd(s, i) <= s.len(),
        forall|k: int| i <= k < skip_ws_fwd(s, i) ==> chars::is_ws(#[trigger] s[k]),
        skip_ws_fwd(s, i) < s.len() ==> !chars::is_ws(s[skip_ws_fwd(s, i)]),
    decreases s.len() - i,
{
    if i < s.len() && chars::is_ws(s[i]) {
        lemma_skip_ws_fwd(s, i + 1);
    }
}

proof fn lemma_skip_run_fwd(s: Seq<char>, i: int, word: bool)
    requires
        0 <= i <= s.len(),
    ensures
        i <= skip_run_fwd(s, i, word) <= s.len(),
        forall|k: int| i <= k < skip_run_fwd(s, i, word) ==> !chars::is_ws(#[trigger] s[k]) && is_word(s[k]) == word,
        skip_run_fwd(s, i, word) < s.len() ==> chars::is_ws(s[skip_run_fwd(s, i, word)]) || is_word(
            s[skip_run_fwd(s, i, word)],
        ) != word,
    decreases s.len() - i,
{
    if i < s.len() && !chars::is_ws(s[i]) && is_word(s[i]) == word {
        lemma_skip_run_fwd(s, i + 1, word);
    }
}

proof fn lemma_skip_ws_back(s: Seq<char>, i: int)
    requires
        0 <= i <= s.len(),
    ensures
        0 <= skip_ws_back(s, i) <= i,
        forall|k: int| skip_ws_back(s, i) <= k < i ==> chars::is_ws(#[trigger] s[k]),
        skip_ws_back(s, i) > 0 ==> !chars::is_ws(s[skip_ws_back(s, i) - 1]),
    decreases i,
{
    if 0 < i && chars::is_ws(s[i - 1]) {
        lemma_skip_ws_back(s, i - 1);
    }
}

proof fn lemma_skip_run_back(s: Seq<char>, i: int, word: bool)
    requires
        0 <= i <= s.len(),
    ensures
        0 <= skip_run_back(s, i, word) <= i,
        forall|k: int| skip_run_back(s, i, word) <= k < i ==> !chars::is_ws(#[trigger] s[k]) && is_word(s[k]) == word,
        skip_run_back(s, i, word) > 0 ==> chars::is_ws(s[skip_run_back(s, i, word) - 1]) || is_word(
            s[skip_run_back(s, i, word) - 1],
        ) != word,
    decreases i,
{
    if 0 < i && !chars::is_ws(s[i - 1]) && is_word(s[i - 1]) == word {
        lemma_skip_run_back(s, i - 1, word);
    }
}

/// Law: Ctrl+Right goes over the whitespace after the cursor (up to `w`, the
/// first other character) and then over one run of characters of a single
/// class (word characters, or other visible characters), stopping where that
/// run ends: at whitespace, at a character of the other class, or at the end
/// of the text.
pub proof fn law_word_right(s: Seq<char>, i: int, w: int)
    requires
        0 <= i <= w <= s.len(),
        forall|k: int| i <= k < w ==> chars::is_ws(#[trigger] s[k]),
        w < s.len() ==> !chars::is_ws(s[w]),
    ensures
        w <= word_right_pos(s, i) <= s.len(),
        w == s.len() ==> word_right_pos(s, i) == s.len(),
        w < s.len() ==> word_right_pos(s, i) > w,
        forall|k: int|
            w <= k < word_right_pos(s, i) ==> !chars::is_ws(#[trigger] s[k]) && is_word(s[k]) == is_word(s[w]),
        w < word_right_pos(s, i) < s.len() ==> chars::is_ws(s[word_right_pos(s, i)]) || is_word(
            s[word_right_pos(s, i)],
        ) != is_word(s[w]),
{
    lemma_skip_ws_fwd(s, i);
    let v = skip_ws_fwd(s, i);
    if v < w {
        assert(chars::is_ws(s[v]));
    }
    if w < v {
        assert(chars::is_ws(s[w]));
    }
    assert(v == w);
    if w < s.len() {
        lemma_skip_run_fwd(s, w, is_word(s[w]));
        lemma_skip_run_fwd(s, w + 1, is_word(s[w]));
    }
}

/// Law: Ctrl+Left goes back over the whitespace before the cursor (down to
/// `w`, just after the last other character) and then over one run of
/// characters of a single class, stopping at its start: after whitespace,
/// after a character of the other class, or at the start of the text.
pub proof fn law_word_left(s: Seq<char>, i: int, w: int)
    requires
        0 <= w <= i <= s.len(),
        forall|k: int| w <= k < i ==> chars::is_ws(#[trigger] s[k]),
        w > 0 ==> !chars::is_ws(s[w - 1]),
    ensures
        0 <= word_left_pos(s, i) <= w,
        w == 0 ==> word_left_pos(s, i) == 0,
        w > 0 ==> word_left_pos(s, i) < w,
        forall|k: int|
            word_left_pos(s, i) <= k < w ==> !chars::is_ws(#[trigger] s[k]) && is_word(s[k]) == is_word(s[w - 1]),
        0 < word_left_pos(s, i) < w ==> chars::is_ws(s[word_left_pos(s, i) - 1]) || is_word(
            s[word_left_pos(s, i) - 1],
        ) != is_word(s[w - 1]),
{
    lemma_skip_ws_back(s, i);
    let v = skip_ws_back(s, i);
    if v < w {
        assert(chars::is_ws(s[w - 1]));
    }
    if w < v {
        assert(chars::is_ws(s[v - 1]));
    }
    assert(v == w);
    if w > 0 {
        lemma_skip_run_back(s, w, is_word(s[w - 1]));
        lemma_skip_run_back(s, w - 1, is_word(s[w - 1]));
    }
}

} // verus!
