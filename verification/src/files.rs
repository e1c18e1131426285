//! The Files panel's row layout and click hit-testing.

use vstd::prelude::*;
use crate::chars;
use crate::ui::Rect;

verus! {

/// Columns reserved at the right edge of a directory row for the
/// "new file" / "new folder" buttons: `[icon][space][space][icon][space]`.
pub const ACTION_COLS: usize = 5;

/// Non-ASCII rows use two disclosure cells, a file icon and a separating space.
pub const ROW_PREFIX_WIDTH: usize = 4;

/// Minimum width that can hold the prefix, one name cell, and action buttons.
pub const MIN_ACTION_WIDTH: usize = ROW_PREFIX_WIDTH + 1 + ACTION_COLS;

/// Cells before a row's name: disclosure marker, plus icon and space unless ASCII.
pub open spec fn prefix_width(ascii_icons: bool) -> int {
    if ascii_icons { 2 } else { 4 }
}

pub fn row_prefix_width(ascii_icons: bool) -> (w: usize)
    ensures
        w == prefix_width(ascii_icons),
{
    if ascii_icons { 2 } else { ROW_PREFIX_WIDTH }
}

/// Whether a directory row at tree `depth` has room for the right-edge
/// new-file / new-folder buttons: indent + tree prefix + at least one name
/// cell + the buttons.
pub open spec fn buttons_fit(width: usize, depth: usize, ascii_icons: bool) -> bool {
    let p = prefix_width(ascii_icons);
    width >= p + 1 + ACTION_COLS && width >= 2 * depth + p + 1 + ACTION_COLS
}

/// Whether a directory row at tree `depth` has room for its buttons. Shared by
/// rendering and `file_hit`, so a button that is not drawn is never clickable.
pub fn dir_buttons_fit(width: usize, depth: usize, ascii_icons: bool) -> (r: bool)
    requires
        2 * depth + 10 <= usize::MAX,
    ensures
        r == buttons_fit(width, depth, ascii_icons),
{
    let prefix_width = row_prefix_width(ascii_icons);
    width >= prefix_width + 1 + ACTION_COLS && width >= 2 * depth + prefix_width + 1 + ACTION_COLS
}

/// What a click in the file tree landed on.
#[derive(Clone, Copy, Debug, PartialEq, Eq, Structural)]
pub enum FileHit {
    /// A tree row (open the file / toggle the directory).
    Row(usize),
    /// The "new file" button on the directory row at this index.
    NewFile(usize),
    /// The "new folder" button on the directory row at this index.
    NewFolder(usize),
    /// The "new file" button in the panel header (create in the workspace root).
    NewFileRoot,
    /// The "new folder" button in the panel header (create in the workspace root).
    NewFolderRoot,
}

/// (new file, new folder) button glyphs — codicons, or plus signs in ASCII mode.
pub open spec fn action_icons_spec(ascii_icons: bool) -> (Seq<char>, Seq<char>) {
    if ascii_icons { ("+"@, "+"@) } else { ("\u{ea7f}"@, "\u{ea80}"@) }
}

pub fn action_icons(ascii_icons: bool) -> (r: (&'static str, &'static str))
    ensures
        (r.0@, r.1@) == action_icons_spec(ascii_icons),
{
    if ascii_icons {
        ("+", "+")
    } else {
        ("\u{ea7f}", "\u{ea80}")  // new-file, new-folder

    }
}

/// A name cut to `max` columns, the cut marked with `…`.
pub open spec fn fit_name_spec(name: Seq<char>, max: usize) -> Seq<char> {
    if name.len() <= max {
        name
    } else if max <= 1 {
        "…"@
    } else {
        name.take(max - 1) + "…"@
    }
}

/// Truncates a name to `max` columns, marking the cut with `…`.
pub fn fit_name(name: &str, max: usize) -> (r: String)
    ensures
        r@ == fit_name_spec(name@, max),
        max >= 1 ==> r@.len() <= max,
{
    let v = chars::str_chars(name);
    if v.len() <= max {
        return chars::str_to_string(name);
    }
    if max <= 1 {
        proof {
            reveal_strlit("…");
        }
        return chars::str_to_string("…");
    }
    let mut head = chars::range_string(&v, 0, max - 1);
    chars::string_push_str(&mut head, "…");
    proof {
        reveal_strlit("…");
    }
    head
}

/// Hit-test for the Files header buttons in the workspace-root row `row`:
/// the "new file" glyph sits `ACTION_COLS` cells from the right edge, the
/// "new folder" glyph two cells from it; the cells between are inert.
pub open spec fn header_hit_spec(row: Rect, x: u16, y: u16) -> Option<FileHit> {
    let width = row.width as int;
    if y != row.y || x < row.x || x >= row.x + row.width || width < MIN_ACTION_WIDTH {
        None
    } else {
        let col = x - row.x;
        if col == width - 2 {
            Some(FileHit::NewFolderRoot)
        } else if col == width - ACTION_COLS {
            Some(FileHit::NewFileRoot)
        } else {
            None
        }
    }
}

/// Hit-test for the Files header buttons, given the workspace-root row (the
/// row directly below the panel title).
pub fn files_header_hit(row: Rect, x: u16, y: u16) -> (r: Option<FileHit>)
    requires
        row.x + row.width <= u16::MAX,
    ensures
        r == header_hit_spec(row, x, y),
{
    let width = row.width as usize;
    if y != row.y || x < row.x || x >= row.x + row.width || width < MIN_ACTION_WIDTH {
        return None;
    }
    let col = x.saturating_sub(row.x) as usize;
    // The last five cells render "[file][ ][ ][folder][ ]".
    if col == width - 2 {
        return Some(FileHit::NewFolderRoot);
    }
    if col == width - ACTION_COLS {
        return Some(FileHit::NewFileRoot);
    }
    None
}

/// The tree row under screen row `y` of the list `body`, scrolled by `offset`
/// rows, with `rows_len` rows in all.
pub open spec fn row_at_spec(body: Rect, offset: usize, rows_len: usize, y: u16) -> Option<usize> {
    if y < body.y || y >= body.y + body.height {
        None
    } else {
        let idx = offset + (y - body.y);
        if idx < rows_len { Some(idx as usize) } else { None }
    }
}

/// Returns the visible row index in the file tree based on the mouse y.
pub fn file_row_at(body: Rect, offset: usize, rows_len: usize, y: u16) -> (r: Option<usize>)
    requires
        body.y + body.height <= u16::MAX,
        offset <= rows_len,
        rows_len + u16::MAX <= usize::MAX,
    ensures
        r == row_at_spec(body, offset, rows_len, y),
{
    if y < body.y || y >= body.y + body.height {
        return None;
    }
    let idx = offset + (y - body.y) as usize;
    if idx < rows_len { Some(idx) } else { None }
}

/// The shape of a tree row that hit-testing reads.
#[derive(Clone, Copy, Debug, PartialEq, Eq, Structural)]
pub struct RowShape {
    pub is_dir: bool,
    pub depth: usize,
}

/// What a click at `(x, y)` lands on: on a directory row with room for its
/// buttons, the new-file glyph (`ACTION_COLS` cells from the right edge) or
/// the new-folder glyph (two cells from it); anywhere else on a row, the row.
pub open spec fn file_hit_spec(body: Rect, offset: usize, rows: Seq<RowShape>, ascii_icons: bool, x: u16, y: u16) -> Option<FileHit> {
    match row_at_spec(body, offset, rows.len() as usize, y) {
        None => None,
        Some(idx) => {
            let row = rows[idx as int];
            let width = body.width as usize;
            let col = if x >= body.x { x - body.x } else { 0 };
            if row.is_dir && buttons_fit(width, row.depth, ascii_icons) && col == width - 2 {
                Some(FileHit::NewFolder(idx))
            } else if row.is_dir && buttons_fit(width, row.depth, ascii_icons) && col == width - ACTION_COLS {
                Some(FileHit::NewFile(idx))
            } else {
                Some(FileHit::Row(idx))
            }
        },
    }
}

/// Converts a click into a file-tree target, given the list area `body`, its
/// scroll offset and the visible rows.
pub fn file_hit(body: Rect, offset: usize, rows: &Vec<RowShape>, ascii_icons: bool, x: u16, y: u16) -> (r: Option<FileHit>)
    requires
        body.y + body.height <= u16::MAX,
        offset <= rows@.len(),
        rows@.len() + u16::MAX <= usize::MAX,
        forall|i: int| 0 <= i < rows@.len() ==> 2 * (#[trigger] rows@[i]).depth + 10 <= usize::MAX,
    ensures
        r == file_hit_spec(body, offset, rows@, ascii_icons, x, y),
{
    let idx = match file_row_at(body, offset, rows.len(), y) {
        Some(i) => i,
        None => return None,
    };
    let row = rows[idx];
    let width = body.width as usize;
    let col = x.saturating_sub(body.x) as usize;
    if row.is_dir && dir_buttons_fit(width, row.depth, ascii_icons) {
        // Exact glyph columns only; the gap between them falls through to Row.
        if col == width - 2 {
            return Some(FileHit::NewFolder(idx));
        }
        if col == width - ACTION_COLS {
            return Some(FileHit::NewFile(idx));
        }
    }
    Some(FileHit::Row(idx))
}

/// What a click on the Files panel does.
#[derive(Clone, Copy, Debug, PartialEq, Eq, Structural)]
pub enum FilesClick {
    /// Ask for a new file (or folder) in the workspace root.
    RootEntry { folder: bool },
    /// Ask for a new file (or folder) inside the directory row at `row`.
    DirEntry { row: usize, folder: bool },
    /// Select the directory row and toggle it open or closed.
    Toggle(usize),
    /// Select the file row and preview it, keeping the keyboard in the tree.
    Preview(usize),
    /// Nothing.
    Ignore,
}

/// The header's buttons take priority over the tree; a row click toggles a
/// directory and previews anything else.
pub open spec fn files_click_spec(header: Option<FileHit>, hit: Option<FileHit>, rows: Seq<RowShape>) -> FilesClick {
    match header {
        Some(FileHit::NewFileRoot) => FilesClick::RootEntry { folder: false },
        Some(FileHit::NewFolderRoot) => FilesClick::RootEntry { folder: true },
        Some(_) => FilesClick::Ignore,
        None => match hit {
            Some(FileHit::Row(idx)) => if idx < rows.len() && rows[idx as int].is_dir {
                FilesClick::Toggle(idx)
            } else {
                FilesClick::Preview(idx)
            },
            Some(FileHit::NewFile(idx)) => FilesClick::DirEntry { row: idx, folder: false },
            Some(FileHit::NewFolder(idx)) => FilesClick::DirEntry { row: idx, folder: true },
            Some(FileHit::NewFileRoot) => FilesClick::RootEntry { folder: false },
            Some(FileHit::NewFolderRoot) => FilesClick::RootEntry { folder: true },
            None => FilesClick::Ignore,
        },
    }
}

/// Decides a click on the Files panel from what the header (`header`) and
/// the tree (`hit`) report under the pointer, given the visible rows.
pub fn files_click(header: Option<FileHit>, hit: Option<FileHit>, rows: &Vec<RowShape>) -> (r: FilesClick)
    ensures
        r == files_click_spec(header, hit, rows@),
{
    match header {
        Some(FileHit::NewFileRoot) => return FilesClick::RootEntry { folder: false },
        Some(FileHit::NewFolderRoot) => return FilesClick::RootEntry { folder: true },
        Some(_) => return FilesClick::Ignore,
        None => {},
    }
    match hit {
        Some(FileHit::Row(idx)) => {
            if idx < rows.len() && rows[idx].is_dir {
                FilesClick::Toggle(idx)
            } else {
                FilesClick::Preview(idx)
            }
        },
        Some(FileHit::NewFile(idx)) => FilesClick::DirEntry { row: idx, folder: false },
        Some(FileHit::NewFolder(idx)) => FilesClick::DirEntry { row: idx, folder: true },
        Some(FileHit::NewFileRoot) => FilesClick::RootEntry { folder: false },
        Some(FileHit::NewFolderRoot) => FilesClick::RootEntry { folder: true },
        None => FilesClick::Ignore,
    }
}

/// `s` padded with spaces on the right to `w` cells (`{:<w$}`).
pub open spec fn pad_right(s: Seq<char>, w: int) -> Seq<char> {
    if s.len() < w { s + Seq::new((w - s.len()) as nat, |i: int| ' ') } else { s }
}

/// The disclosure marker of a tree row: open or closed for a directory,
/// blank for a file.
pub open spec fn disclosure_spec(is_dir: bool, expanded: bool) -> Seq<char> {
    if is_dir {
        if expanded { "▾ "@ } else { "▸ "@ }
    } else {
        "  "@
    }
}

/// The texts, in order, that a tree row at `depth` is drawn from in a panel
/// `width` cells wide: its indent, disclosure marker, file icon and a space
/// (unless ASCII icons are on), then either the name alone or, on a directory
/// with room for them, the name cut and padded to what the buttons leave,
/// followed by the new-file and new-folder buttons.
pub open spec fn row_pieces_spec(name: Seq<char>, depth: usize, is_dir: bool, expanded: bool, ascii_icons: bool, width: usize) -> Seq<Seq<char>> {
    let indent = Seq::new((2 * depth) as nat, |i: int| ' ');
    let head = seq![indent, disclosure_spec(is_dir, expanded)] + if ascii_icons {
        Seq::<Seq<char>>::empty()
    } else {
        seq![crate::icons::file_glyph(name, is_dir, expanded), " "@]
    };
    if is_dir && buttons_fit(width, depth, ascii_icons) {
        let avail = width - (2 * depth + prefix_width(ascii_icons) + ACTION_COLS);
        let (new_file, new_folder) = action_icons_spec(ascii_icons);
        head + seq![pad_right(fit_name_spec(name, avail as usize), avail), new_file, "  "@, new_folder, " "@]
    } else {
        head + seq![name]
    }
}

/// The texts of one file-tree row, in drawing order.
pub fn file_row_pieces(name: &str, depth: usize, is_dir: bool, expanded: bool, ascii_icons: bool, width: usize) -> (r: Vec<String>)
    requires
        2 * depth + 10 <= usize::MAX,
    ensures
        r.deep_view() == row_pieces_spec(name@, depth, is_dir, expanded, ascii_icons, width),
{
    let mut pieces: Vec<String> = Vec::new();
    pieces.push(chars::spaces(2 * depth));
    let disclosure = if is_dir {
        if expanded { "▾ " } else { "▸ " }
    } else {
        "  "
    };
    pieces.push(chars::str_to_string(disclosure));
    if !ascii_icons {
        pieces.push(chars::str_to_string(crate::icons::file(name, is_dir, expanded)));
        pieces.push(chars::str_to_string(" "));
    }
    let ghost head = pieces.deep_view();
    if is_dir && dir_buttons_fit(width, depth, ascii_icons) {
        let avail = width - (2 * depth + row_prefix_width(ascii_icons) + ACTION_COLS);
        let fitted = fit_name(name, avail);
        let n = chars::char_count(fitted.as_str());
        let mut cell = fitted;
        if n < avail {
            let pad = chars::spaces(avail - n);
            chars::string_push_str(&mut cell, pad.as_str());
        }
        let (new_file, new_folder) = action_icons(ascii_icons);
        pieces.push(cell);
        pieces.push(chars::str_to_string(new_file));
        pieces.push(chars::str_to_string("  "));
        pieces.push(chars::str_to_string(new_folder));
        pieces.push(chars::str_to_string(" "));
    } else {
        pieces.push(chars::str_to_string(name));
    }
    assert(pieces.deep_view() =~= row_pieces_spec(name@, depth, is_dir, expanded, ascii_icons, width));
    pieces
}

} // verus!
