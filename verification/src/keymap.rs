//! VSCode-style keyboard mapping: (key press, focus) -> action.

use vstd::prelude::*;
use crate::chars;
use crate::keybindings::{self, Keybindings};
use crate::keys::{KeyCode, KeyEvent};
use crate::panel::{Focus, Panel};

verus! {

/// High-level action to be applied by the application's update step.
#[derive(Clone, Debug)]
pub enum Action {
    Quit,
    ToggleSidebar,
    ToggleTerminal,
    SelectPanel(Panel),
    Save,
    CloseTab,
    NextTab,
    PrevTab,
    // Editor
    Insert(char),
    Newline,
    InsertTab,
    Backspace,
    Delete,
    /// (direction, extend selection)
    Move(Motion, bool),
    /// Alt+Up / Alt+Down: move the current line (or selected lines) up/down.
    MoveLineUp,
    MoveLineDown,
    SelectAll,
    Copy,
    Cut,
    Paste,
    Undo,
    Redo,
    /// Explicitly request a completion popup (Ctrl+Space).
    TriggerCompletion,
    /// Format the active buffer via its language server / formatter.
    Format,
    /// Open the editable keybindings file in the editor (Alt+7).
    ShowShortcuts,
    /// Open a fresh "Untitled-N" scratch buffer.
    NewUntitledFile,
    // Sidebar navigation
    NavUp,
    NavDown,
    Activate,
    /// Tab / Shift+Tab in the Git panel: the step through the zone order.
    GitCycleZone(isize),
    /// Stage the selected change, or unstage it when it is already staged.
    GitToggleStage,
    /// Revert the selected change back to its committed state.
    GitRevertEntry,
    /// Collapse the selected folder, or jump to the parent folder's row.
    CollapseOrParent,
    // File tree entry management (Files panel)
    NewFile,
    NewFolder,
    RenameEntry,
    DeleteEntry,
    // Search input
    SearchSubmit,
    /// Tab / Shift+Tab in the search panel: the step through the Tab order.
    SearchCycleField(isize),
    SearchToggleRegex,
    // In-editor find / replace widget
    OpenFind,
    OpenFindReplace,
    // Command palette / quickbar overlay
    OpenQuickbar,
    FindNext,
    FindPrev,
    FindToggleField,
    /// Terminal raw input.
    PtyInput(Vec<u8>),
    /// Toggle the "leader" state: the next locked command fires directly.
    Leader,
    Escape,
}

#[derive(Clone, Copy, Debug, PartialEq, Eq, Structural)]
pub enum Motion {
    Left,
    Right,
    Up,
    Down,
    Home,
    End,
    PageUp,
    PageDown,
    WordLeft,
    WordRight,
}

pub open spec fn is_ascii_alnum(c: char) -> bool {
    ('a' <= c <= 'z') || ('A' <= c <= 'Z') || ('0' <= c <= '9')
}

/// The character typed through AltGr (reported as Ctrl+Alt): a visible,
/// non-alphanumeric character with both Ctrl and Alt held.
pub open spec fn altgr_spec(key: KeyEvent) -> Option<char> {
    match key.code {
        KeyCode::Char(c) => if key.modifiers.control && key.modifiers.alt && !is_ascii_alnum(c)
            && !chars::is_ctrl(c) && !chars::is_ws(c) {
            Some(c)
        } else {
            None
        },
        _ => None,
    }
}

/// A character typed through AltGr. Windows (and some terminals) report AltGr
/// as Ctrl+Alt, so e.g. AltGr+Q on a German layout arrives as Ctrl+Alt+'@'.
/// Only non-alphanumeric, visible chars count: Ctrl+Alt+<letter/digit> stays a
/// shortcut (Ctrl+Alt+F = format).
pub fn altgr_char(key: &KeyEvent) -> (r: Option<char>)
    ensures
        r == altgr_spec(*key),
{
    let m = key.modifiers;
    match key.code {
        KeyCode::Char(c) => {
            let alnum = ('a' <= c && c <= 'z') || ('A' <= c && c <= 'Z') || ('0' <= c && c <= '9');
            if m.control && m.alt && !alnum && !chars::char_is_control(c)
                && !chars::char_is_whitespace(c) {
                Some(c)
            } else {
                None
            }
        },
        _ => None,
    }
}

pub open spec fn find_spec(key: KeyEvent, shift: bool) -> Option<Action> {
    match key.code {
        KeyCode::Tab => Some(Action::FindToggleField),
        KeyCode::Enter => Some(if shift { Action::FindPrev } else { Action::FindNext }),
        KeyCode::Down => Some(Action::FindNext),
        KeyCode::Up => Some(Action::FindPrev),
        KeyCode::Esc => Some(Action::Escape),
        _ => None,
    }
}

fn resolve_find(key: KeyEvent, shift: bool) -> (r: Option<Action>)
    ensures
        r == find_spec(key, shift),
{
    // Editing/motion keys are consumed by the focused input widget upstream.
    match key.code {
        KeyCode::Tab => Some(Action::FindToggleField),
        KeyCode::Enter => Some(if shift { Action::FindPrev } else { Action::FindNext }),
        KeyCode::Down => Some(Action::FindNext),
        KeyCode::Up => Some(Action::FindPrev),
        KeyCode::Esc => Some(Action::Escape),
        _ => None,
    }
}

pub open spec fn git_commit_spec(key: KeyEvent) -> Option<Action> {
    match key.code {
        KeyCode::Tab => Some(Action::GitCycleZone(1isize)),
        KeyCode::BackTab => Some(Action::GitCycleZone(-1isize)),
        KeyCode::Esc => Some(Action::Escape),
        _ => None,
    }
}

fn resolve_git_commit(key: KeyEvent) -> (r: Option<Action>)
    ensures
        r == git_commit_spec(key),
{
    // The commit box consumes typing, motion and Enter; committing is button-only.
    match key.code {
        KeyCode::Tab => Some(Action::GitCycleZone(1isize)),
        KeyCode::BackTab => Some(Action::GitCycleZone(-1isize)),
        KeyCode::Esc => Some(Action::Escape),
        _ => None,
    }
}

pub open spec fn editor_spec(key: KeyEvent, ctrl: bool, shift: bool) -> Option<Action> {
    match altgr_spec(key) {
        Some(c) => Some(Action::Insert(c)),
        None => if ctrl {
            match key.code {
                KeyCode::Left => Some(Action::Move(Motion::WordLeft, shift)),
                KeyCode::Right => Some(Action::Move(Motion::WordRight, shift)),
                _ => None,
            }
        } else if key.modifiers.alt && key.code is Char {
            None
        } else {
            match key.code {
                KeyCode::Char(c) => Some(Action::Insert(c)),
                KeyCode::Enter => Some(Action::Newline),
                KeyCode::Tab => Some(Action::InsertTab),
                KeyCode::Backspace => Some(Action::Backspace),
                KeyCode::Delete => Some(Action::Delete),
                KeyCode::Left => Some(Action::Move(Motion::Left, shift)),
                KeyCode::Right => Some(Action::Move(Motion::Right, shift)),
                KeyCode::Up => Some(Action::Move(Motion::Up, shift)),
                KeyCode::Down => Some(Action::Move(Motion::Down, shift)),
                KeyCode::Home => Some(Action::Move(Motion::Home, shift)),
                KeyCode::End => Some(Action::Move(Motion::End, shift)),
                KeyCode::PageUp => Some(Action::Move(Motion::PageUp, shift)),
                KeyCode::PageDown => Some(Action::Move(Motion::PageDown, shift)),
                KeyCode::Esc => Some(Action::Escape),
                _ => None,
            }
        },
    }
}

fn resolve_editor(key: KeyEvent, ctrl: bool, shift: bool) -> (r: Option<Action>)
    ensures
        r == editor_spec(key, ctrl, shift),
{
    if let Some(c) = altgr_char(&key) {
        return Some(Action::Insert(c));
    }
    if ctrl {
        return match key.code {
            KeyCode::Left => Some(Action::Move(Motion::WordLeft, shift)),
            KeyCode::Right => Some(Action::Move(Motion::WordRight, shift)),
            _ => None,
        };
    }
    // Alt+char is a shortcut (panel switching, …), not text: an unbound one is
    // dropped rather than typed into the buffer.
    if key.modifiers.alt && (match key.code {
        KeyCode::Char(_) => true,
        _ => false,
    }) {
        return None;
    }
    match key.code {
        KeyCode::Char(c) => Some(Action::Insert(c)),
        KeyCode::Enter => Some(Action::Newline),
        KeyCode::Tab => Some(Action::InsertTab),
        KeyCode::Backspace => Some(Action::Backspace),
        KeyCode::Delete => Some(Action::Delete),
        KeyCode::Left => Some(Action::Move(Motion::Left, shift)),
        KeyCode::Right => Some(Action::Move(Motion::Right, shift)),
        KeyCode::Up => Some(Action::Move(Motion::Up, shift)),
        KeyCode::Down => Some(Action::Move(Motion::Down, shift)),
        KeyCode::Home => Some(Action::Move(Motion::Home, shift)),
        KeyCode::End => Some(Action::Move(Motion::End, shift)),
        KeyCode::PageUp => Some(Action::Move(Motion::PageUp, shift)),
        KeyCode::PageDown => Some(Action::Move(Motion::PageDown, shift)),
        KeyCode::Esc => Some(Action::Escape),
        _ => None,
    }
}

pub open spec fn sidebar_spec(key: KeyEvent, ctrl: bool) -> Option<Action> {
    let bare = !ctrl && !key.modifiers.alt;
    match key.code {
        KeyCode::Up => Some(Action::NavUp),
        KeyCode::Down => Some(Action::NavDown),
        KeyCode::Enter | KeyCode::Right => Some(Action::Activate),
        KeyCode::Left => Some(Action::CollapseOrParent),
        KeyCode::Char(c) => if bare && c == 'f' {
            Some(Action::NewFile)
        } else if bare && c == 'd' {
            Some(Action::NewFolder)
        } else if bare && c == 'a' {
            Some(Action::GitToggleStage)
        } else if bare && c == 'r' {
            Some(Action::GitRevertEntry)
        } else {
            None
        },
        KeyCode::Tab => if bare { Some(Action::GitCycleZone(1isize)) } else { None },
        KeyCode::BackTab => Some(Action::GitCycleZone(-1isize)),
        KeyCode::Esc => Some(Action::Escape),
        _ => None,
    }
}

fn resolve_sidebar(key: KeyEvent, ctrl: bool, _shift: bool) -> (r: Option<Action>)
    ensures
        r == sidebar_spec(key, ctrl),
{
    // A bare letter only: Ctrl+A / Alt+A are shortcuts, not panel commands.
    let bare = !ctrl && !key.modifiers.alt;
    match key.code {
        KeyCode::Up => Some(Action::NavUp),
        KeyCode::Down => Some(Action::NavDown),
        KeyCode::Enter | KeyCode::Right => Some(Action::Activate),
        KeyCode::Left => Some(Action::CollapseOrParent),
        // Files panel letter shortcuts: new file / new folder next to the
        // selected row.
        KeyCode::Char('f') if bare => Some(Action::NewFile),
        KeyCode::Char('d') if bare => Some(Action::NewFolder),
        // Git panel letter shortcuts.
        KeyCode::Char('a') if bare => Some(Action::GitToggleStage),
        KeyCode::Char('r') if bare => Some(Action::GitRevertEntry),
        KeyCode::Tab if bare => Some(Action::GitCycleZone(1isize)),
        KeyCode::BackTab => Some(Action::GitCycleZone(-1isize)),
        KeyCode::Esc => Some(Action::Escape),
        _ => None,
    }
}

pub open spec fn search_spec(key: KeyEvent) -> Option<Action> {
    if key.modifiers.control {
        match key.code {
            KeyCode::Char(c) => if c == 'r' { Some(Action::SearchToggleRegex) } else { None },
            _ => None,
        }
    } else {
        match key.code {
            KeyCode::Tab => Some(Action::SearchCycleField(1isize)),
            KeyCode::BackTab => Some(Action::SearchCycleField(-1isize)),
            KeyCode::Enter => Some(Action::SearchSubmit),
            KeyCode::Char(c) => if c == ' ' { Some(Action::SearchSubmit) } else { None },
            KeyCode::Up => Some(Action::NavUp),
            KeyCode::Down => Some(Action::NavDown),
            KeyCode::Esc => Some(Action::Escape),
            _ => None,
        }
    }
}

fn resolve_search(key: KeyEvent) -> (r: Option<Action>)
    ensures
        r == search_spec(key),
{
    let ctrl = key.modifiers.control;
    if ctrl {
        // Ctrl+R: toggle regex.
        return match key.code {
            KeyCode::Char('r') => Some(Action::SearchToggleRegex),
            _ => None,
        };
    }
    // Typing/motion is consumed by the focused input widget upstream.
    match key.code {
        KeyCode::Tab => Some(Action::SearchCycleField(1isize)),
        KeyCode::BackTab => Some(Action::SearchCycleField(-1isize)),
        // Space only gets here on a checkbox: the text inputs consume it.
        KeyCode::Enter | KeyCode::Char(' ') => Some(Action::SearchSubmit),
        KeyCode::Up => Some(Action::NavUp),
        KeyCode::Down => Some(Action::NavDown),
        KeyCode::Esc => Some(Action::Escape),
        _ => None,
    }
}

/// The UTF-8 encoding of `c`.
pub open spec fn utf8_bytes(c: char) -> Seq<u8> {
    let u = c as u32;
    if u < 0x80 {
        seq![u as u8]
    } else if u < 0x800 {
        seq![(0xC0 + u / 64) as u8, (0x80 + u % 64) as u8]
    } else if u < 0x10000 {
        seq![(0xE0 + u / 4096) as u8, (0x80 + (u / 64) % 64) as u8, (0x80 + u % 64) as u8]
    } else {
        seq![
            (0xF0 + u / 262144) as u8,
            (0x80 + (u / 4096) % 64) as u8,
            (0x80 + (u / 64) % 64) as u8,
            (0x80 + u % 64) as u8,
        ]
    }
}

/// `c` encoded as UTF-8 (`char::encode_utf8`).
pub fn utf8_encode(c: char) -> (r: Vec<u8>)
    ensures
        r@ == utf8_bytes(c),
{
    let u = c as u32;
    let mut out: Vec<u8> = Vec::new();
    if u < 0x80 {
        out.push(u as u8);
    } else if u < 0x800 {
        out.push((0xC0 + u / 64) as u8);
        out.push((0x80 + u % 64) as u8);
    } else if u < 0x10000 {
        out.push((0xE0 + u / 4096) as u8);
        out.push((0x80 + (u / 64) % 64) as u8);
        out.push((0x80 + u % 64) as u8);
    } else {
        assert(u <= 0x10FFFF);
        out.push((0xF0 + u / 262144) as u8);
        out.push((0x80 + (u / 4096) % 64) as u8);
        out.push((0x80 + (u / 64) % 64) as u8);
        out.push((0x80 + u % 64) as u8);
    }
    assert(out@ =~= utf8_bytes(c));
    out
}

/// ASCII upper-casing of one character (`char::to_ascii_uppercase`).
pub open spec fn upper_char(c: char) -> char {
    if 'a' <= c <= 'z' { ((c as u32) - 32) as char } else { c }
}

/// The bytes a key sends to the terminal's PTY, or `None` for a key it ignores.
/// Ctrl+letter becomes its control character (0x01..0x1a).
pub open spec fn pty_bytes(code: KeyCode, ctrl: bool) -> Option<Seq<u8>> {
    match code {
        KeyCode::Char(c) => {
            let up = upper_char(c);
            if ctrl && 'A' <= up <= 'Z' {
                Some(seq![((up as u32) - 0x40) as u8])
            } else {
                Some(utf8_bytes(c))
            }
        },
        KeyCode::Enter => Some(seq![13u8]),
        KeyCode::Backspace => Some(seq![0x7fu8]),
        KeyCode::Tab => Some(seq![9u8]),
        KeyCode::Esc => Some(seq![0x1bu8]),
        KeyCode::Left => Some(seq![0x1bu8, 0x5bu8, 0x44u8]),
        KeyCode::Right => Some(seq![0x1bu8, 0x5bu8, 0x43u8]),
        KeyCode::Up => Some(seq![0x1bu8, 0x5bu8, 0x41u8]),
        KeyCode::Down => Some(seq![0x1bu8, 0x5bu8, 0x42u8]),
        KeyCode::Home => Some(seq![0x1bu8, 0x5bu8, 0x48u8]),
        KeyCode::End => Some(seq![0x1bu8, 0x5bu8, 0x46u8]),
        KeyCode::Delete => Some(seq![0x1bu8, 0x5bu8, 0x33u8, 0x7eu8]),
        KeyCode::PageUp => Some(seq![0x1bu8, 0x5bu8, 0x35u8, 0x7eu8]),
        KeyCode::PageDown => Some(seq![0x1bu8, 0x5bu8, 0x36u8, 0x7eu8]),
        _ => None,
    }
}

/// `r` is the PTY input for `code`: the bytes `pty_bytes` gives, or nothing.
pub open spec fn is_pty_result(r: Option<Action>, code: KeyCode, ctrl: bool) -> bool {
    match r {
        None => pty_bytes(code, ctrl) is None,
        Some(Action::PtyInput(b)) => pty_bytes(code, ctrl) == Some(b@),
        Some(_) => false,
    }
}

/// When the terminal is focused, converts keys into raw bytes to send to the PTY.
fn resolve_terminal(key: KeyEvent, ctrl: bool, _shift: bool) -> (r: Option<Action>)
    ensures
        is_pty_result(r, key.code, ctrl),
{
    let bytes: Vec<u8> = match key.code {
        KeyCode::Char(c) => {
            if ctrl {
                // Ctrl+letter -> control character (0x01..0x1a)
                let up = if 'a' <= c && c <= 'z' { ((c as u8) - 32) as char } else { c };
                assert(up == upper_char(c)) by {
                    if 'a' <= c <= 'z' {
                        assert((c as u8) as u32 == c as u32);
                    }
                }
                if 'A' <= up && up <= 'Z' {
                    let b = vec![(up as u8) - 0x40];
                    assert(b@ =~= seq![((up as u32) - 0x40) as u8]);
                    b
                } else {
                    utf8_encode(c)
                }
            } else {
                utf8_encode(c)
            }
        },
        KeyCode::Enter => vec![13u8],
        KeyCode::Backspace => vec![0x7fu8],
        KeyCode::Tab => vec![9u8],
        KeyCode::Esc => vec![0x1bu8],
        KeyCode::Left => vec![0x1bu8, 0x5bu8, 0x44u8],
        KeyCode::Right => vec![0x1bu8, 0x5bu8, 0x43u8],
        KeyCode::Up => vec![0x1bu8, 0x5bu8, 0x41u8],
        KeyCode::Down => vec![0x1bu8, 0x5bu8, 0x42u8],
        KeyCode::Home => vec![0x1bu8, 0x5bu8, 0x48u8],
        KeyCode::End => vec![0x1bu8, 0x5bu8, 0x46u8],
        KeyCode::Delete => vec![0x1bu8, 0x5bu8, 0x33u8, 0x7eu8],
        KeyCode::PageUp => vec![0x1bu8, 0x5bu8, 0x35u8, 0x7eu8],
        KeyCode::PageDown => vec![0x1bu8, 0x5bu8, 0x36u8, 0x7eu8],
        _ => return None,
    };
    assert(pty_bytes(key.code, ctrl) == Some(bytes@));
    Some(Action::PtyInput(bytes))
}

/// A key the editor takes as typed text: an unmodified visible character.
pub open spec fn printable_editor_key(key: KeyEvent, focus: Focus) -> bool {
    &&& focus == Focus::Editor
    &&& !key.modifiers.control
    &&& !key.modifiers.alt
    &&& key.code matches KeyCode::Char(c) && !chars::is_ctrl(c)
}

/// What the user keybindings decide for a key press: `Some(result)` when they
/// settle it, `None` when it falls through to the fixed per-focus keys. A
/// locked command fires only when unlocked; otherwise the key is dropped,
/// except that an editor keystroke that is plain text falls through as typing.
pub open spec fn binding_phase(
    binds: Seq<(keybindings::Bindable, keybindings::Chord, bool)>,
    key: KeyEvent,
    focus: Focus,
    unlock: bool,
) -> Option<Option<Action>> {
    match keybindings::lookup(binds, key, focus) {
        None => None,
        Some(i) => if !binds[i].2 || unlock {
            Some(Some(keybindings::action_of(binds[i].0)))
        } else if printable_editor_key(key, focus) {
            None
        } else {
            Some(None)
        },
    }
}

/// The fixed keys of every focus but the terminal.
pub open spec fn fallback_spec(key: KeyEvent, focus: Focus) -> Option<Action> {
    let ctrl = key.modifiers.control;
    let shift = key.modifiers.shift;
    match focus {
        Focus::Editor => editor_spec(key, ctrl, shift),
        Focus::Sidebar => sidebar_spec(key, ctrl),
        Focus::SearchInput => search_spec(key),
        Focus::GitCommit => git_commit_spec(key),
        Focus::Find => find_spec(key, shift),
        Focus::Terminal => None,
    }
}

/// Resolves a key press in `focus`: the user keybindings first (a locked one
/// only when `unlock`), then the fixed keys of the focus.
pub fn resolve(keys: &Keybindings, key: KeyEvent, focus: Focus, unlock: bool) -> (r: Option<Action>)
    ensures
        match binding_phase(keys@, key, focus, unlock) {
            Some(x) => r == x,
            None => if focus == Focus::Terminal {
                is_pty_result(r, key.code, key.modifiers.control)
            } else {
                r == fallback_spec(key, focus)
            },
        },
{
    let ctrl = key.modifiers.control;
    let shift = key.modifiers.shift;
    // User-editable command shortcuts (quit, save, copy, new file, ...) win first.
    if let Some(full) = keys.resolve_full(key, focus) {
        if !full.locked || unlock {
            return Some(full.action);
        }
        let printable_editor_key = focus == Focus::Editor && !ctrl && !key.modifiers.alt && (
        match key.code {
            KeyCode::Char(c) => !chars::char_is_control(c),
            _ => false,
        });
        if !printable_editor_key {
            return None;
        }
    }
    match focus {
        Focus::Terminal => resolve_terminal(key, ctrl, shift),
        Focus::Editor => resolve_editor(key, ctrl, shift),
        Focus::Sidebar => resolve_sidebar(key, ctrl, shift),
        Focus::SearchInput => resolve_search(key),
        Focus::GitCommit => resolve_git_commit(key),
        Focus::Find => resolve_find(key, shift),
    }
}

/// The caret motion a navigation key makes in the editor.
pub open spec fn nav_motion(code: KeyCode) -> Option<Motion> {
    match code {
        KeyCode::Left => Some(Motion::Left),
        KeyCode::Right => Some(Motion::Right),
        KeyCode::Up => Some(Motion::Up),
        KeyCode::Down => Some(Motion::Down),
        KeyCode::Home => Some(Motion::Home),
        KeyCode::End => Some(Motion::End),
        KeyCode::PageUp => Some(Motion::PageUp),
        KeyCode::PageDown => Some(Motion::PageDown),
        _ => None,
    }
}

/// Law: in the editor a navigation key held without Ctrl or Alt moves the
/// caret by its motion, extending the selection exactly when Shift is held;
/// with Ctrl, Left and Right move by words, Shift again deciding the
/// extension. Shift never changes the motion, only whether it selects. The
/// editing keys do their edit, a plain character is typed, and an Alt+char
/// (a shortcut) types nothing.
pub proof fn law_editor_shift_extends(key: KeyEvent)
    ensures
        !key.modifiers.control && !key.modifiers.alt && nav_motion(key.code) is Some ==> fallback_spec(
            key,
            Focus::Editor,
        ) == Some(Action::Move(nav_motion(key.code)->0, key.modifiers.shift)),
        !key.modifiers.control && !key.modifiers.alt && key.code == KeyCode::Enter ==> fallback_spec(key, Focus::Editor)
            == Some(Action::Newline),
        !key.modifiers.control && !key.modifiers.alt && key.code == KeyCode::Tab ==> fallback_spec(key, Focus::Editor)
            == Some(Action::InsertTab),
        !key.modifiers.control && !key.modifiers.alt && key.code == KeyCode::Backspace ==> fallback_spec(
            key,
            Focus::Editor,
        ) == Some(Action::Backspace),
        !key.modifiers.control && !key.modifiers.alt && key.code == KeyCode::Delete ==> fallback_spec(
            key,
            Focus::Editor,
        ) == Some(Action::Delete),
        !key.modifiers.control && !key.modifiers.alt && key.code == KeyCode::Esc ==> fallback_spec(key, Focus::Editor)
            == Some(Action::Escape),
        forall|c: char|
            !key.modifiers.control && key.code == KeyCode::Char(c) ==> #[trigger] fallback_spec(key, Focus::Editor)
                == (if key.modifiers.alt {
                None
            } else {
                Some(Action::Insert(c))
            }),
        key.modifiers.control && key.code == KeyCode::Left ==> fallback_spec(key, Focus::Editor) == Some(
            Action::Move(Motion::WordLeft, key.modifiers.shift),
        ),
        key.modifiers.control && key.code == KeyCode::Right ==> fallback_spec(key, Focus::Editor) == Some(
            Action::Move(Motion::WordRight, key.modifiers.shift),
        ),
{
}

/// Law: in the find bar Enter searches forward, Shift+Enter backward; Down
/// and Up step to the next and previous match; Tab switches between the
/// find and replace fields; Esc closes.
pub proof fn law_find_keys(key: KeyEvent)
    ensures
        key.code == KeyCode::Enter ==> fallback_spec(key, Focus::Find) == Some(
            if key.modifiers.shift { Action::FindPrev } else { Action::FindNext },
        ),
        key.code == KeyCode::Down ==> fallback_spec(key, Focus::Find) == Some(Action::FindNext),
        key.code == KeyCode::Up ==> fallback_spec(key, Focus::Find) == Some(Action::FindPrev),
        key.code == KeyCode::Tab ==> fallback_spec(key, Focus::Find) == Some(Action::FindToggleField),
        key.code == KeyCode::Esc ==> fallback_spec(key, Focus::Find) == Some(Action::Escape),
{
}

/// Law: in the file and git panels a bare letter runs its panel command
/// (`f` new file, `d` new folder, `a` stage, `r` revert) and the same letter
/// with Ctrl or Alt runs none; the arrows navigate, Enter and Right open.
pub proof fn law_sidebar_keys(key: KeyEvent)
    ensures
        !key.modifiers.control && !key.modifiers.alt && key.code == KeyCode::Char('f') ==> fallback_spec(
            key,
            Focus::Sidebar,
        ) == Some(Action::NewFile),
        !key.modifiers.control && !key.modifiers.alt && key.code == KeyCode::Char('d') ==> fallback_spec(
            key,
            Focus::Sidebar,
        ) == Some(Action::NewFolder),
        !key.modifiers.control && !key.modifiers.alt && key.code == KeyCode::Char('a') ==> fallback_spec(
            key,
            Focus::Sidebar,
        ) == Some(Action::GitToggleStage),
        !key.modifiers.control && !key.modifiers.alt && key.code == KeyCode::Char('r') ==> fallback_spec(
            key,
            Focus::Sidebar,
        ) == Some(Action::GitRevertEntry),
        (key.modifiers.control || key.modifiers.alt) && key.code is Char ==> fallback_spec(key, Focus::Sidebar)
            is None,
        key.code == KeyCode::Up ==> fallback_spec(key, Focus::Sidebar) == Some(Action::NavUp),
        key.code == KeyCode::Down ==> fallback_spec(key, Focus::Sidebar) == Some(Action::NavDown),
        key.code == KeyCode::Enter || key.code == KeyCode::Right ==> fallback_spec(key, Focus::Sidebar) == Some(
            Action::Activate,
        ),
        key.code == KeyCode::Left ==> fallback_spec(key, Focus::Sidebar) == Some(Action::CollapseOrParent),
{
}

/// Law: the terminal gets Ctrl+letter (either case) as that letter's control
/// byte (1 for A through 26 for Z), a plain ASCII character as its own byte,
/// Enter as a carriage return, Backspace as DEL and Tab as a tab.
pub proof fn law_terminal_bytes(c: char)
    ensures
        'a' <= c <= 'z' ==> pty_bytes(KeyCode::Char(c), true) == Some(seq![((c as u32) - ('a' as u32) + 1) as u8]),
        'A' <= c <= 'Z' ==> pty_bytes(KeyCode::Char(c), true) == Some(seq![((c as u32) - ('A' as u32) + 1) as u8]),
        (c as u32) < 0x80 ==> pty_bytes(KeyCode::Char(c), false) == Some(seq![(c as u32) as u8]),
        pty_bytes(KeyCode::Enter, false) == Some(seq![13u8]),
        pty_bytes(KeyCode::Backspace, false) == Some(seq![0x7fu8]),
        pty_bytes(KeyCode::Tab, false) == Some(seq![9u8]),
{
}

} // verus!
