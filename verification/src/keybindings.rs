//! User-editable keyboard shortcuts.
//!
//! The discrete *command* shortcuts (quit, save, copy, new file, …) are declared
//! in a hand-editable TOML file and loaded into a lookup that `keymap::resolve`
//! consults before its hardcoded fallback. Text typing and cursor motion are not
//! remappable — they stay in code — so the file only holds named commands.

use vstd::prelude::*;
use crate::chars;
use crate::config::{self, TomlEntry, TomlEntryView, TomlFieldView};
use crate::keymap::Action;
use crate::keys::{KeyCode, KeyEvent, MediaKeyCode, ModifierKeyCode};
use crate::panel::{Focus, Panel};

verus! {

/// A remappable command. Each maps to exactly one `Action` and lives in one
/// scope (which focuses it applies to).
#[derive(Debug, Clone, Copy, PartialEq, Eq, Structural)]
pub enum Bindable {
    Quit,
    ToggleSidebar,
    ToggleTerminal,
    CloseTab,
    Save,
    NextTab,
    PrevTab,
    Find,
    Replace,
    Shortcuts,
    Quickbar,
    Explorer,
    Search,
    Git,
    Extensions,
    Themes,
    Settings,
    Rename,
    /// The unlock (leader) key: press it, then a locked command chord.
    Leader,
    Copy,
    Cut,
    Paste,
    Undo,
    Redo,
    SelectAll,
    Completion,
    Format,
    MoveLineUp,
    MoveLineDown,
    NewFile,
    NewFolder,
    DeleteEntry,
    /// A fresh "Untitled-N" scratch buffer, typed into first and named on save.
    NewUntitledFile,
}

/// Which focus modes a binding fires in.
#[derive(Debug, Clone, Copy, PartialEq, Eq, Structural)]
pub enum Scope {
    /// Fires in every focus.
    Global,
    /// Fires only while the editor is focused.
    Editor,
    /// Fires only while the sidebar is focused.
    Sidebar,
}

pub open spec fn scope_matches(s: Scope, focus: Focus) -> bool {
    match s {
        Scope::Global => true,
        Scope::Editor => focus == Focus::Editor,
        Scope::Sidebar => focus == Focus::Sidebar,
    }
}

pub open spec fn section_of(s: Scope) -> Seq<char> {
    match s {
        Scope::Global => "global"@,
        Scope::Editor => "editor"@,
        Scope::Sidebar => "sidebar"@,
    }
}

impl Scope {
    pub fn matches(self, focus: Focus) -> (r: bool)
        ensures
            r == scope_matches(self, focus),
    {
        match self {
            Scope::Global => true,
            Scope::Editor => focus == Focus::Editor,
            Scope::Sidebar => focus == Focus::Sidebar,
        }
    }

    /// The `[section]` name this scope is written under in the TOML file.
    pub fn section(self) -> (r: &'static str)
        ensures
            r@ == section_of(self),
    {
        match self {
            Scope::Global => "global",
            Scope::Editor => "editor",
            Scope::Sidebar => "sidebar",
        }
    }
}

/// Every command, in file order (also the TOML write order).
pub open spec fn all_bindables() -> Seq<Bindable> {
    seq![
        Bindable::Quit,
        Bindable::ToggleSidebar,
        Bindable::ToggleTerminal,
        Bindable::CloseTab,
        Bindable::Save,
        Bindable::NextTab,
        Bindable::PrevTab,
        Bindable::Find,
        Bindable::Replace,
        Bindable::Shortcuts,
        Bindable::Quickbar,
        Bindable::Explorer,
        Bindable::Search,
        Bindable::Git,
        Bindable::Extensions,
        Bindable::Themes,
        Bindable::Settings,
        Bindable::Rename,
        Bindable::Leader,
        Bindable::Copy,
        Bindable::Cut,
        Bindable::Paste,
        Bindable::Undo,
        Bindable::Redo,
        Bindable::SelectAll,
        Bindable::Completion,
        Bindable::Format,
        Bindable::MoveLineUp,
        Bindable::MoveLineDown,
        Bindable::NewFile,
        Bindable::NewFolder,
        Bindable::DeleteEntry,
        Bindable::NewUntitledFile,
    ]
}

/// Stable TOML key name of each command.
pub open spec fn name_of(b: Bindable) -> Seq<char> {
    match b {
        Bindable::Quit => "quit"@,
        Bindable::ToggleSidebar => "toggle_sidebar"@,
        Bindable::ToggleTerminal => "toggle_terminal"@,
        Bindable::CloseTab => "close_tab"@,
        Bindable::Save => "save"@,
        Bindable::NextTab => "next_tab"@,
        Bindable::PrevTab => "prev_tab"@,
        Bindable::Find => "find"@,
        Bindable::Replace => "replace"@,
        Bindable::Shortcuts => "shortcuts"@,
        Bindable::Quickbar => "quickbar"@,
        Bindable::Explorer => "explorer"@,
        Bindable::Search => "search"@,
        Bindable::Git => "git"@,
        Bindable::Extensions => "extensions"@,
        Bindable::Themes => "themes"@,
        Bindable::Settings => "settings"@,
        Bindable::Rename => "rename"@,
        Bindable::Leader => "leader"@,
        Bindable::Copy => "copy"@,
        Bindable::Cut => "cut"@,
        Bindable::Paste => "paste"@,
        Bindable::Undo => "undo"@,
        Bindable::Redo => "redo"@,
        Bindable::SelectAll => "select_all"@,
        Bindable::Completion => "completion"@,
        Bindable::Format => "format"@,
        Bindable::MoveLineUp => "move_line_up"@,
        Bindable::MoveLineDown => "move_line_down"@,
        Bindable::NewFile => "new_file"@,
        Bindable::NewFolder => "new_folder"@,
        Bindable::DeleteEntry => "delete_entry"@,
        Bindable::NewUntitledFile => "new_untitled_file"@,
    }
}

/// The scope of each command: editing commands fire in the editor, tree
/// commands in the sidebar, the rest everywhere.
pub open spec fn scope_of(b: Bindable) -> Scope {
    match b {
        Bindable::Copy | Bindable::Cut | Bindable::Paste | Bindable::Undo | Bindable::Redo
        | Bindable::SelectAll | Bindable::Completion | Bindable::Format | Bindable::MoveLineUp
        | Bindable::MoveLineDown | Bindable::NewUntitledFile => Scope::Editor,
        Bindable::NewFile | Bindable::NewFolder | Bindable::DeleteEntry => Scope::Sidebar,
        _ => Scope::Global,
    }
}

/// The out-of-the-box chord of each command.
pub open spec fn default_chord_of(b: Bindable) -> Seq<char> {
    match b {
        Bindable::Quit => "ctrl+q"@,
        Bindable::ToggleSidebar => "ctrl+b"@,
        Bindable::ToggleTerminal => "ctrl+j"@,
        Bindable::CloseTab => "ctrl+w"@,
        Bindable::Save => "ctrl+s"@,
        Bindable::NextTab => "ctrl+tab"@,
        Bindable::PrevTab => "shift+tab"@,
        Bindable::Find => "ctrl+f"@,
        Bindable::Replace => "ctrl+h"@,
        Bindable::Shortcuts => "alt+7"@,
        Bindable::Quickbar => "ctrl+p"@,
        Bindable::Explorer => "alt+1"@,
        Bindable::Search => "alt+2"@,
        Bindable::Git => "alt+3"@,
        Bindable::Extensions => "alt+4"@,
        Bindable::Themes => "alt+5"@,
        Bindable::Settings => "alt+6"@,
        Bindable::Rename => "f2"@,
        Bindable::Leader => "alt+l"@,
        Bindable::Copy => "ctrl+c"@,
        Bindable::Cut => "ctrl+x"@,
        Bindable::Paste => "ctrl+v"@,
        Bindable::Undo => "ctrl+z"@,
        Bindable::Redo => "ctrl+y"@,
        Bindable::SelectAll => "ctrl+a"@,
        Bindable::Completion => "ctrl+space"@,
        Bindable::Format => "ctrl+alt+f"@,
        Bindable::MoveLineUp => "alt+up"@,
        Bindable::MoveLineDown => "alt+down"@,
        Bindable::NewFile => "ctrl+n"@,
        Bindable::NewFolder => "alt+shift+n"@,
        Bindable::DeleteEntry => "delete"@,
        Bindable::NewUntitledFile => "ctrl+n"@,
    }
}

/// The `Action` each command triggers.
pub open spec fn action_of(b: Bindable) -> Action {
    match b {
        Bindable::Quit => Action::Quit,
        Bindable::ToggleSidebar => Action::ToggleSidebar,
        Bindable::ToggleTerminal => Action::ToggleTerminal,
        Bindable::CloseTab => Action::CloseTab,
        Bindable::Save => Action::Save,
        Bindable::NextTab => Action::NextTab,
        Bindable::PrevTab => Action::PrevTab,
        Bindable::Find => Action::OpenFind,
        Bindable::Replace => Action::OpenFindReplace,
        Bindable::Shortcuts => Action::ShowShortcuts,
        Bindable::Quickbar => Action::OpenQuickbar,
        Bindable::Explorer => Action::SelectPanel(Panel::Files),
        Bindable::Search => Action::SelectPanel(Panel::Search),
        Bindable::Git => Action::SelectPanel(Panel::Git),
        Bindable::Extensions => Action::SelectPanel(Panel::Extensions),
        Bindable::Themes => Action::SelectPanel(Panel::Themes),
        Bindable::Settings => Action::SelectPanel(Panel::Settings),
        Bindable::Rename => Action::RenameEntry,
        Bindable::Leader => Action::Leader,
        Bindable::Copy => Action::Copy,
        Bindable::Cut => Action::Cut,
        Bindable::Paste => Action::Paste,
        Bindable::Undo => Action::Undo,
        Bindable::Redo => Action::Redo,
        Bindable::SelectAll => Action::SelectAll,
        Bindable::Completion => Action::TriggerCompletion,
        Bindable::Format => Action::Format,
        Bindable::MoveLineUp => Action::MoveLineUp,
        Bindable::MoveLineDown => Action::MoveLineDown,
        Bindable::NewFile => Action::NewFile,
        Bindable::NewFolder => Action::NewFolder,
        Bindable::DeleteEntry => Action::DeleteEntry,
        Bindable::NewUntitledFile => Action::NewUntitledFile,
    }
}

/// The first command of `s` filed under `section` as `name`.
pub open spec fn find_named(s: Seq<Bindable>, section: Seq<char>, name: Seq<char>) -> Option<Bindable>
    decreases s.len(),
{
    if s.len() == 0 {
        None
    } else if section_of(scope_of(s[0])) == section && name_of(s[0]) == name {
        Some(s[0])
    } else {
        find_named(s.drop_first(), section, name)
    }
}

impl Bindable {
    /// Every command, in file order.
    pub fn all() -> (r: Vec<Bindable>)
        ensures
            r@ == all_bindables(),
    {
        let r = vec![
            Bindable::Quit,
            Bindable::ToggleSidebar,
            Bindable::ToggleTerminal,
            Bindable::CloseTab,
            Bindable::Save,
            Bindable::NextTab,
            Bindable::PrevTab,
            Bindable::Find,
            Bindable::Replace,
            Bindable::Shortcuts,
            Bindable::Quickbar,
            Bindable::Explorer,
            Bindable::Search,
            Bindable::Git,
            Bindable::Extensions,
            Bindable::Themes,
            Bindable::Settings,
            Bindable::Rename,
            Bindable::Leader,
            Bindable::Copy,
            Bindable::Cut,
            Bindable::Paste,
            Bindable::Undo,
            Bindable::Redo,
            Bindable::SelectAll,
            Bindable::Completion,
            Bindable::Format,
            Bindable::MoveLineUp,
            Bindable::MoveLineDown,
            Bindable::NewFile,
            Bindable::NewFolder,
            Bindable::DeleteEntry,
            Bindable::NewUntitledFile,
        ];
        assert(r@ =~= all_bindables());
        r
    }

    /// Stable TOML key name.
    pub fn name(self) -> (r: &'static str)
        ensures
            r@ == name_of(self),
    {
        match self {
            Bindable::Quit => "quit",
            Bindable::ToggleSidebar => "toggle_sidebar",
            Bindable::ToggleTerminal => "toggle_terminal",
            Bindable::CloseTab => "close_tab",
            Bindable::Save => "save",
            Bindable::NextTab => "next_tab",
            Bindable::PrevTab => "prev_tab",
            Bindable::Find => "find",
            Bindable::Replace => "replace",
            Bindable::Shortcuts => "shortcuts",
            Bindable::Quickbar => "quickbar",
            Bindable::Explorer => "explorer",
            Bindable::Search => "search",
            Bindable::Git => "git",
            Bindable::Extensions => "extensions",
            Bindable::Themes => "themes",
            Bindable::Settings => "settings",
            Bindable::Rename => "rename",
            Bindable::Leader => "leader",
            Bindable::Copy => "copy",
            Bindable::Cut => "cut",
            Bindable::Paste => "paste",
            Bindable::Undo => "undo",
            Bindable::Redo => "redo",
            Bindable::SelectAll => "select_all",
            Bindable::Completion => "completion",
            Bindable::Format => "format",
            Bindable::MoveLineUp => "move_line_up",
            Bindable::MoveLineDown => "move_line_down",
            Bindable::NewFile => "new_file",
            Bindable::NewFolder => "new_folder",
            Bindable::DeleteEntry => "delete_entry",
            Bindable::NewUntitledFile => "new_untitled_file",
        }
    }

    pub fn scope(self) -> (r: Scope)
        ensures
            r == scope_of(self),
    {
        match self {
            Bindable::Copy | Bindable::Cut | Bindable::Paste | Bindable::Undo | Bindable::Redo
            | Bindable::SelectAll | Bindable::Completion | Bindable::Format
            | Bindable::MoveLineUp | Bindable::MoveLineDown | Bindable::NewUntitledFile => {
                Scope::Editor
            },
            Bindable::NewFile | Bindable::NewFolder | Bindable::DeleteEntry => Scope::Sidebar,
            _ => Scope::Global,
        }
    }

    /// The out-of-the-box chord (also what seeds a fresh file).
    pub fn default_chord(self) -> (r: &'static str)
        ensures
            r@ == default_chord_of(self),
    {
        match self {
            Bindable::Quit => "ctrl+q",
            Bindable::ToggleSidebar => "ctrl+b",
            Bindable::ToggleTerminal => "ctrl+j",
            Bindable::CloseTab => "ctrl+w",
            Bindable::Save => "ctrl+s",
            Bindable::NextTab => "ctrl+tab",
            // Shift+Tab (BackTab) works in legacy terminals; ctrl+shift+tab does not.
            Bindable::PrevTab => "shift+tab",
            Bindable::Find => "ctrl+f",
            Bindable::Replace => "ctrl+h",
            Bindable::Shortcuts => "alt+7",
            Bindable::Quickbar => "ctrl+p",
            // Panels use Alt+digit: a distinct ESC-prefixed sequence every
            // terminal reports, unlike Ctrl+Shift+<letter>.
            Bindable::Explorer => "alt+1",
            Bindable::Search => "alt+2",
            Bindable::Git => "alt+3",
            Bindable::Extensions => "alt+4",
            Bindable::Themes => "alt+5",
            Bindable::Settings => "alt+6",
            Bindable::Rename => "f2",
            Bindable::Leader => "alt+l",
            Bindable::Copy => "ctrl+c",
            Bindable::Cut => "ctrl+x",
            Bindable::Paste => "ctrl+v",
            Bindable::Undo => "ctrl+z",
            Bindable::Redo => "ctrl+y",
            Bindable::SelectAll => "ctrl+a",
            Bindable::Completion => "ctrl+space",
            Bindable::Format => "ctrl+alt+f",
            Bindable::MoveLineUp => "alt+up",
            Bindable::MoveLineDown => "alt+down",
            Bindable::NewFile => "ctrl+n",
            Bindable::NewFolder => "alt+shift+n",
            Bindable::DeleteEntry => "delete",
            // Same chord as the sidebar's `NewFile`, but a different scope.
            Bindable::NewUntitledFile => "ctrl+n",
        }
    }

    /// The concrete `Action` this command triggers.
    pub fn to_action(self) -> (r: Action)
        ensures
            r == action_of(self),
    {
        match self {
            Bindable::Quit => Action::Quit,
            Bindable::ToggleSidebar => Action::ToggleSidebar,
            Bindable::ToggleTerminal => Action::ToggleTerminal,
            Bindable::CloseTab => Action::CloseTab,
            Bindable::Save => Action::Save,
            Bindable::NextTab => Action::NextTab,
            Bindable::PrevTab => Action::PrevTab,
            Bindable::Find => Action::OpenFind,
            Bindable::Replace => Action::OpenFindReplace,
            Bindable::Shortcuts => Action::ShowShortcuts,
            Bindable::Quickbar => Action::OpenQuickbar,
            Bindable::Explorer => Action::SelectPanel(Panel::Files),
            Bindable::Search => Action::SelectPanel(Panel::Search),
            Bindable::Git => Action::SelectPanel(Panel::Git),
            Bindable::Extensions => Action::SelectPanel(Panel::Extensions),
            Bindable::Themes => Action::SelectPanel(Panel::Themes),
            Bindable::Settings => Action::SelectPanel(Panel::Settings),
            Bindable::Rename => Action::RenameEntry,
            Bindable::Leader => Action::Leader,
            Bindable::Copy => Action::Copy,
            Bindable::Cut => Action::Cut,
            Bindable::Paste => Action::Paste,
            Bindable::Undo => Action::Undo,
            Bindable::Redo => Action::Redo,
            Bindable::SelectAll => Action::SelectAll,
            Bindable::Completion => Action::TriggerCompletion,
            Bindable::Format => Action::Format,
            Bindable::MoveLineUp => Action::MoveLineUp,
            Bindable::MoveLineDown => Action::MoveLineDown,
            Bindable::NewFile => Action::NewFile,
            Bindable::NewFolder => Action::NewFolder,
            Bindable::DeleteEntry => Action::DeleteEntry,
            Bindable::NewUntitledFile => Action::NewUntitledFile,
        }
    }

    /// Whether the command is *locked* behind the leader key by default: never.
    /// A command is only locked when its TOML entry carries a `, locked` suffix.
    pub fn default_locked(self) -> (r: bool)
        ensures
            !r,
    {
        false
    }

    /// The command filed under `section` as `name`.
    pub fn by_name(section: &str, name: &str) -> (r: Option<Bindable>)
        ensures
            r == find_named(all_bindables(), section@, name@),
    {
        let all = Bindable::all();
        let mut i: usize = 0;
        assert(all@.skip(0) =~= all@);
        while i < all.len()
            invariant
                all@ == all_bindables(),
                i <= all@.len(),
                find_named(all@.skip(i as int), section@, name@) == find_named(
                    all_bindables(),
                    section@,
                    name@,
                ),
            decreases all.len() - i,
        {
            let b = all[i];
            assert(all@.skip(i as int).drop_first() =~= all@.skip(i + 1));
            if chars::same_text(b.scope().section(), section) && chars::same_text(b.name(), name) {
                return Some(b);
            }
            i += 1;
        }
        None
    }
}


// ----- chords -----

/// A key press as a comparable chord (letters normalized to lowercase).
#[derive(Debug, Clone, Copy, PartialEq, Eq, Structural)]
pub struct Chord {
    pub code: KeyCode,
    pub ctrl: bool,
    pub shift: bool,
    pub alt: bool,
}

pub open spec fn is_ascii_upper(c: char) -> bool {
    'A' <= c <= 'Z'
}

/// The chord a key press makes. Legacy terminals encode Shift in the character
/// itself (an uppercase letter, or BackTab for Shift+Tab) rather than a
/// modifier bit; that is folded back into `shift`, and `;` becomes Shift+`:`.
pub open spec fn chord_of_event(key: KeyEvent) -> Chord {
    let m = key.modifiers;
    match key.code {
        KeyCode::BackTab => Chord { code: KeyCode::Tab, ctrl: m.control, shift: true, alt: m.alt },
        KeyCode::Char(c) => {
            let lower = chars::lower_char(c);
            if lower == ';' {
                Chord { code: KeyCode::Char(':'), ctrl: m.control, shift: true, alt: m.alt }
            } else {
                Chord {
                    code: KeyCode::Char(lower),
                    ctrl: m.control,
                    shift: m.shift || is_ascii_upper(c),
                    alt: m.alt,
                }
            }
        },
        other => Chord { code: other, ctrl: m.control, shift: m.shift, alt: m.alt },
    }
}

/// Every character of `d` is an ASCII digit.
pub open spec fn all_digits(d: Seq<char>) -> bool {
    forall|i: int| 0 <= i < d.len() ==> '0' <= #[trigger] d[i] <= '9'
}

/// The number the decimal digits `d` spell.
pub open spec fn digits_value(d: Seq<char>) -> int
    decreases d.len(),
{
    if d.len() == 0 {
        0
    } else {
        digits_value(d.drop_last()) * 10 + (d.last() as int - 48)
    }
}

/// `u8`'s `FromStr`: an optional `+`, then one or more ASCII digits whose value
/// fits in a byte.
pub open spec fn parse_u8_spec(d: Seq<char>) -> Option<u8> {
    let e = if d.len() > 0 && d[0] == '+' { d.drop_first() } else { d };
    if e.len() > 0 && all_digits(e) && digits_value(e) <= 255 {
        Some(digits_value(e) as u8)
    } else {
        None
    }
}

proof fn lemma_digits_nonneg(d: Seq<char>)
    requires
        all_digits(d),
    ensures
        digits_value(d) >= 0,
    decreases d.len(),
{
    if d.len() > 0 {
        lemma_digits_nonneg(d.drop_last());
    }
}

/// Parses a byte the way `str::parse::<u8>` does.
fn parse_u8(d: &str) -> (r: Option<u8>)
    ensures
        r == parse_u8_spec(d@),
{
    let v = chars::str_chars(d);
    let start: usize = if v.len() > 0 && v[0] == '+' { 1 } else { 0 };
    let ghost e = v@.skip(start as int);
    assert(e == if d@.len() > 0 && d@[0] == '+' { d@.drop_first() } else { d@ });
    if start == v.len() {
        return None;
    }
    let mut val: u32 = 0;
    let mut i = start;
    assert(e.take(0) =~= Seq::<char>::empty());
    while i < v.len()
        invariant
            v@ == d@,
            start <= i <= v@.len(),
            e == v@.skip(start as int),
            e == if d@.len() > 0 && d@[0] == '+' { d@.drop_first() } else { d@ },
            all_digits(e.take(i - start)),
            val == if digits_value(e.take(i - start)) < 256 { digits_value(e.take(i - start)) } else { 256 },
        decreases v.len() - i,
    {
        let c = v[i];
        if !('0' <= c && c <= '9') {
            assert(e[i - start] == c);
            assert(!all_digits(e));
            return None;
        }
        let ghost k = i - start;
        assert(e.take(k + 1).drop_last() =~= e.take(k));
        assert(e.take(k + 1).last() == c);
        proof {
            lemma_digits_nonneg(e.take(k));
        }
        let dig = (c as u32) - 48;
        let next = val * 10 + dig;
        val = if next < 256 { next } else { 256 };
        i += 1;
    }
    assert(e.take(e.len() as int) =~= e);
    if val > 255 {
        None
    } else {
        Some(val as u8)
    }
}

/// A key name, as `Chord::parse` reads it after lower-casing.
pub open spec fn parse_key_spec(s: Seq<char>) -> Option<KeyCode> {
    if s == "space"@ {
        Some(KeyCode::Char(' '))
    } else if s == "tab"@ {
        Some(KeyCode::Tab)
    } else if s == "enter"@ || s == "return"@ {
        Some(KeyCode::Enter)
    } else if s == "esc"@ || s == "escape"@ {
        Some(KeyCode::Esc)
    } else if s == "delete"@ || s == "del"@ {
        Some(KeyCode::Delete)
    } else if s == "backspace"@ {
        Some(KeyCode::Backspace)
    } else if s == "up"@ {
        Some(KeyCode::Up)
    } else if s == "down"@ {
        Some(KeyCode::Down)
    } else if s == "left"@ {
        Some(KeyCode::Left)
    } else if s == "right"@ {
        Some(KeyCode::Right)
    } else if s == "home"@ {
        Some(KeyCode::Home)
    } else if s == "end"@ {
        Some(KeyCode::End)
    } else if s == "pageup"@ {
        Some(KeyCode::PageUp)
    } else if s == "pagedown"@ {
        Some(KeyCode::PageDown)
    } else if s == "plus"@ {
        Some(KeyCode::Char('+'))
    } else if s.len() >= 2 && s[0] == 'f' && parse_u8_spec(s.drop_first()) is Some {
        let n = parse_u8_spec(s.drop_first())->0;
        if 1 <= n <= 12 {
            Some(KeyCode::F(n))
        } else {
            None
        }
    } else if s.len() == 1 {
        Some(KeyCode::Char(chars::lower_char(s[0])))
    } else {
        None
    }
}

/// Parses a key name: the named keys, `f1`..`f12`, or a single character.
pub fn parse_key(s: &str) -> (r: Option<KeyCode>)
    ensures
        r == parse_key_spec(s@),
{
    if chars::same_text(s, "space") {
        return Some(KeyCode::Char(' '));
    }
    if chars::same_text(s, "tab") {
        return Some(KeyCode::Tab);
    }
    if chars::same_text(s, "enter") || chars::same_text(s, "return") {
        return Some(KeyCode::Enter);
    }
    if chars::same_text(s, "esc") || chars::same_text(s, "escape") {
        return Some(KeyCode::Esc);
    }
    if chars::same_text(s, "delete") || chars::same_text(s, "del") {
        return Some(KeyCode::Delete);
    }
    if chars::same_text(s, "backspace") {
        return Some(KeyCode::Backspace);
    }
    if chars::same_text(s, "up") {
        return Some(KeyCode::Up);
    }
    if chars::same_text(s, "down") {
        return Some(KeyCode::Down);
    }
    if chars::same_text(s, "left") {
        return Some(KeyCode::Left);
    }
    if chars::same_text(s, "right") {
        return Some(KeyCode::Right);
    }
    if chars::same_text(s, "home") {
        return Some(KeyCode::Home);
    }
    if chars::same_text(s, "end") {
        return Some(KeyCode::End);
    }
    if chars::same_text(s, "pageup") {
        return Some(KeyCode::PageUp);
    }
    if chars::same_text(s, "pagedown") {
        return Some(KeyCode::PageDown);
    }
    // `+` separates chord parts, so the plus key needs a name of its own.
    if chars::same_text(s, "plus") {
        return Some(KeyCode::Char('+'));
    }
    let v = chars::str_chars(s);
    if v.len() >= 2 && v[0] == 'f' {
        let digits = chars::range_string(&v, 1, v.len());
        assert(digits@ =~= s@.drop_first());
        if let Some(n) = parse_u8(digits.as_str()) {
            return if 1 <= n && n <= 12 { Some(KeyCode::F(n)) } else { None };
        }
    }
    if v.len() == 1 {
        Some(KeyCode::Char(chars::ascii_lower(v[0])))
    } else {
        None
    }
}

pub open spec fn media_name(m: MediaKeyCode) -> Seq<char> {
    match m {
        MediaKeyCode::Play => "play"@,
        MediaKeyCode::Pause => "pause"@,
        MediaKeyCode::PlayPause => "playpause"@,
        MediaKeyCode::Reverse => "reverse"@,
        MediaKeyCode::Stop => "stop"@,
        MediaKeyCode::FastForward => "fastforward"@,
        MediaKeyCode::Rewind => "rewind"@,
        MediaKeyCode::TrackNext => "tracknext"@,
        MediaKeyCode::TrackPrevious => "trackprevious"@,
        MediaKeyCode::Record => "record"@,
        MediaKeyCode::LowerVolume => "lowervolume"@,
        MediaKeyCode::RaiseVolume => "raisevolume"@,
        MediaKeyCode::MuteVolume => "mutevolume"@,
    }
}

pub open spec fn modifier_name(m: ModifierKeyCode) -> Seq<char> {
    match m {
        ModifierKeyCode::LeftShift => "leftshift"@,
        ModifierKeyCode::LeftControl => "leftcontrol"@,
        ModifierKeyCode::LeftAlt => "leftalt"@,
        ModifierKeyCode::LeftSuper => "leftsuper"@,
        ModifierKeyCode::LeftHyper => "lefthyper"@,
        ModifierKeyCode::LeftMeta => "leftmeta"@,
        ModifierKeyCode::RightShift => "rightshift"@,
        ModifierKeyCode::RightControl => "rightcontrol"@,
        ModifierKeyCode::RightAlt => "rightalt"@,
        ModifierKeyCode::RightSuper => "rightsuper"@,
        ModifierKeyCode::RightHyper => "righthyper"@,
        ModifierKeyCode::RightMeta => "rightmeta"@,
        ModifierKeyCode::IsoLevel3Shift => "isolevel3shift"@,
        ModifierKeyCode::IsoLevel5Shift => "isolevel5shift"@,
    }
}

/// The name a key is written with: the names `parse_key` reads, the character
/// itself, or the key's lower-cased debug name for keys without one.
pub open spec fn key_str(code: KeyCode) -> Seq<char> {
    match code {
        KeyCode::Char(c) => if c == ' ' {
            "space"@
        } else if c == '+' {
            "plus"@
        } else {
            seq![c]
        },
        KeyCode::Tab => "tab"@,
        KeyCode::Enter => "enter"@,
        KeyCode::Esc => "esc"@,
        KeyCode::Delete => "delete"@,
        KeyCode::Backspace => "backspace"@,
        KeyCode::Up => "up"@,
        KeyCode::Down => "down"@,
        KeyCode::Left => "left"@,
        KeyCode::Right => "right"@,
        KeyCode::Home => "home"@,
        KeyCode::End => "end"@,
        KeyCode::PageUp => "pageup"@,
        KeyCode::PageDown => "pagedown"@,
        KeyCode::F(n) => seq!['f'] + chars::decimal(n),
        KeyCode::BackTab => "backtab"@,
        KeyCode::Insert => "insert"@,
        KeyCode::Null => "null"@,
        KeyCode::CapsLock => "capslock"@,
        KeyCode::ScrollLock => "scrolllock"@,
        KeyCode::NumLock => "numlock"@,
        KeyCode::PrintScreen => "printscreen"@,
        KeyCode::Pause => "pause"@,
        KeyCode::Menu => "menu"@,
        KeyCode::KeypadBegin => "keypadbegin"@,
        KeyCode::Media(m) => "media("@ + media_name(m) + ")"@,
        KeyCode::Modifier(m) => "modifier("@ + modifier_name(m) + ")"@,
    }
}

fn media_str(m: MediaKeyCode) -> (r: &'static str)
    ensures
        r@ == media_name(m),
{
    match m {
        MediaKeyCode::Play => "play",
        MediaKeyCode::Pause => "pause",
        MediaKeyCode::PlayPause => "playpause",
        MediaKeyCode::Reverse => "reverse",
        MediaKeyCode::Stop => "stop",
        MediaKeyCode::FastForward => "fastforward",
        MediaKeyCode::Rewind => "rewind",
        MediaKeyCode::TrackNext => "tracknext",
        MediaKeyCode::TrackPrevious => "trackprevious",
        MediaKeyCode::Record => "record",
        MediaKeyCode::LowerVolume => "lowervolume",
        MediaKeyCode::RaiseVolume => "raisevolume",
        MediaKeyCode::MuteVolume => "mutevolume",
    }
}

fn modifier_str(m: ModifierKeyCode) -> (r: &'static str)
    ensures
        r@ == modifier_name(m),
{
    match m {
        ModifierKeyCode::LeftShift => "leftshift",
        ModifierKeyCode::LeftControl => "leftcontrol",
        ModifierKeyCode::LeftAlt => "leftalt",
        ModifierKeyCode::LeftSuper => "leftsuper",
        ModifierKeyCode::LeftHyper => "lefthyper",
        ModifierKeyCode::LeftMeta => "leftmeta",
        ModifierKeyCode::RightShift => "rightshift",
        ModifierKeyCode::RightControl => "rightcontrol",
        ModifierKeyCode::RightAlt => "rightalt",
        ModifierKeyCode::RightSuper => "rightsuper",
        ModifierKeyCode::RightHyper => "righthyper",
        ModifierKeyCode::RightMeta => "rightmeta",
        ModifierKeyCode::IsoLevel3Shift => "isolevel3shift",
        ModifierKeyCode::IsoLevel5Shift => "isolevel5shift",
    }
}

fn named_key(code: KeyCode) -> (r: &'static str)
    requires
        !(code is Char || code is F || code is Media || code is Modifier),
    ensures
        r@ == key_str(code),
{
    match code {
        KeyCode::Tab => "tab",
        KeyCode::Enter => "enter",
        KeyCode::Esc => "esc",
        KeyCode::Delete => "delete",
        KeyCode::Backspace => "backspace",
        KeyCode::Up => "up",
        KeyCode::Down => "down",
        KeyCode::Left => "left",
        KeyCode::Right => "right",
        KeyCode::Home => "home",
        KeyCode::End => "end",
        KeyCode::PageUp => "pageup",
        KeyCode::PageDown => "pagedown",
        KeyCode::BackTab => "backtab",
        KeyCode::Insert => "insert",
        KeyCode::Null => "null",
        KeyCode::CapsLock => "capslock",
        KeyCode::ScrollLock => "scrolllock",
        KeyCode::NumLock => "numlock",
        KeyCode::PrintScreen => "printscreen",
        KeyCode::Pause => "pause",
        KeyCode::Menu => "menu",
        _ => "keypadbegin",
    }
}

/// The name a key is written with in a chord string.
pub fn key_string(code: KeyCode) -> (r: String)
    ensures
        r@ == key_str(code),
{
    match code {
        KeyCode::Char(c) => {
            if c == ' ' {
                chars::str_to_string("space")
            } else if c == '+' {
                chars::str_to_string("plus")
            } else {
                let mut s = String::new();
                chars::string_push(&mut s, c);
                assert(s@ =~= seq![c]);
                s
            }
        },
        KeyCode::F(n) => {
            let mut s = String::new();
            chars::string_push(&mut s, 'f');
            let d = chars::decimal_string(n);
            chars::string_push_str(&mut s, d.as_str());
            assert(s@ =~= seq!['f'] + chars::decimal(n));
            s
        },
        KeyCode::Media(m) => {
            let mut s = chars::str_to_string("media(");
            chars::string_push_str(&mut s, media_str(m));
            chars::string_push_str(&mut s, ")");
            s
        },
        KeyCode::Modifier(m) => {
            let mut s = chars::str_to_string("modifier(");
            chars::string_push_str(&mut s, modifier_str(m));
            chars::string_push_str(&mut s, ")");
            s
        },
        other => chars::str_to_string(named_key(other)),
    }
}

/// What reading one `+`-separated part does to the chord being built (ctrl,
/// shift, alt, key); `None` once a part names no key.
pub open spec fn parse_step(
    st: Option<(bool, bool, bool, Option<KeyCode>)>,
    part: Seq<char>,
) -> Option<(bool, bool, bool, Option<KeyCode>)> {
    match st {
        None => None,
        Some((c, s, a, k)) => {
            let p = chars::lower_text(chars::trim_ws(part));
            if p == "ctrl"@ {
                Some((true, s, a, k))
            } else if p == "shift"@ {
                Some((c, true, a, k))
            } else if p == "alt"@ {
                Some((c, s, true, k))
            } else if p.len() == 0 {
                Some((c, s, a, k))
            } else {
                match parse_key_spec(p) {
                    None => None,
                    Some(code) => Some((c, s, a, Some(code))),
                }
            }
        },
    }
}

/// Reading all `parts` in order.
pub open spec fn parse_parts(parts: Seq<Seq<char>>) -> Option<(bool, bool, bool, Option<KeyCode>)>
    decreases parts.len(),
{
    if parts.len() == 0 {
        Some((false, false, false, None))
    } else {
        parse_step(parse_parts(parts.drop_last()), parts.last())
    }
}

/// The chord a chord string names: its `+`-separated parts read in order; the
/// last key named wins; `None` if a part is no key or no key is named.
pub open spec fn chord_parse_spec(s: Seq<char>) -> Option<Chord> {
    match parse_parts(chars::split_by(s, '+')) {
        Some((c, sh, a, Some(k))) => Some(Chord { code: k, ctrl: c, shift: sh, alt: a }),
        _ => None,
    }
}

/// The chord string of a chord: its modifiers in the order ctrl, shift, alt,
/// then the key, joined by `+`.
pub open spec fn chord_string(c: Chord) -> Seq<char> {
    (if c.ctrl { "ctrl+"@ } else { Seq::empty() }) + (if c.shift { "shift+"@ } else { Seq::empty() })
        + (if c.alt { "alt+"@ } else { Seq::empty() }) + key_str(c.code)
}

proof fn lemma_parse_parts_none(parts: Seq<Seq<char>>, k: int)
    requires
        0 <= k <= parts.len(),
        parse_parts(parts.take(k)) is None,
    ensures
        parse_parts(parts) is None,
    decreases parts.len() - k,
{
    if k < parts.len() {
        assert(parts.take(k + 1).drop_last() =~= parts.take(k));
        lemma_parse_parts_none(parts, k + 1);
    } else {
        assert(parts.take(k) =~= parts);
    }
}

/// Splitting at `sep` the text `x`, `sep`, `y` gives the pieces of `x`
/// followed by the pieces of `y`.
proof fn lemma_split_concat(x: Seq<char>, y: Seq<char>, sep: char)
    ensures
        chars::split_by(x.push(sep) + y, sep) == chars::split_by(x, sep) + chars::split_by(y, sep),
    decreases y.len(),
{
    if y.len() == 0 {
        assert(x.push(sep) + y =~= x.push(sep));
        assert(x.push(sep).drop_last() =~= x);
        assert(chars::split_by(x, sep).push(Seq::empty()) =~= chars::split_by(x, sep) + seq![Seq::<char>::empty()]);
    } else {
        let y1 = y.drop_last();
        lemma_split_concat(x, y1, sep);
        chars::lemma_split_nonempty(y1, sep);
        chars::lemma_split_nonempty(x, sep);
        assert((x.push(sep) + y).drop_last() =~= x.push(sep) + y1);
        assert((x.push(sep) + y).last() == y.last());
        let a = chars::split_by(x, sep);
        let b = chars::split_by(y1, sep);
        if y.last() == sep {
            assert((a + b).push(Seq::empty()) =~= a + b.push(Seq::empty()));
        } else {
            assert((a + b).update((a + b).len() - 1, (a + b).last().push(y.last())) =~= a + b.update(
                b.len() - 1,
                b.last().push(y.last()),
            ));
        }
    }
}

/// A text without `sep` is a single piece.
proof fn lemma_split_single(s: Seq<char>, sep: char)
    requires
        !s.contains(sep),
    ensures
        chars::split_by(s, sep) == seq![s],
    decreases s.len(),
{
    if s.len() > 0 {
        assert(!s.drop_last().contains(sep)) by {
            if s.drop_last().contains(sep) {
                let k = choose|k: int| 0 <= k < s.drop_last().len() && s.drop_last()[k] == sep;
                assert(s[k] == sep);
            }
        }
        lemma_split_single(s.drop_last(), sep);
        assert(s[s.len() - 1] != sep);
        assert(s.drop_last().push(s.last()) =~= s);
        assert(seq![s.drop_last()].update(0, s.drop_last().push(s.last())) =~= seq![s]);
    } else {
        assert(s =~= Seq::<char>::empty());
    }
}

/// No key is written with a `+` (the plus key itself is written "plus").
proof fn lemma_key_str_no_plus(code: KeyCode)
    ensures
        !key_str(code).contains('+'),
{
    reveal_strlit("space");
    reveal_strlit("plus");
    reveal_strlit("tab");
    reveal_strlit("enter");
    reveal_strlit("esc");
    reveal_strlit("delete");
    reveal_strlit("backspace");
    reveal_strlit("up");
    reveal_strlit("down");
    reveal_strlit("left");
    reveal_strlit("right");
    reveal_strlit("home");
    reveal_strlit("end");
    reveal_strlit("pageup");
    reveal_strlit("pagedown");
    reveal_strlit("backtab");
    reveal_strlit("insert");
    reveal_strlit("null");
    reveal_strlit("capslock");
    reveal_strlit("scrolllock");
    reveal_strlit("numlock");
    reveal_strlit("printscreen");
    reveal_strlit("pause");
    reveal_strlit("menu");
    reveal_strlit("keypadbegin");
    reveal_strlit("media(");
    reveal_strlit("modifier(");
    reveal_strlit(")");
    let k = key_str(code);
    if k.contains('+') {
        let i = choose|i: int| 0 <= i < k.len() && k[i] == '+';
        match code {
            KeyCode::F(n) => {
                assert(k == seq!['f'] + chars::decimal(n));
                assert(i > 0);
                assert(k[i] == chars::decimal(n)[i - 1]);
            },
            KeyCode::Media(m) => {
                lemma_media_name_no_plus(m);
                assert(k == "media("@ + media_name(m) + ")"@);
                if 6 <= i < 6 + media_name(m).len() {
                    assert(k[i] == media_name(m)[i - 6]);
                }
            },
            KeyCode::Modifier(m) => {
                lemma_modifier_name_no_plus(m);
                assert(k == "modifier("@ + modifier_name(m) + ")"@);
                if 9 <= i < 9 + modifier_name(m).len() {
                    assert(k[i] == modifier_name(m)[i - 9]);
                }
            },
            _ => {},
        }
    }
}

proof fn lemma_media_name_no_plus(m: MediaKeyCode)
    ensures
        !media_name(m).contains('+'),
        !media_name(m).contains(','),
{
    reveal_strlit("play");
    reveal_strlit("pause");
    reveal_strlit("playpause");
    reveal_strlit("reverse");
    reveal_strlit("stop");
    reveal_strlit("fastforward");
    reveal_strlit("rewind");
    reveal_strlit("tracknext");
    reveal_strlit("trackprevious");
    reveal_strlit("record");
    reveal_strlit("lowervolume");
    reveal_strlit("raisevolume");
    reveal_strlit("mutevolume");
}

proof fn lemma_modifier_name_no_plus(m: ModifierKeyCode)
    ensures
        !modifier_name(m).contains('+'),
        !modifier_name(m).contains(','),
{
    reveal_strlit("leftshift");
    reveal_strlit("leftcontrol");
    reveal_strlit("leftalt");
    reveal_strlit("leftsuper");
    reveal_strlit("lefthyper");
    reveal_strlit("leftmeta");
    reveal_strlit("rightshift");
    reveal_strlit("rightcontrol");
    reveal_strlit("rightalt");
    reveal_strlit("rightsuper");
    reveal_strlit("righthyper");
    reveal_strlit("rightmeta");
    reveal_strlit("isolevel3shift");
    reveal_strlit("isolevel5shift");
}

/// The modifier words and the empty part name no key.
proof fn lemma_modifier_words_are_not_keys()
    ensures
        parse_key_spec("ctrl"@) is None,
        parse_key_spec("shift"@) is None,
        parse_key_spec("alt"@) is None,
        parse_key_spec(Seq::empty()) is None,
{
    reveal_strlit("ctrl");
    reveal_strlit("shift");
    reveal_strlit("alt");
    reveal_strlit("space");
    reveal_strlit("tab");
    reveal_strlit("enter");
    reveal_strlit("return");
    reveal_strlit("esc");
    reveal_strlit("escape");
    reveal_strlit("delete");
    reveal_strlit("del");
    reveal_strlit("backspace");
    reveal_strlit("up");
    reveal_strlit("down");
    reveal_strlit("left");
    reveal_strlit("right");
    reveal_strlit("home");
    reveal_strlit("end");
    reveal_strlit("pageup");
    reveal_strlit("pagedown");
    reveal_strlit("plus");
    assert("ctrl"@ != "home"@) by {
        assert("ctrl"@[0] != "home"@[0]);
    }
    assert("ctrl"@ != "down"@) by {
        assert("ctrl"@[0] != "down"@[0]);
    }
    assert("ctrl"@ != "left"@) by {
        assert("ctrl"@[0] != "left"@[0]);
    }
    assert("ctrl"@ != "plus"@) by {
        assert("ctrl"@[0] != "plus"@[0]);
    }
    assert("shift"@ != "space"@) by {
        assert("shift"@[1] != "space"@[1]);
    }
    assert("shift"@ != "enter"@) by {
        assert("shift"@[0] != "enter"@[0]);
    }
    assert("shift"@ != "right"@) by {
        assert("shift"@[0] != "right"@[0]);
    }
    assert("alt"@ != "tab"@) by {
        assert("alt"@[0] != "tab"@[0]);
    }
    assert("alt"@ != "esc"@) by {
        assert("alt"@[0] != "esc"@[0]);
    }
    assert("alt"@ != "del"@) by {
        assert("alt"@[0] != "del"@[0]);
    }
    assert("alt"@ != "end"@) by {
        assert("alt"@[0] != "end"@[0]);
    }
}

/// A word of plain lower-case letters reads as itself: trimming and
/// lower-casing leave it unchanged.
proof fn lemma_plain_word(w: Seq<char>)
    requires
        forall|i: int| 0 <= i < w.len() ==> 'a' <= #[trigger] w[i] <= 'z',
    ensures
        chars::lower_text(chars::trim_ws(w)) == w,
{
    if w.len() > 0 {
        assert(!chars::is_ws(w[0]));
        assert(!chars::is_ws(w[w.len() - 1]));
    }
    assert(chars::ws_end(w, 0) == 0);
    assert(chars::ws_back(w, w.len() as int, 0) == w.len());
    assert(chars::trim_ws(w) =~= w);
    assert(chars::lower_text(w) =~= w);
}

/// The parts of a chord string: its modifier words, then its key's name.
pub open spec fn chord_parts(c: Chord) -> Seq<Seq<char>> {
    (if c.ctrl { seq!["ctrl"@] } else { Seq::empty() }) + (if c.shift { seq!["shift"@] } else { Seq::empty() })
        + (if c.alt { seq!["alt"@] } else { Seq::empty() }) + seq![key_str(c.code)]
}

/// `word` then `+` then `rest` splits into `word` and the pieces of `rest`.
proof fn lemma_split_word(word: Seq<char>, rest: Seq<char>)
    requires
        !word.contains('+'),
    ensures
        chars::split_by(word.push('+') + rest, '+') == seq![word] + chars::split_by(rest, '+'),
{
    lemma_split_concat(word, rest, '+');
    lemma_split_single(word, '+');
}

proof fn lemma_chord_parts(c: Chord)
    ensures
        chars::split_by(chord_string(c), '+') == chord_parts(c),
{
    reveal_strlit("ctrl+");
    reveal_strlit("shift+");
    reveal_strlit("alt+");
    reveal_strlit("ctrl");
    reveal_strlit("shift");
    reveal_strlit("alt");
    let k = key_str(c.code);
    lemma_key_str_no_plus(c.code);
    lemma_split_single(k, '+');
    let e = Seq::<char>::empty();
    let a = if c.alt { "alt+"@ } else { e };
    let sa = if c.alt { seq!["alt"@] } else { Seq::<Seq<char>>::empty() };
    if c.alt {
        assert("alt+"@ =~= "alt"@.push('+'));
        assert("alt+"@ + k =~= "alt"@.push('+') + k);
        lemma_split_word("alt"@, k);
    }
    assert(chars::split_by(a + k, '+') =~= sa + seq![k]);
    let b = if c.shift { "shift+"@ } else { e };
    let sb = if c.shift { seq!["shift"@] } else { Seq::<Seq<char>>::empty() };
    if c.shift {
        assert("shift+"@ =~= "shift"@.push('+'));
        assert("shift+"@ + (a + k) =~= "shift"@.push('+') + (a + k));
        lemma_split_word("shift"@, a + k);
    }
    assert(chars::split_by(b + (a + k), '+') =~= sb + (sa + seq![k]));
    let x = if c.ctrl { "ctrl+"@ } else { e };
    let sx = if c.ctrl { seq!["ctrl"@] } else { Seq::<Seq<char>>::empty() };
    if c.ctrl {
        assert("ctrl+"@ =~= "ctrl"@.push('+'));
        assert("ctrl+"@ + (b + (a + k)) =~= "ctrl"@.push('+') + (b + (a + k)));
        lemma_split_word("ctrl"@, b + (a + k));
    }
    assert(chars::split_by(x + (b + (a + k)), '+') =~= sx + (sb + (sa + seq![k])));
    assert(chord_string(c) =~= x + (b + (a + k)));
    assert(chord_parts(c) =~= sx + (sb + (sa + seq![k])));
}

/// Writing a chord and reading it back gives the same chord, whenever its
/// key's written name reads back as that key (true of every key that
/// `parse_key` reads: the named keys, `f1`..`f12`, the plus key, and every
/// character but an upper-case letter or whitespace).
pub proof fn law_chord_round_trip(c: Chord)
    requires
        parse_key_spec(chars::lower_text(chars::trim_ws(key_str(c.code)))) == Some(c.code),
    ensures
        chord_parse_spec(chord_string(c)) == Some(c),
{
    reveal_strlit("ctrl");
    reveal_strlit("shift");
    reveal_strlit("alt");
    lemma_chord_parts(c);
    lemma_modifier_words_are_not_keys();
    lemma_plain_word("ctrl"@);
    lemma_plain_word("shift"@);
    lemma_plain_word("alt"@);
    let k = key_str(c.code);
    let p = chars::lower_text(chars::trim_ws(k));
    assert(p != "ctrl"@);
    assert(p != "shift"@);
    assert(p != "alt"@);
    assert(p.len() != 0) by {
        if p.len() == 0 {
            assert(p =~= Seq::<char>::empty());
        }
    }
    let e = Seq::<Seq<char>>::empty();
    let s0 = e;
    let s1 = if c.ctrl { s0.push("ctrl"@) } else { s0 };
    let s2 = if c.shift { s1.push("shift"@) } else { s1 };
    let s3 = if c.alt { s2.push("alt"@) } else { s2 };
    let s4 = s3.push(k);
    assert(s4 =~= chord_parts(c));
    assert(parse_parts(s0) == Some((false, false, false, None::<KeyCode>)));
    if c.ctrl {
        assert(s1.drop_last() =~= s0);
    }
    assert(parse_parts(s1) == Some((c.ctrl, false, false, None::<KeyCode>)));
    if c.shift {
        assert(s2.drop_last() =~= s1);
    }
    assert(parse_parts(s2) == Some((c.ctrl, c.shift, false, None::<KeyCode>)));
    if c.alt {
        assert(s3.drop_last() =~= s2);
    }
    assert(parse_parts(s3) == Some((c.ctrl, c.shift, c.alt, None::<KeyCode>)));
    assert(s4.drop_last() =~= s3);
    assert(parse_parts(s4) == Some((c.ctrl, c.shift, c.alt, Some(c.code))));
}

impl Chord {
    /// The chord a key press makes.
    pub fn from_event(key: KeyEvent) -> (r: Chord)
        ensures
            r == chord_of_event(key),
    {
        let mut shift = key.modifiers.shift;
        let code = match key.code {
            KeyCode::BackTab => {
                shift = true;
                KeyCode::Tab
            },
            KeyCode::Char(c) => {
                if 'A' <= c && c <= 'Z' {
                    shift = true;
                }
                // ':' is Shift+';'; fold the physical `;` back so a "ctrl+:"
                // binding matches the Ctrl+Shift+; that legacy terminals send.
                let lower = chars::ascii_lower(c);
                if lower == ';' {
                    shift = true;
                    KeyCode::Char(':')
                } else {
                    KeyCode::Char(lower)
                }
            },
            other => other,
        };
        Chord { code, ctrl: key.modifiers.control, shift, alt: key.modifiers.alt }
    }

    /// Parses `"ctrl+shift+e"`, `"alt+up"`, `"f2"`, `"delete"`, … (case-insensitive).
    pub fn parse(s: &str) -> (r: Option<Chord>)
        ensures
            r == chord_parse_spec(s@),
    {
        let parts = chars::split_text(s, '+');
        let ghost ps = parts.deep_view();
        let mut ctrl = false;
        let mut shift = false;
        let mut alt = false;
        let mut code: Option<KeyCode> = None;
        let mut i: usize = 0;
        assert(ps.take(0) =~= Seq::<Seq<char>>::empty());
        while i < parts.len()
            invariant
                ps == parts.deep_view(),
                ps == chars::split_by(s@, '+'),
                i <= parts@.len(),
                parse_parts(ps.take(i as int)) == Some((ctrl, shift, alt, code)),
            decreases parts.len() - i,
        {
            assert(ps.take(i + 1).drop_last() =~= ps.take(i as int));
            assert(ps.take(i + 1).last() == parts@[i as int]@);
            let t = chars::trim_text(parts[i].as_str());
            let p = chars::to_lower(t.as_str());
            let p = p.as_str();
            if chars::same_text(p, "ctrl") {
                ctrl = true;
            } else if chars::same_text(p, "shift") {
                shift = true;
            } else if chars::same_text(p, "alt") {
                alt = true;
            } else if chars::char_count(p) == 0 {
            } else {
                match parse_key(p) {
                    Some(k) => {
                        code = Some(k);
                    },
                    None => {
                        proof {
                            lemma_parse_parts_none(ps, i + 1);
                        }
                        return None;
                    },
                }
            }
            i += 1;
        }
        assert(ps.take(ps.len() as int) =~= ps);
        match code {
            Some(k) => Some(Chord { code: k, ctrl, shift, alt }),
            None => None,
        }
    }

    /// The chord string: modifiers then key, joined by `+`.
    pub fn to_chord_string(self) -> (r: String)
        ensures
            r@ == chord_string(self),
    {
        let mut out = String::new();
        if self.ctrl {
            chars::string_push_str(&mut out, "ctrl+");
        }
        if self.shift {
            chars::string_push_str(&mut out, "shift+");
        }
        if self.alt {
            chars::string_push_str(&mut out, "alt+");
        }
        let k = key_string(self.code);
        chars::string_push_str(&mut out, k.as_str());
        proof {
            let e = Seq::<char>::empty();
            assert(out@ =~= chord_string(self));
        }
        out
    }
}


// ----- the loaded table -----

/// A resolved command binding: the `Action` plus whether it is locked (needs
/// the leader key) per the active keymap.
pub struct Resolved {
    pub action: Action,
    pub locked: bool,
}

/// The loaded shortcuts: an ordered `(command, chord, locked)` table.
pub struct Keybindings {
    binds: Vec<(Bindable, Chord, bool)>,
}

impl View for Keybindings {
    type V = Seq<(Bindable, Chord, bool)>;

    closed spec fn view(&self) -> Seq<(Bindable, Chord, bool)> {
        self.binds@
    }
}

/// Each command of `s` with its default chord (when that parses), unlocked.
pub open spec fn defaults_from(s: Seq<Bindable>) -> Seq<(Bindable, Chord, bool)>
    decreases s.len(),
{
    if s.len() == 0 {
        Seq::empty()
    } else {
        let rest = defaults_from(s.drop_last());
        match chord_parse_spec(default_chord_of(s.last())) {
            Some(c) => rest.push((s.last(), c, false)),
            None => rest,
        }
    }
}

proof fn lemma_defaults_unlocked(s: Seq<Bindable>)
    ensures
        forall|i: int| 0 <= i < defaults_from(s).len() ==> !(#[trigger] defaults_from(s)[i]).2,
    decreases s.len(),
{
    if s.len() > 0 {
        lemma_defaults_unlocked(s.drop_last());
        let rest = defaults_from(s.drop_last());
        assert forall|i: int| 0 <= i < defaults_from(s).len() implies !(#[trigger] defaults_from(s)[i]).2 by {
            if i < rest.len() {
                assert(defaults_from(s)[i] == rest[i]);
            }
        }
    }
}

/// Every built-in shortcut fires directly: none is locked behind the leader key.
pub proof fn law_defaults_unlocked()
    ensures
        forall|i: int| 0 <= i < default_binds().len() ==> !(#[trigger] default_binds()[i]).2,
{
    lemma_defaults_unlocked(all_bindables());
}

/// The built-in table.
pub open spec fn default_binds() -> Seq<(Bindable, Chord, bool)> {
    defaults_from(all_bindables())
}

/// Index of the first entry from `i` on whose chord is `chord` and whose scope
/// covers `focus`.
pub open spec fn lookup_from(binds: Seq<(Bindable, Chord, bool)>, chord: Chord, focus: Focus, i: int) -> Option<int>
    decreases binds.len() - i,
{
    if i < 0 || i >= binds.len() {
        None
    } else if binds[i].1 == chord && scope_matches(scope_of(binds[i].0), focus) {
        Some(i)
    } else {
        lookup_from(binds, chord, focus, i + 1)
    }
}

/// Index of the entry a key press resolves to in `focus`.
pub open spec fn lookup(binds: Seq<(Bindable, Chord, bool)>, key: KeyEvent, focus: Focus) -> Option<int> {
    lookup_from(binds, chord_of_event(key), focus, 0)
}

/// Index of the first entry from `i` on for command `b`.
pub open spec fn entry_of(binds: Seq<(Bindable, Chord, bool)>, b: Bindable, i: int) -> Option<int>
    decreases binds.len() - i,
{
    if i < 0 || i >= binds.len() {
        None
    } else if binds[i].0 == b {
        Some(i)
    } else {
        entry_of(binds, b, i + 1)
    }
}

proof fn lemma_lookup_from(binds: Seq<(Bindable, Chord, bool)>, chord: Chord, focus: Focus, i: int)
    requires
        0 <= i <= binds.len(),
    ensures
        match lookup_from(binds, chord, focus, i) {
            Some(k) => i <= k < binds.len(),
            None => true,
        },
    decreases binds.len() - i,
{
    if i < binds.len() {
        lemma_lookup_from(binds, chord, focus, i + 1);
    }
}

proof fn lemma_entry_of(binds: Seq<(Bindable, Chord, bool)>, b: Bindable, i: int)
    requires
        0 <= i <= binds.len(),
    ensures
        match entry_of(binds, b, i) {
            Some(k) => i <= k < binds.len() && binds[k].0 == b,
            None => true,
        },
    decreases binds.len() - i,
{
    if i < binds.len() {
        lemma_entry_of(binds, b, i + 1);
    }
}

/// The table with command `b`'s entry given `chord`, and the lock flag when
/// one is given (else the default, unlocked). Unchanged without an entry.
pub open spec fn set_spec(
    binds: Seq<(Bindable, Chord, bool)>,
    b: Bindable,
    chord: Chord,
    locked: Option<bool>,
) -> Seq<(Bindable, Chord, bool)> {
    match entry_of(binds, b, 0) {
        None => binds,
        Some(i) => binds.update(
            i,
            (
                b,
                chord,
                match locked {
                    Some(l) => l,
                    None => false,
                },
            ),
        ),
    }
}

/// One step of the label scan: the first character of every `+`-separated part
/// goes to upper case.
pub open spec fn caps_step(st: (Seq<char>, bool), c: char) -> (Seq<char>, bool) {
    if c == '+' {
        (st.0.push('+'), true)
    } else if st.1 {
        (st.0 + chars::upper_of(c), false)
    } else {
        (st.0.push(c), false)
    }
}

pub open spec fn caps_scan(s: Seq<char>) -> (Seq<char>, bool)
    decreases s.len(),
{
    if s.len() == 0 {
        (Seq::empty(), true)
    } else {
        caps_step(caps_scan(s.drop_last()), s.last())
    }
}

/// The human-readable form of a chord: its chord string with each part capitalized.
pub open spec fn chord_label(c: Chord) -> Seq<char> {
    caps_scan(chord_string(c)).0
}

/// The active shortcut shown for command `b`: empty without an entry, and
/// prefixed with "Leader + " when locked.
pub open spec fn shortcut_spec(binds: Seq<(Bindable, Chord, bool)>, b: Bindable) -> Seq<char> {
    match entry_of(binds, b, 0) {
        None => Seq::empty(),
        Some(i) => if binds[i].2 {
            "Leader + "@ + chord_label(binds[i].1)
        } else {
            chord_label(binds[i].1)
        },
    }
}

impl Default for Keybindings {
    fn default() -> (r: Self)
        ensures
            r@ == default_binds(),
    {
        let all = Bindable::all();
        let mut binds: Vec<(Bindable, Chord, bool)> = Vec::new();
        let mut i: usize = 0;
        assert(all@.take(0) =~= Seq::<Bindable>::empty());
        while i < all.len()
            invariant
                all@ == all_bindables(),
                i <= all@.len(),
                binds@ == defaults_from(all@.take(i as int)),
            decreases all.len() - i,
        {
            let b = all[i];
            assert(all@.take(i + 1).drop_last() =~= all@.take(i as int));
            // Defaults are known-valid, so `parse` never fails here.
            if let Some(c) = Chord::parse(b.default_chord()) {
                binds.push((b, c, b.default_locked()));
            }
            i += 1;
        }
        assert(all@.take(all@.len() as int) =~= all@);
        Keybindings { binds }
    }
}

impl Keybindings {
    /// Like `resolve`, but also reports the `locked` flag so the caller can gate
    /// the action behind the leader key.
    pub fn resolve_full(&self, key: KeyEvent, focus: Focus) -> (r: Option<Resolved>)
        ensures
            match lookup(self@, key, focus) {
                None => r is None,
                Some(i) => r matches Some(x) && x.action == action_of(self@[i].0) && x.locked == self@[i].2,
            },
    {
        let chord = Chord::from_event(key);
        let mut i: usize = 0;
        while i < self.binds.len()
            invariant
                i <= self@.len(),
                chord == chord_of_event(key),
                lookup_from(self@, chord, focus, i as int) == lookup(self@, key, focus),
            decreases self.binds.len() - i,
        {
            let (b, c, locked) = self.binds[i];
            if c == chord && b.scope().matches(focus) {
                return Some(Resolved { action: b.to_action(), locked });
            }
            i += 1;
        }
        None
    }

    /// Resolves a key press to its bound `Action` for the given focus, or `None`
    /// (letting the hardcoded typing/motion fallback take over).
    pub fn resolve(&self, key: KeyEvent, focus: Focus) -> (r: Option<Action>)
        ensures
            match lookup(self@, key, focus) {
                None => r is None,
                Some(i) => r == Some(action_of(self@[i].0)),
            },
    {
        match self.resolve_full(key, focus) {
            Some(x) => Some(x.action),
            None => None,
        }
    }

    /// Index of command `b`'s entry.
    fn find_entry(&self, b: Bindable) -> (r: Option<usize>)
        ensures
            r is None <==> entry_of(self@, b, 0) is None,
            r matches Some(i) ==> entry_of(self@, b, 0) == Some(i as int) && i < self@.len(),
    {
        let mut i: usize = 0;
        proof {
            lemma_entry_of(self@, b, 0);
        }
        while i < self.binds.len()
            invariant
                i <= self@.len(),
                entry_of(self@, b, i as int) == entry_of(self@, b, 0),
            decreases self.binds.len() - i,
        {
            if self.binds[i].0 == b {
                return Some(i);
            }
            i += 1;
        }
        None
    }

    /// Returns the active, human-readable shortcut for a command.
    pub fn shortcut(&self, binding: Bindable) -> (r: String)
        ensures
            r@ == shortcut_spec(self@, binding),
    {
        let i = match self.find_entry(binding) {
            Some(i) => i,
            None => return String::new(),
        };
        let (_, chord, locked) = self.binds[i];
        let s = chord.to_chord_string();
        let v = chars::str_chars(s.as_str());
        let mut label = String::new();
        let mut at_start = true;
        let mut k: usize = 0;
        assert(v@.take(0) =~= Seq::<char>::empty());
        while k < v.len()
            invariant
                v@ == chord_string(chord),
                k <= v@.len(),
                (label@, at_start) == caps_scan(v@.take(k as int)),
            decreases v.len() - k,
        {
            let c = v[k];
            assert(v@.take(k + 1).drop_last() =~= v@.take(k as int));
            if c == '+' {
                chars::string_push(&mut label, '+');
                at_start = true;
            } else if at_start {
                let u = chars::char_to_uppercase(c);
                chars::string_push_str(&mut label, u.as_str());
                at_start = false;
            } else {
                chars::string_push(&mut label, c);
            }
            k += 1;
        }
        assert(v@.take(v@.len() as int) =~= v@);
        if locked {
            let mut out = chars::str_to_string("Leader + ");
            chars::string_push_str(&mut out, label.as_str());
            out
        } else {
            label
        }
    }

    /// Rebinds command `b` to `chord`, with the given lock flag (or the default).
    pub fn set(&mut self, b: Bindable, chord: Chord, locked: Option<bool>)
        ensures
            final(self)@ == set_spec(old(self)@, b, chord, locked),
    {
        let default_locked = b.default_locked();
        if let Some(i) = self.find_entry(b) {
            let l = match locked {
                Some(l) => l,
                None => default_locked,
            };
            self.binds.set(i, (b, chord, l));
        }
    }
}


// ----- the TOML file -----

/// How `toml` writes `s` as a string value (a quoted, escaped literal).
pub uninterp spec fn toml_string_literal(s: Seq<char>) -> Seq<char>;

/// `toml::Value::String(s)` displayed: `s` as a TOML string literal, named
/// `toml_string_literal`.
#[verifier::external_body]
fn toml_quote(s: &str) -> (r: String)
    ensures
        r@ == toml_string_literal(s@),
{
    toml::Value::String(s.to_string()).to_string()
}

/// A chord value split from its optional `, locked` / `, quick` suffix. Only a
/// recognized flag after the last comma counts, so the comma key itself stays
/// bindable (`"ctrl+,"`, `"ctrl+,, locked"`).
pub open spec fn split_flag(v: Seq<char>) -> (Seq<char>, Option<bool>) {
    let k = chars::last_index(v, ',', v.len() as int);
    if k >= 0 {
        let flag = chars::trim_ws(v.skip(k + 1));
        if flag == "locked"@ || flag == "quick"@ {
            (chars::trim_ws(v.take(k)), Some(flag == "locked"@))
        } else {
            (v, None)
        }
    } else {
        (v, None)
    }
}

/// The table after reading entry `name = value` of section `section`: a known
/// command with a parseable chord is rebound; anything else changes nothing.
pub open spec fn apply_entry(
    binds: Seq<(Bindable, Chord, bool)>,
    section: Seq<char>,
    name: Seq<char>,
    value: Option<Seq<char>>,
) -> Seq<(Bindable, Chord, bool)> {
    match value {
        None => binds,
        Some(v) => {
            let (chord_part, locked) = split_flag(v);
            match find_named(all_bindables(), section, name) {
                Some(b) => match chord_parse_spec(chord_part) {
                    Some(c) => set_spec(binds, b, c, locked),
                    None => binds,
                },
                None => binds,
            }
        },
    }
}

/// The table after reading the entries of section `section` in order.
pub open spec fn apply_entries(
    binds: Seq<(Bindable, Chord, bool)>,
    section: Seq<char>,
    entries: Seq<TomlFieldView>,
) -> Seq<(Bindable, Chord, bool)>
    decreases entries.len(),
{
    if entries.len() == 0 {
        binds
    } else {
        apply_entry(apply_entries(binds, section, entries.drop_last()), section, entries.last().0, entries.last().1)
    }
}

/// The table after reading all sections of a parsed file in order; values
/// that are not tables are skipped.
pub open spec fn apply_sections(
    binds: Seq<(Bindable, Chord, bool)>,
    secs: Seq<TomlEntryView>,
) -> Seq<(Bindable, Chord, bool)>
    decreases secs.len(),
{
    if secs.len() == 0 {
        binds
    } else {
        let prev = apply_sections(binds, secs.drop_last());
        match secs.last().3 {
            None => prev,
            Some(es) => apply_entries(prev, secs.last().0, es),
        }
    }
}

/// The chord text and lock flag of one entry value.
fn split_chord_flag(v: &str) -> (r: (String, Option<bool>))
    ensures
        (r.0@, r.1) == split_flag(v@),
{
    let chs = chars::str_chars(v);
    let n = chs.len();
    match chars::find_last(&chs, ',') {
        Some(k) => {
            let flag_raw = chars::range_string(&chs, k + 1, n);
            let flag = chars::trim_text(flag_raw.as_str());
            assert(flag_raw@ =~= v@.skip(k + 1));
            let locked = chars::same_text(flag.as_str(), "locked");
            if locked || chars::same_text(flag.as_str(), "quick") {
                let c = chars::range_string(&chs, 0, k);
                assert(c@ =~= v@.take(k as int));
                (chars::trim_text(c.as_str()), Some(locked))
            } else {
                (chars::str_to_string(v), None)
            }
        },
        None => (chars::str_to_string(v), None),
    }
}

/// The shortcuts the top-level entries of a parsed file declare, over the
/// built-in ones: each entry of a section rebinds the command it names (see
/// `apply_sections`).
pub fn from_entries(secs: &Vec<TomlEntry>) -> (r: Keybindings)
    ensures
        r@ == apply_sections(default_binds(), secs.deep_view()),
{
    let mut kb = Keybindings::default();
    let ghost all = secs.deep_view();
    let mut i: usize = 0;
    assert(all.take(0) =~= Seq::<TomlEntryView>::empty());
    while i < secs.len()
        invariant
            all == secs.deep_view(),
            i <= secs@.len(),
            kb@ == apply_sections(default_binds(), all.take(i as int)),
        decreases secs.len() - i,
    {
        assert(all.take(i + 1).drop_last() =~= all.take(i as int));
        let section = &secs[i].0;
        assert(all[i as int] == (section@, secs@[i as int].1.deep_view(), secs@[i as int].2, secs@[i as int].3.deep_view(), secs@[i as int].4@));
        match &secs[i].3 {
            None => {},
            Some(entries) => {
                let ghost es = entries.deep_view();
                let ghost start = kb@;
                let mut j: usize = 0;
                assert(es.take(0) =~= Seq::<TomlFieldView>::empty());
                while j < entries.len()
                    invariant
                        es == entries.deep_view(),
                        j <= entries@.len(),
                        kb@ == apply_entries(start, section@, es.take(j as int)),
                    decreases entries.len() - j,
                {
                    assert(es.take(j + 1).drop_last() =~= es.take(j as int));
                    let name = &entries[j].0;
                    assert(es[j as int] == (name@, entries@[j as int].1.deep_view(), entries@[j as int].2.deep_view()));
                    match &entries[j].1 {
                        None => {},
                        Some(chord_str) => {
                            let (chord_part, locked_override) = split_chord_flag(chord_str.as_str());
                            if let Some(b) = Bindable::by_name(section.as_str(), name.as_str()) {
                                if let Some(chord) = Chord::parse(chord_part.as_str()) {
                                    kb.set(b, chord, locked_override);
                                }
                            }
                        },
                    }
                    j += 1;
                }
                assert(es.take(es.len() as int) =~= es);
            },
        }
        i += 1;
    }
    assert(all.take(all.len() as int) =~= all);
    kb
}

/// Parses the file, starting from the defaults and overriding any command whose
/// chord is declared. Unknown keys / unparseable chords are ignored, so a
/// partial or slightly malformed file still yields a working keymap.
pub fn parse(text: &str) -> (r: Keybindings)
    ensures
        r@ == match config::toml_config_of(text@) {
            None => default_binds(),
            Some(secs) => apply_sections(default_binds(), secs),
        },
{
    match config::toml_config_entries(text) {
        None => Keybindings::default(),
        Some(secs) => from_entries(&secs),
    }
}

/// The comment block that opens the file.
pub open spec fn toml_header() -> Seq<char> {
    "# Coder keyboard shortcuts. Edit a value and save (Ctrl+S) to apply live.\n"@
        + "# Chord format: \"ctrl+shift+e\", \"alt+up\", \"f2\", \"delete\", \"ctrl+space\".\n"@
        + "# Modifiers: ctrl, shift, alt. Keys: a-z, 0-9, f1-f12, up/down/left/right,\n"@
        + "# home/end, pageup/pagedown, tab, enter, esc, space, delete.\n"@
        + "# Only these commands are remappable; typing and cursor motion are fixed.\n"@
        + "# Append \", locked\" to a chord to require the leader key (alt+l) first.\n"@
}

/// The chord string of command `b`'s entry ("" without one).
pub open spec fn chord_text_of(binds: Seq<(Bindable, Chord, bool)>, b: Bindable) -> Seq<char> {
    match entry_of(binds, b, 0) {
        Some(i) => chord_string(binds[i].1),
        None => Seq::empty(),
    }
}

/// Whether command `b`'s entry is locked (the default, unlocked, without one).
pub open spec fn locked_of(binds: Seq<(Bindable, Chord, bool)>, b: Bindable) -> bool {
    match entry_of(binds, b, 0) {
        Some(i) => binds[i].2,
        None => false,
    }
}

/// The line of command `b`: `name = "<chord>"`, with `, locked` appended to a
/// locked chord (the default being unlocked).
pub open spec fn entry_line(binds: Seq<(Bindable, Chord, bool)>, b: Bindable) -> Seq<char> {
    name_of(b) + " = "@ + toml_string_literal(written_value(binds, b)) + "\n"@
}

/// The lines of the commands of `s` that belong to `scope`, in order.
pub open spec fn scope_lines(binds: Seq<(Bindable, Chord, bool)>, scope: Scope, s: Seq<Bindable>) -> Seq<char>
    decreases s.len(),
{
    if s.len() == 0 {
        Seq::empty()
    } else {
        scope_lines(binds, scope, s.drop_last()) + if scope_of(s.last()) == scope {
            entry_line(binds, s.last())
        } else {
            Seq::empty()
        }
    }
}

/// The `[section]` of one scope with its commands.
pub open spec fn scope_block(binds: Seq<(Bindable, Chord, bool)>, scope: Scope) -> Seq<char> {
    "\n["@ + section_of(scope) + "]\n"@ + scope_lines(binds, scope, all_bindables())
}

/// The whole file: the comment block, then the global, editor and sidebar sections.
pub open spec fn to_toml_spec(binds: Seq<(Bindable, Chord, bool)>) -> Seq<char> {
    toml_header() + scope_block(binds, Scope::Global) + scope_block(binds, Scope::Editor) + scope_block(
        binds,
        Scope::Sidebar,
    )
}

impl Keybindings {
    /// The chord string of command `b`'s entry ("" without one).
    fn chord_text(&self, b: Bindable) -> (r: String)
        ensures
            r@ == chord_text_of(self@, b),
    {
        match self.find_entry(b) {
            Some(i) => self.binds[i].1.to_chord_string(),
            None => String::new(),
        }
    }

    /// Whether command `b` is locked (its default without an entry).
    fn locked(&self, b: Bindable) -> (r: bool)
        ensures
            r == locked_of(self@, b),
    {
        match self.find_entry(b) {
            Some(i) => self.binds[i].2,
            None => b.default_locked(),
        }
    }
}

/// Appends the lines of `scope` to `out`.
fn push_scope(out: &mut String, kb: &Keybindings, scope: Scope)
    ensures
        final(out)@ == old(out)@ + scope_block(kb@, scope),
{
    chars::string_push_str(out, "\n[");
    chars::string_push_str(out, scope.section());
    chars::string_push_str(out, "]\n");
    let ghost head = out@;
    let all = Bindable::all();
    let mut i: usize = 0;
    assert(all@.take(0) =~= Seq::<Bindable>::empty());
    while i < all.len()
        invariant
            all@ == all_bindables(),
            i <= all@.len(),
            out@ == head + scope_lines(kb@, scope, all@.take(i as int)),
        decreases all.len() - i,
    {
        let b = all[i];
        assert(all@.take(i + 1).drop_last() =~= all@.take(i as int));
        if b.scope() == scope {
            let locked = kb.locked(b);
            // Write an explicit ", quick"/", locked" suffix only when it differs
            // from the command's default, so the file stays minimal.
            let suffix = if locked != b.default_locked() {
                if locked { ", locked" } else { ", quick" }
            } else {
                ""
            };
            let mut value = kb.chord_text(b);
            chars::string_push_str(&mut value, suffix);
            proof {
                reveal_strlit("");
                assert(suffix@ == if locked_of(kb@, b) { ", locked"@ } else { Seq::<char>::empty() });
            }
            // A TOML string literal, so a `"` or `\` key is escaped properly.
            let quoted = toml_quote(value.as_str());
            let ghost before = out@;
            chars::string_push_str(out, b.name());
            chars::string_push_str(out, " = ");
            chars::string_push_str(out, quoted.as_str());
            chars::string_push_str(out, "\n");
            assert(out@ =~= before + entry_line(kb@, b));
        }
        i += 1;
    }
    assert(all@.take(all@.len() as int) =~= all@);
}

/// Serializes the shortcuts to a commented, `[section]`-grouped TOML document.
pub fn to_toml(kb: &Keybindings) -> (r: String)
    ensures
        r@ == to_toml_spec(kb@),
{
    let mut out = String::new();
    chars::string_push_str(&mut out, "# Coder keyboard shortcuts. Edit a value and save (Ctrl+S) to apply live.\n");
    chars::string_push_str(&mut out, "# Chord format: \"ctrl+shift+e\", \"alt+up\", \"f2\", \"delete\", \"ctrl+space\".\n");
    chars::string_push_str(&mut out, "# Modifiers: ctrl, shift, alt. Keys: a-z, 0-9, f1-f12, up/down/left/right,\n");
    chars::string_push_str(&mut out, "# home/end, pageup/pagedown, tab, enter, esc, space, delete.\n");
    chars::string_push_str(&mut out, "# Only these commands are remappable; typing and cursor motion are fixed.\n");
    chars::string_push_str(&mut out, "# Append \", locked\" to a chord to require the leader key (alt+l) first.\n");
    assert(out@ =~= toml_header());
    push_scope(&mut out, kb, Scope::Global);
    push_scope(&mut out, kb, Scope::Editor);
    push_scope(&mut out, kb, Scope::Sidebar);
    out
}

} // verus!

verus! {

// ----- reading back the line of one command -----

/// What tells the commands' names apart: length, first and last character.
spec fn name_tag(s: Seq<char>) -> (int, char, char) {
    (s.len() as int, s[0], s[s.len() - 1])
}

/// No two commands share a name.
proof fn lemma_names_distinct(b1: Bindable, b2: Bindable)
    requires
        name_of(b1) == name_of(b2),
    ensures
        b1 == b2,
{
    reveal_strlit("quit");
    reveal_strlit("toggle_sidebar");
    reveal_strlit("toggle_terminal");
    reveal_strlit("close_tab");
    reveal_strlit("save");
    reveal_strlit("next_tab");
    reveal_strlit("prev_tab");
    reveal_strlit("find");
    reveal_strlit("replace");
    reveal_strlit("shortcuts");
    reveal_strlit("quickbar");
    reveal_strlit("explorer");
    reveal_strlit("search");
    reveal_strlit("git");
    reveal_strlit("extensions");
    reveal_strlit("themes");
    reveal_strlit("settings");
    reveal_strlit("rename");
    reveal_strlit("leader");
    reveal_strlit("copy");
    reveal_strlit("cut");
    reveal_strlit("paste");
    reveal_strlit("undo");
    reveal_strlit("redo");
    reveal_strlit("select_all");
    reveal_strlit("completion");
    reveal_strlit("format");
    reveal_strlit("move_line_up");
    reveal_strlit("move_line_down");
    reveal_strlit("new_file");
    reveal_strlit("new_folder");
    reveal_strlit("delete_entry");
    reveal_strlit("new_untitled_file");
    assert(name_tag(name_of(b1)) == name_tag(name_of(b2)));
}

/// Every command is in the list of commands.
proof fn lemma_all_bindables_has(b: Bindable)
    ensures
        all_bindables().contains(b),
{
    let s = all_bindables();
    match b {
        Bindable::Quit => assert(s[0] == b),
        Bindable::ToggleSidebar => assert(s[1] == b),
        Bindable::ToggleTerminal => assert(s[2] == b),
        Bindable::CloseTab => assert(s[3] == b),
        Bindable::Save => assert(s[4] == b),
        Bindable::NextTab => assert(s[5] == b),
        Bindable::PrevTab => assert(s[6] == b),
        Bindable::Find => assert(s[7] == b),
        Bindable::Replace => assert(s[8] == b),
        Bindable::Shortcuts => assert(s[9] == b),
        Bindable::Quickbar => assert(s[10] == b),
        Bindable::Explorer => assert(s[11] == b),
        Bindable::Search => assert(s[12] == b),
        Bindable::Git => assert(s[13] == b),
        Bindable::Extensions => assert(s[14] == b),
        Bindable::Themes => assert(s[15] == b),
        Bindable::Settings => assert(s[16] == b),
        Bindable::Rename => assert(s[17] == b),
        Bindable::Leader => assert(s[18] == b),
        Bindable::Copy => assert(s[19] == b),
        Bindable::Cut => assert(s[20] == b),
        Bindable::Paste => assert(s[21] == b),
        Bindable::Undo => assert(s[22] == b),
        Bindable::Redo => assert(s[23] == b),
        Bindable::SelectAll => assert(s[24] == b),
        Bindable::Completion => assert(s[25] == b),
        Bindable::Format => assert(s[26] == b),
        Bindable::MoveLineUp => assert(s[27] == b),
        Bindable::MoveLineDown => assert(s[28] == b),
        Bindable::NewFile => assert(s[29] == b),
        Bindable::NewFolder => assert(s[30] == b),
        Bindable::DeleteEntry => assert(s[31] == b),
        Bindable::NewUntitledFile => assert(s[32] == b),
    }
}

/// Looking a command up by its section and name finds it.
proof fn lemma_find_named(s: Seq<Bindable>, b: Bindable)
    requires
        s.contains(b),
    ensures
        find_named(s, section_of(scope_of(b)), name_of(b)) == Some(b),
    decreases s.len(),
{
    if s[0] != b {
        if name_of(s[0]) == name_of(b) {
            lemma_names_distinct(s[0], b);
        }
        let i = choose|i: int| 0 <= i < s.len() && s[i] == b;
        assert(s.drop_first()[i - 1] == b);
        lemma_find_named(s.drop_first(), b);
    }
}

/// No key's name holds a comma but the comma key's own.
proof fn lemma_key_str_no_comma(code: KeyCode)
    requires
        code != KeyCode::Char(','),
    ensures
        !key_str(code).contains(','),
{
    reveal_strlit("space");
    reveal_strlit("plus");
    reveal_strlit("tab");
    reveal_strlit("enter");
    reveal_strlit("esc");
    reveal_strlit("delete");
    reveal_strlit("backspace");
    reveal_strlit("up");
    reveal_strlit("down");
    reveal_strlit("left");
    reveal_strlit("right");
    reveal_strlit("home");
    reveal_strlit("end");
    reveal_strlit("pageup");
    reveal_strlit("pagedown");
    reveal_strlit("backtab");
    reveal_strlit("insert");
    reveal_strlit("null");
    reveal_strlit("capslock");
    reveal_strlit("scrolllock");
    reveal_strlit("numlock");
    reveal_strlit("printscreen");
    reveal_strlit("pause");
    reveal_strlit("menu");
    reveal_strlit("keypadbegin");
    reveal_strlit("media(");
    reveal_strlit("modifier(");
    reveal_strlit(")");
    let k = key_str(code);
    if k.contains(',') {
        let i = choose|i: int| 0 <= i < k.len() && k[i] == ',';
        match code {
            KeyCode::F(n) => {
                assert(k == seq!['f'] + chars::decimal(n));
                assert(i > 0);
                assert(k[i] == chars::decimal(n)[i - 1]);
            },
            KeyCode::Media(m) => {
                lemma_media_name_no_plus(m);
                assert(k == "media("@ + media_name(m) + ")"@);
                if 6 <= i < 6 + media_name(m).len() {
                    assert(k[i] == media_name(m)[i - 6]);
                }
            },
            KeyCode::Modifier(m) => {
                lemma_modifier_name_no_plus(m);
                assert(k == "modifier("@ + modifier_name(m) + ")"@);
                if 9 <= i < 9 + modifier_name(m).len() {
                    assert(k[i] == modifier_name(m)[i - 9]);
                }
            },
            _ => {},
        }
    }
}

/// A key that reads back as itself has a name that neither starts nor ends
/// with whitespace.
proof fn lemma_key_str_ends(code: KeyCode)
    requires
        parse_key_spec(chars::lower_text(chars::trim_ws(key_str(code)))) == Some(code),
    ensures
        key_str(code).len() > 0,
        !chars::is_ws(key_str(code)[0]),
        !chars::is_ws(key_str(code).last()),
{
    reveal_strlit("space");
    reveal_strlit("plus");
    reveal_strlit("tab");
    reveal_strlit("enter");
    reveal_strlit("esc");
    reveal_strlit("delete");
    reveal_strlit("backspace");
    reveal_strlit("up");
    reveal_strlit("down");
    reveal_strlit("left");
    reveal_strlit("right");
    reveal_strlit("home");
    reveal_strlit("end");
    reveal_strlit("pageup");
    reveal_strlit("pagedown");
    reveal_strlit("backtab");
    reveal_strlit("insert");
    reveal_strlit("null");
    reveal_strlit("capslock");
    reveal_strlit("scrolllock");
    reveal_strlit("numlock");
    reveal_strlit("printscreen");
    reveal_strlit("pause");
    reveal_strlit("menu");
    reveal_strlit("keypadbegin");
    reveal_strlit("media(");
    reveal_strlit("modifier(");
    reveal_strlit(")");
    let k = key_str(code);
    match code {
        KeyCode::Char(x) => {
            if x != ' ' && x != '+' && chars::is_ws(x) {
                assert(k == seq![x]);
                assert(chars::ws_end(k, 1) == 1);
                assert(chars::ws_end(k, 0) == 1);
                assert(chars::trim_ws(k) =~= Seq::<char>::empty());
                assert(chars::lower_text(Seq::<char>::empty()) =~= Seq::<char>::empty());
                lemma_modifier_words_are_not_keys();
            }
        },
        KeyCode::F(n) => {
            assert(k == seq!['f'] + chars::decimal(n));
            assert(k.last() == chars::decimal(n).last());
        },
        KeyCode::Media(m) => {
            assert(k == "media("@ + media_name(m) + ")"@);
            assert(k.last() == ')');
        },
        KeyCode::Modifier(m) => {
            assert(k == "modifier("@ + modifier_name(m) + ")"@);
            assert(k.last() == ')');
        },
        _ => {},
    }
}

/// A text that neither starts nor ends with whitespace trims to itself.
proof fn lemma_trim_plain(t: Seq<char>)
    requires
        t.len() > 0,
        !chars::is_ws(t[0]),
        !chars::is_ws(t.last()),
    ensures
        chars::trim_ws(t) == t,
{
    assert(chars::ws_end(t, 0) == 0);
    assert(chars::ws_back(t, t.len() as int, 0) == t.len());
    assert(t.subrange(0, t.len() as int) =~= t);
}

/// The chord string of a chord whose key reads back trims to itself.
proof fn lemma_chord_string_plain(c: Chord)
    requires
        parse_key_spec(chars::lower_text(chars::trim_ws(key_str(c.code)))) == Some(c.code),
    ensures
        chars::trim_ws(chord_string(c)) == chord_string(c),
{
    reveal_strlit("ctrl+");
    reveal_strlit("shift+");
    reveal_strlit("alt+");
    lemma_key_str_ends(c.code);
    let k = key_str(c.code);
    let e = Seq::<char>::empty();
    let m = (if c.ctrl { "ctrl+"@ } else { e }) + (if c.shift { "shift+"@ } else { e }) + (if c.alt { "alt+"@ } else { e });
    let cs = chord_string(c);
    assert(cs == m + k);
    assert(cs.last() == k.last());
    if m.len() > 0 {
        assert(cs[0] == m[0]);
        assert(m[0] == 'c' || m[0] == 's' || m[0] == 'a');
    } else {
        assert(cs[0] == k[0]);
    }
    lemma_trim_plain(cs);
}

/// The value written for a chord, with `, locked` when it needs the leader
/// key, splits back into the chord string and the lock flag.
proof fn lemma_split_written(c: Chord, locked: bool)
    requires
        parse_key_spec(chars::lower_text(chars::trim_ws(key_str(c.code)))) == Some(c.code),
    ensures
        split_flag(chord_string(c) + (if locked { ", locked"@ } else { Seq::empty() }))
            == (chord_string(c), if locked { Some(true) } else { None }),
{
    reveal_strlit("ctrl+");
    reveal_strlit("shift+");
    reveal_strlit("alt+");
    reveal_strlit(", locked");
    reveal_strlit(" locked");
    reveal_strlit("locked");
    reveal_strlit("quick");
    let cs = chord_string(c);
    let n = cs.len() as int;
    lemma_chord_string_plain(c);
    let e = Seq::<char>::empty();
    let m = (if c.ctrl { "ctrl+"@ } else { e }) + (if c.shift { "shift+"@ } else { e }) + (if c.alt { "alt+"@ } else { e });
    assert(cs == m + key_str(c.code));
    if locked {
        let v = cs + ", locked"@;
        assert(v[n] == ',');
        assert(chars::last_index(v, ',', n + 8) == chars::last_index(v, ',', n + 7));
        assert(chars::last_index(v, ',', n + 7) == chars::last_index(v, ',', n + 6));
        assert(chars::last_index(v, ',', n + 6) == chars::last_index(v, ',', n + 5));
        assert(chars::last_index(v, ',', n + 5) == chars::last_index(v, ',', n + 4));
        assert(chars::last_index(v, ',', n + 4) == chars::last_index(v, ',', n + 3));
        assert(chars::last_index(v, ',', n + 3) == chars::last_index(v, ',', n + 2));
        assert(chars::last_index(v, ',', n + 2) == chars::last_index(v, ',', n + 1));
        assert(chars::last_index(v, ',', n + 1) == n);
        let rest = v.skip(n + 1);
        assert(rest =~= " locked"@);
        assert(chars::ws_end(rest, 1) == 1);
        assert(chars::ws_end(rest, 0) == 1);
        assert(chars::ws_back(rest, 7, 1) == 7);
        assert(chars::trim_ws(rest) =~= "locked"@);
        assert(v.take(n) =~= cs);
    } else {
        assert(cs + e =~= cs);
        if c.code == KeyCode::Char(',') {
            assert(key_str(c.code) == seq![',']);
            assert(cs[n - 1] == ',');
            assert(chars::last_index(cs, ',', n) == n - 1);
            assert(cs.skip(n) =~= e);
            assert(chars::trim_ws(e) =~= e);
            assert(e != "locked"@);
            assert(e != "quick"@);
        } else {
            lemma_key_str_no_comma(c.code);
            assert(!cs.contains(',')) by {
                if cs.contains(',') {
                    let i = choose|i: int| 0 <= i < cs.len() && cs[i] == ',';
                    if i >= m.len() {
                        assert(key_str(c.code)[i - m.len()] == ',');
                    }
                }
            }
            chars::lemma_last_index(cs, ',', n);
        }
    }
}

/// Law: the line the shortcuts file holds for a command, read back, rebinds
/// exactly that command to the chord and lock it was written with — for
/// every chord whose key's name reads back as that key (see
/// `law_chord_round_trip`).
pub proof fn law_entry_line_rebinds(binds: Seq<(Bindable, Chord, bool)>, b: Bindable, c: Chord, locked: bool)
    requires
        parse_key_spec(chars::lower_text(chars::trim_ws(key_str(c.code)))) == Some(c.code),
    ensures
        apply_entry(
            binds,
            section_of(scope_of(b)),
            name_of(b),
            Some(chord_string(c) + (if locked { ", locked"@ } else { Seq::empty() })),
        ) == set_spec(binds, b, c, Some(locked)),
{
    lemma_split_written(c, locked);
    lemma_all_bindables_has(b);
    lemma_find_named(all_bindables(), b);
    law_chord_round_trip(c);
}

/// Where each command stands in the list of commands.
spec fn position_of(b: Bindable) -> int {
    match b {
        Bindable::Quit => 0,
        Bindable::ToggleSidebar => 1,
        Bindable::ToggleTerminal => 2,
        Bindable::CloseTab => 3,
        Bindable::Save => 4,
        Bindable::NextTab => 5,
        Bindable::PrevTab => 6,
        Bindable::Find => 7,
        Bindable::Replace => 8,
        Bindable::Shortcuts => 9,
        Bindable::Quickbar => 10,
        Bindable::Explorer => 11,
        Bindable::Search => 12,
        Bindable::Git => 13,
        Bindable::Extensions => 14,
        Bindable::Themes => 15,
        Bindable::Settings => 16,
        Bindable::Rename => 17,
        Bindable::Leader => 18,
        Bindable::Copy => 19,
        Bindable::Cut => 20,
        Bindable::Paste => 21,
        Bindable::Undo => 22,
        Bindable::Redo => 23,
        Bindable::SelectAll => 24,
        Bindable::Completion => 25,
        Bindable::Format => 26,
        Bindable::MoveLineUp => 27,
        Bindable::MoveLineDown => 28,
        Bindable::NewFile => 29,
        Bindable::NewFolder => 30,
        Bindable::DeleteEntry => 31,
        Bindable::NewUntitledFile => 32,
    }
}

/// The list of commands names each command once.
proof fn lemma_all_bindables_distinct()
    ensures
        forall|i: int, j: int| 0 <= i < j < all_bindables().len() ==> all_bindables()[i] != all_bindables()[j],
{
    let s = all_bindables();
    assert forall|i: int| 0 <= i < s.len() implies position_of(#[trigger] s[i]) == i by {
        if i == 0 {} else
        if i == 1 {} else
        if i == 2 {} else
        if i == 3 {} else
        if i == 4 {} else
        if i == 5 {} else
        if i == 6 {} else
        if i == 7 {} else
        if i == 8 {} else
        if i == 9 {} else
        if i == 10 {} else
        if i == 11 {} else
        if i == 12 {} else
        if i == 13 {} else
        if i == 14 {} else
        if i == 15 {} else
        if i == 16 {} else
        if i == 17 {} else
        if i == 18 {} else
        if i == 19 {} else
        if i == 20 {} else
        if i == 21 {} else
        if i == 22 {} else
        if i == 23 {} else
        if i == 24 {} else
        if i == 25 {} else
        if i == 26 {} else
        if i == 27 {} else
        if i == 28 {} else
        if i == 29 {} else
        if i == 30 {} else
        if i == 31 {} else {}
    }
    assert forall|i: int, j: int| 0 <= i < j < s.len() implies s[i] != s[j] by {
        assert(position_of(s[i]) == i);
        assert(position_of(s[j]) == j);
    }
}

// ----- reading back the whole file -----

/// The table holds the same commands, in the same places, as the built-in
/// one (true of every table `Keybindings` builds: rebinding only changes a
/// command's chord and lock).
pub open spec fn same_commands(binds: Seq<(Bindable, Chord, bool)>) -> bool {
    &&& binds.len() == default_binds().len()
    &&& forall|i: int| 0 <= i < binds.len() ==> (#[trigger] binds[i]).0 == default_binds()[i].0
}

/// Every chord of the table has a key whose name reads back as that key.
pub open spec fn chords_read_back(binds: Seq<(Bindable, Chord, bool)>) -> bool {
    forall|i: int| 0 <= i < binds.len() ==> parse_key_spec(
        chars::lower_text(chars::trim_ws(key_str((#[trigger] binds[i]).1.code))),
    ) == Some(binds[i].1.code)
}

/// The value the shortcuts file holds for command `b`: its chord string, with
/// `, locked` when it needs the leader key.
pub open spec fn written_value(binds: Seq<(Bindable, Chord, bool)>, b: Bindable) -> Seq<char> {
    chord_text_of(binds, b) + (if locked_of(binds, b) { ", locked"@ } else { Seq::empty() })
}

/// The commands the fields of section `section` name.
pub open spec fn named_in_fields(section: Seq<char>, fields: Seq<TomlFieldView>) -> Set<Bindable>
    decreases fields.len(),
{
    if fields.len() == 0 {
        Set::empty()
    } else {
        let r = named_in_fields(section, fields.drop_last());
        match find_named(all_bindables(), section, fields.last().0) {
            Some(b) => r.insert(b),
            None => r,
        }
    }
}

/// The commands the sections of a parsed file name.
pub open spec fn named_in_sections(secs: Seq<TomlEntryView>) -> Set<Bindable>
    decreases secs.len(),
{
    if secs.len() == 0 {
        Set::empty()
    } else {
        let r = named_in_sections(secs.drop_last());
        match secs.last().3 {
            Some(fs) => r.union(named_in_fields(secs.last().0, fs)),
            None => r,
        }
    }
}

/// Each field of section `section` that names a command holds the value the
/// file is written with for it.
pub open spec fn fields_written(binds: Seq<(Bindable, Chord, bool)>, section: Seq<char>, fields: Seq<TomlFieldView>) -> bool {
    forall|j: int| 0 <= j < fields.len() ==> match find_named(all_bindables(), section, (#[trigger] fields[j]).0) {
        Some(b) => fields[j].1 == Some(written_value(binds, b)),
        None => true,
    }
}

/// Every section of a parsed file holds only values written from `binds`.
pub open spec fn sections_written(binds: Seq<(Bindable, Chord, bool)>, secs: Seq<TomlEntryView>) -> bool {
    forall|k: int| 0 <= k < secs.len() ==> match (#[trigger] secs[k]).3 {
        Some(fs) => fields_written(binds, secs[k].0, fs),
        None => true,
    }
}

/// The built-in table with the commands of `done` taken from `binds`.
spec fn restored(binds: Seq<(Bindable, Chord, bool)>, done: Set<Bindable>) -> Seq<(Bindable, Chord, bool)> {
    Seq::new(binds.len(), |i: int| if done.contains(binds[i].0) { binds[i] } else { default_binds()[i] })
}

/// What `find_named` finds has the section and name it was looked up by.
proof fn lemma_find_named_matches(s: Seq<Bindable>, section: Seq<char>, name: Seq<char>)
    ensures
        find_named(s, section, name) matches Some(b) ==> section_of(scope_of(b)) == section && name_of(b) == name,
    decreases s.len(),
{
    if s.len() > 0 {
        lemma_find_named_matches(s.drop_first(), section, name);
    }
}

/// The entries of `defaults_from(s)` are commands of `s`, each once when `s`
/// names each once.
proof fn lemma_defaults_from(s: Seq<Bindable>)
    ensures
        forall|i: int| 0 <= i < defaults_from(s).len() ==> s.contains(#[trigger] defaults_from(s)[i].0),
        (forall|i: int, j: int| 0 <= i < j < s.len() ==> s[i] != s[j]) ==> forall|i: int, j: int|
            0 <= i < j < defaults_from(s).len() ==> defaults_from(s)[i].0 != defaults_from(s)[j].0,
    decreases s.len(),
{
    if s.len() > 0 {
        let p = s.drop_last();
        lemma_defaults_from(p);
        let rest = defaults_from(p);
        assert forall|i: int| 0 <= i < defaults_from(s).len() implies s.contains(#[trigger] defaults_from(s)[i].0) by {
            if i < rest.len() {
                assert(defaults_from(s)[i] == rest[i]);
                let k = choose|k: int| 0 <= k < p.len() && p[k] == rest[i].0;
                assert(s[k] == p[k]);
            } else {
                assert(s[s.len() - 1] == s.last());
            }
        }
        if forall|i: int, j: int| 0 <= i < j < s.len() ==> s[i] != s[j] {
            assert forall|i: int, j: int| 0 <= i < j < p.len() implies p[i] != p[j] by {
                assert(p[i] == s[i]);
                assert(p[j] == s[j]);
            }
            assert forall|i: int, j: int| 0 <= i < j < defaults_from(s).len() implies defaults_from(s)[i].0
                != defaults_from(s)[j].0 by {
                if j >= rest.len() {
                    assert(defaults_from(s)[i] == rest[i]);
                    let k = choose|k: int| 0 <= k < p.len() && p[k] == rest[i].0;
                    assert(s[k] == p[k]);
                    assert(defaults_from(s)[j].0 == s.last());
                    assert(s[s.len() - 1] == s.last());
                } else {
                    assert(defaults_from(s)[i] == rest[i]);
                    assert(defaults_from(s)[j] == rest[j]);
                }
            }
        }
    }
}

/// A table with the built-in commands names each command once.
proof fn lemma_same_commands_distinct(binds: Seq<(Bindable, Chord, bool)>)
    requires
        same_commands(binds),
    ensures
        forall|i: int, j: int| 0 <= i < j < binds.len() ==> binds[i].0 != binds[j].0,
{
    lemma_all_bindables_distinct();
    lemma_defaults_from(all_bindables());
    assert forall|i: int, j: int| 0 <= i < j < binds.len() implies binds[i].0 != binds[j].0 by {
        assert(binds[i].0 == default_binds()[i].0);
        assert(binds[j].0 == default_binds()[j].0);
    }
}

/// Where command `b` stands only depends on which commands stand where.
proof fn lemma_entry_of_same_keys(x: Seq<(Bindable, Chord, bool)>, y: Seq<(Bindable, Chord, bool)>, b: Bindable, i: int)
    requires
        x.len() == y.len(),
        forall|k: int| 0 <= k < x.len() ==> (#[trigger] x[k]).0 == y[k].0,
        0 <= i <= x.len(),
    ensures
        entry_of(x, b, i) == entry_of(y, b, i),
    decreases x.len() - i,
{
    if i < x.len() {
        lemma_entry_of_same_keys(x, y, b, i + 1);
    }
}

/// A command without an entry stands nowhere in the table.
proof fn lemma_entry_of_none(binds: Seq<(Bindable, Chord, bool)>, b: Bindable, i: int)
    requires
        0 <= i <= binds.len(),
        entry_of(binds, b, i) is None,
    ensures
        forall|k: int| i <= k < binds.len() ==> (#[trigger] binds[k]).0 != b,
    decreases binds.len() - i,
{
    if i < binds.len() {
        lemma_entry_of_none(binds, b, i + 1);
    }
}

/// Reading one field written from `binds` takes its command's entry from
/// `binds`.
proof fn lemma_restore_entry(
    binds: Seq<(Bindable, Chord, bool)>,
    done: Set<Bindable>,
    section: Seq<char>,
    name: Seq<char>,
    value: Option<Seq<char>>,
)
    requires
        same_commands(binds),
        chords_read_back(binds),
        match find_named(all_bindables(), section, name) {
            Some(b) => value == Some(written_value(binds, b)),
            None => true,
        },
    ensures
        apply_entry(restored(binds, done), section, name, value) == restored(
            binds,
            match find_named(all_bindables(), section, name) {
                Some(b) => done.insert(b),
                None => done,
            },
        ),
{
    let r = restored(binds, done);
    let d = default_binds();
    assert forall|k: int| 0 <= k < r.len() implies (#[trigger] r[k]).0 == binds[k].0 by {
        assert(d[k].0 == binds[k].0);
    }
    lemma_find_named_matches(all_bindables(), section, name);
    match find_named(all_bindables(), section, name) {
        None => {},
        Some(b) => {
            lemma_entry_of_same_keys(r, binds, b, 0);
            lemma_entry_of(binds, b, 0);
            match entry_of(binds, b, 0) {
                Some(i0) => {
                    let c = binds[i0].1;
                    let l = binds[i0].2;
                    assert(written_value(binds, b) == chord_string(c) + (if l { ", locked"@ } else { Seq::<char>::empty() }));
                    law_entry_line_rebinds(r, b, c, l);
                    lemma_same_commands_distinct(binds);
                    assert(apply_entry(r, section, name, value) =~= restored(binds, done.insert(b)));
                },
                None => {
                    lemma_entry_of_none(binds, b, 0);
                    assert(apply_entry(r, section, name, value) == r);
                    assert(r =~= restored(binds, done.insert(b)));
                },
            }
        },
    }
}

/// Reading the fields of one section written from `binds` takes the entries
/// of the commands they name from `binds`.
proof fn lemma_restore_fields(
    binds: Seq<(Bindable, Chord, bool)>,
    done: Set<Bindable>,
    section: Seq<char>,
    fields: Seq<TomlFieldView>,
)
    requires
        same_commands(binds),
        chords_read_back(binds),
        fields_written(binds, section, fields),
    ensures
        apply_entries(restored(binds, done), section, fields) == restored(binds, done.union(named_in_fields(section, fields))),
    decreases fields.len(),
{
    if fields.len() == 0 {
        assert(done.union(Set::empty()) =~= done);
    } else {
        let p = fields.drop_last();
        assert(fields_written(binds, section, p)) by {
            assert forall|j: int| 0 <= j < p.len() implies match find_named(all_bindables(), section, (#[trigger] p[j]).0) {
                Some(b) => p[j].1 == Some(written_value(binds, b)),
                None => true,
            } by {
                assert(p[j] == fields[j]);
            }
        }
        lemma_restore_fields(binds, done, section, p);
        let last = fields.last();
        assert(last == fields[fields.len() - 1]);
        let mid = done.union(named_in_fields(section, p));
        lemma_restore_entry(binds, mid, section, last.0, last.1);
        match find_named(all_bindables(), section, last.0) {
            Some(b) => {
                assert(mid.insert(b) =~= done.union(named_in_fields(section, fields)));
            },
            None => {
                assert(mid =~= done.union(named_in_fields(section, fields)));
            },
        }
    }
}

/// Reading the sections of a file written from `binds` takes the entries of
/// the commands they name from `binds`.
proof fn lemma_restore_sections(binds: Seq<(Bindable, Chord, bool)>, secs: Seq<TomlEntryView>)
    requires
        same_commands(binds),
        chords_read_back(binds),
        sections_written(binds, secs),
    ensures
        apply_sections(default_binds(), secs) == restored(binds, named_in_sections(secs)),
    decreases secs.len(),
{
    if secs.len() == 0 {
        let d = default_binds();
        assert forall|k: int| 0 <= k < d.len() implies restored(binds, Set::empty())[k] == d[k] by {}
        assert(restored(binds, Set::empty()) =~= d);
    } else {
        let p = secs.drop_last();
        assert(sections_written(binds, p)) by {
            assert forall|k: int| 0 <= k < p.len() implies match (#[trigger] p[k]).3 {
                Some(fs) => fields_written(binds, p[k].0, fs),
                None => true,
            } by {
                assert(p[k] == secs[k]);
            }
        }
        lemma_restore_sections(binds, p);
        let last = secs.last();
        assert(last == secs[secs.len() - 1]);
        match last.3 {
            Some(fs) => {
                lemma_restore_fields(binds, named_in_sections(p), last.0, fs);
            },
            None => {},
        }
    }
}

/// Law: reading back the shortcuts file written from a table restores the
/// table. Whatever order the parser hands the sections and fields over in,
/// and whatever unknown names it also hands over, every command the file
/// names gets back the chord and lock it was written with, so a file naming
/// every command reads back as the very table it was written from — for
/// every table of the built-in commands whose keys' names read back as those
/// keys (see `law_chord_round_trip`).
pub proof fn law_shortcuts_file_restores(binds: Seq<(Bindable, Chord, bool)>, secs: Seq<TomlEntryView>)
    requires
        same_commands(binds),
        chords_read_back(binds),
        sections_written(binds, secs),
        forall|i: int| 0 <= i < binds.len() ==> named_in_sections(secs).contains(#[trigger] binds[i].0),
    ensures
        apply_sections(default_binds(), secs) == binds,
{
    lemma_restore_sections(binds, secs);
    assert(restored(binds, named_in_sections(secs)) =~= binds);
}

/// Rebinding keeps the commands where they stand.
proof fn lemma_set_keeps_commands(binds: Seq<(Bindable, Chord, bool)>, b: Bindable, c: Chord, l: Option<bool>)
    requires
        same_commands(binds),
    ensures
        same_commands(set_spec(binds, b, c, l)),
{
    lemma_entry_of(binds, b, 0);
    let r = set_spec(binds, b, c, l);
    assert forall|i: int| 0 <= i < r.len() implies (#[trigger] r[i]).0 == default_binds()[i].0 by {
        assert(binds[i].0 == default_binds()[i].0);
    }
}

proof fn lemma_entries_keep_commands(binds: Seq<(Bindable, Chord, bool)>, section: Seq<char>, fields: Seq<TomlFieldView>)
    requires
        same_commands(binds),
    ensures
        same_commands(apply_entries(binds, section, fields)),
    decreases fields.len(),
{
    if fields.len() > 0 {
        lemma_entries_keep_commands(binds, section, fields.drop_last());
        let prev = apply_entries(binds, section, fields.drop_last());
        match fields.last().1 {
            Some(v) => {
                let (chord_part, locked) = split_flag(v);
                match find_named(all_bindables(), section, fields.last().0) {
                    Some(b) => match chord_parse_spec(chord_part) {
                        Some(c) => lemma_set_keeps_commands(prev, b, c, locked),
                        None => {},
                    },
                    None => {},
                }
            },
            None => {},
        }
    }
}

/// Law: every table the shortcuts are kept in holds the built-in commands in
/// their places: the built-in table, any table after a rebinding, and any
/// table read from a file.
pub proof fn law_tables_keep_their_commands(
    binds: Seq<(Bindable, Chord, bool)>,
    b: Bindable,
    c: Chord,
    l: Option<bool>,
    secs: Seq<TomlEntryView>,
)
    ensures
        same_commands(default_binds()),
        same_commands(binds) ==> same_commands(set_spec(binds, b, c, l)),
        same_commands(apply_sections(default_binds(), secs)),
    decreases secs.len(),
{
    if same_commands(binds) {
        lemma_set_keeps_commands(binds, b, c, l);
    }
    if secs.len() > 0 {
        law_tables_keep_their_commands(binds, b, c, l, secs.drop_last());
        match secs.last().3 {
            Some(fs) => lemma_entries_keep_commands(apply_sections(default_binds(), secs.drop_last()), secs.last().0, fs),
            None => {},
        }
    }
}

} // verus!
