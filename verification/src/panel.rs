//! Layout-level enums and state: activity-bar panels, keyboard focus, mouse
//! drag targets and pane sizes.

use vstd::prelude::*;

verus! {

/// Left activity bar panels.
#[derive(Clone, Copy, Debug, PartialEq, Eq, Structural)]
pub enum Panel {
    Files,
    Search,
    Git,
    Extensions,
    /// Theme picker — right below Extensions.
    Themes,
    /// Editor preferences (format on save, etc.) — right below Themes.
    Settings,
}

/// The Nerd Font glyph of each panel.
pub open spec fn panel_icon_spec(p: Panel) -> Seq<char> {
    match p {
        Panel::Files => "\u{f4a5}"@,
        Panel::Search => "\u{f002}"@,
        Panel::Git => "\u{f419}"@,
        Panel::Extensions => "\u{f12e}"@,
        Panel::Themes => "\u{f1fc}"@,
        Panel::Settings => "\u{f013}"@,
    }
}

/// The plain-emoji glyph of each panel.
pub open spec fn panel_ascii_icon_spec(p: Panel) -> Seq<char> {
    match p {
        Panel::Files => "📁"@,
        Panel::Search => "🔍"@,
        Panel::Git => "🔀"@,
        Panel::Extensions => "📖"@,
        Panel::Themes => "🔦"@,
        Panel::Settings => "⚙️"@,
    }
}

/// The sidebar heading of each panel.
pub open spec fn panel_title_spec(p: Panel) -> Seq<char> {
    match p {
        Panel::Files => "EXPLORER"@,
        Panel::Search => "SEARCH"@,
        Panel::Git => "SOURCE CONTROL"@,
        Panel::Extensions => "EXTENSIONS"@,
        Panel::Themes => "THEMES"@,
        Panel::Settings => "SETTINGS"@,
    }
}

impl Panel {
    pub fn icon(&self) -> (r: &'static str)
        ensures
            r@ == panel_icon_spec(*self),
    {
        match self {
            Panel::Files => "\u{f4a5}",
            Panel::Search => "\u{f002}",
            Panel::Git => "\u{f419}",
            Panel::Extensions => "\u{f12e}",
            Panel::Themes => "\u{f1fc}",
            Panel::Settings => "\u{f013}",
        }
    }

    /// Fallback icons when Nerd Font glyphs are off (`ascii_icons`): plain
    /// emoji, which every modern terminal font renders without a patched font.
    pub fn ascii_icon(&self) -> (r: &'static str)
        ensures
            r@ == panel_ascii_icon_spec(*self),
    {
        match self {
            Panel::Files => "📁",
            Panel::Search => "🔍",
            Panel::Git => "🔀",
            Panel::Extensions => "📖",
            Panel::Themes => "🔦",
            Panel::Settings => "⚙️",
        }
    }

    pub fn title(&self) -> (r: &'static str)
        ensures
            r@ == panel_title_spec(*self),
    {
        match self {
            Panel::Files => "EXPLORER",
            Panel::Search => "SEARCH",
            Panel::Git => "SOURCE CONTROL",
            Panel::Extensions => "EXTENSIONS",
            Panel::Themes => "THEMES",
            Panel::Settings => "SETTINGS",
        }
    }
}

/// Focus — the target that keyboard events are routed to.
#[derive(Clone, Copy, Debug, PartialEq, Eq, Structural)]
pub enum Focus {
    Editor,
    Terminal,
    Sidebar,
    SearchInput,
    /// The commit message input in the Git panel.
    GitCommit,
    /// The in-editor find/replace widget.
    Find,
}

/// Mouse drag target (panel resizing / text selection).
#[derive(Clone, Copy, Debug, PartialEq, Eq, Structural)]
pub enum DragTarget {
    SidebarBorder,
    TerminalBorder,
    EditorSelect,
    /// Dragging the editor scrollbar thumb.
    Scrollbar,
    /// Dragging the editor's horizontal scrollbar thumb.
    ScrollbarX,
    /// Dragging inside the terminal area to select text.
    TerminalSelect,
    /// Dragging the terminal scrollback scrollbar thumb.
    TerminalScrollbar,
}

/// Pane sizes and visibility.
pub struct LayoutState {
    pub sidebar_width: u16,
    pub terminal_height: u16,
    pub sidebar_open: bool,
    pub terminal_open: bool,
}

impl Default for LayoutState {
    fn default() -> (r: Self)
        ensures
            r.sidebar_width == 30,
            r.terminal_height == 12,
            r.sidebar_open,
            !r.terminal_open,
    {
        LayoutState { sidebar_width: 30, terminal_height: 12, sidebar_open: true, terminal_open: false }
    }
}

/// The icon the activity bar shows for `panel`: the emoji fallback when the
/// `ascii_icons` setting is on, the Nerd Font glyph otherwise.
pub fn panel_icon(ascii_icons: bool, panel: Panel) -> (r: &'static str)
    ensures
        r@ == if ascii_icons { panel_ascii_icon_spec(panel) } else { panel_icon_spec(panel) },
{
    if ascii_icons {
        panel.ascii_icon()
    } else {
        panel.icon()
    }
}

} // verus!
