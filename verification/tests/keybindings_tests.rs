use coder::keybindings::{parse, to_toml, Bindable, Chord, Keybindings};
use coder::keymap::{self, Action};
use coder::keys::{KeyCode, KeyEvent, KeyModifiers};
use coder::panel::Focus;

fn mods(ctrl: bool, shift: bool, alt: bool) -> KeyModifiers {
    KeyModifiers { shift, control: ctrl, alt }
}

fn ev(code: KeyCode, m: KeyModifiers) -> KeyEvent {
    KeyEvent::new(code, m)
}

const CONTROL: (bool, bool, bool) = (true, false, false);

fn ctrl() -> KeyModifiers {
    mods(CONTROL.0, CONTROL.1, CONTROL.2)
}

#[test]
fn defaults_resolve_global_and_scoped() {
    let kb = Keybindings::default();
    // Ctrl+Q quits from any focus.
    assert!(matches!(
        kb.resolve(ev(KeyCode::Char('q'), ctrl()), Focus::Editor),
        Some(Action::Quit)
    ));
    // Ctrl+C copies only in the editor.
    assert!(matches!(
        kb.resolve(ev(KeyCode::Char('c'), ctrl()), Focus::Editor),
        Some(Action::Copy)
    ));
    assert!(kb.resolve(ev(KeyCode::Char('c'), ctrl()), Focus::Sidebar).is_none());
}

#[test]
fn alt7_opens_shortcuts() {
    let kb = Keybindings::default();
    assert!(matches!(
        kb.resolve(ev(KeyCode::Char('7'), mods(false, false, true)), Focus::Editor),
        Some(Action::ShowShortcuts)
    ));
}

#[test]
fn plain_typing_is_not_a_command() {
    let kb = Keybindings::default();
    assert!(kb.resolve(ev(KeyCode::Char('a'), KeyModifiers::none()), Focus::Editor).is_none());
}

#[test]
fn overrides_apply_and_round_trip() {
    let kb = parse("[global]\nquit = \"ctrl+shift+q\"\n");
    assert!(kb.resolve(ev(KeyCode::Char('q'), ctrl()), Focus::Editor).is_none());
    assert!(matches!(
        kb.resolve(ev(KeyCode::Char('q'), mods(true, true, false)), Focus::Editor),
        Some(Action::Quit)
    ));
    // A full round-trip preserves the override.
    let restored = parse(&to_toml(&kb));
    assert!(matches!(
        restored.resolve(ev(KeyCode::Char('q'), mods(true, true, false)), Focus::Editor),
        Some(Action::Quit)
    ));
}

#[test]
fn quickbar_binding_is_remappable() {
    let default = Keybindings::default();
    assert!(matches!(
        default.resolve(ev(KeyCode::Char('p'), ctrl()), Focus::Editor),
        Some(Action::OpenQuickbar)
    ));
    let remapped = parse("[global]\nquickbar = \"ctrl+k\"\n");
    assert!(matches!(
        remapped.resolve(ev(KeyCode::Char('k'), ctrl()), Focus::Editor),
        Some(Action::OpenQuickbar)
    ));
    assert!(remapped.resolve(ev(KeyCode::Char('p'), ctrl()), Focus::Editor).is_none());
    assert!(matches!(
        remapped.resolve(ev(KeyCode::Char('k'), ctrl()), Focus::Sidebar),
        Some(Action::OpenQuickbar)
    ));
}

#[test]
fn leader_chord_parses_and_resolves() {
    let kb = Keybindings::default();
    let r = kb
        .resolve_full(ev(KeyCode::Char('l'), mods(false, false, true)), Focus::Editor)
        .expect("alt+l should resolve to Leader");
    assert!(!r.locked);
    assert!(matches!(r.action, Action::Leader));
}

#[test]
fn defaults_are_quick_without_leader() {
    let kb = Keybindings::default();
    let quit = kb
        .resolve_full(ev(KeyCode::Char('q'), ctrl()), Focus::Editor)
        .expect("ctrl+q resolves");
    assert!(!quit.locked, "default quit must be quick");
    let save = kb
        .resolve_full(ev(KeyCode::Char('s'), ctrl()), Focus::Editor)
        .expect("ctrl+s resolves");
    assert!(!save.locked, "default save must be quick");
}

#[test]
fn locked_requires_unlock_through_keymap_resolve() {
    let kb = parse("[global]\nquit = \"ctrl+q, locked\"\n");
    let quick = kb
        .resolve_full(ev(KeyCode::Char('q'), ctrl()), Focus::Editor)
        .expect("ctrl+q resolves");
    assert!(quick.locked, "explicitly locked command reports locked");

    let locked_no_unlock = keymap::resolve(&kb, ev(KeyCode::Char('q'), ctrl()), Focus::Editor, false);
    assert!(locked_no_unlock.is_none(), "locked + no unlock falls through");

    let locked_unlock = keymap::resolve(&kb, ev(KeyCode::Char('q'), ctrl()), Focus::Editor, true);
    assert!(matches!(locked_unlock, Some(Action::Quit)), "locked + unlock fires");
}

#[test]
fn comma_key_is_bindable_with_and_without_a_flag() {
    let kb = parse("[global]\nquit = \"ctrl+,\"\n");
    assert!(matches!(
        kb.resolve(ev(KeyCode::Char(','), ctrl()), Focus::Editor),
        Some(Action::Quit)
    ));
    let kb = parse("[global]\nquit = \"ctrl+,, quick\"\n");
    assert!(matches!(
        kb.resolve(ev(KeyCode::Char(','), ctrl()), Focus::Editor),
        Some(Action::Quit)
    ));
}

#[test]
fn quote_and_backslash_keys_round_trip_through_toml() {
    for key in ['"', '\\', '+'] {
        let mut kb = Keybindings::default();
        let chord = Chord { code: KeyCode::Char(key), ctrl: true, shift: false, alt: false };
        kb.set(Bindable::Quit, chord, None);
        let text = to_toml(&kb);
        assert!(text.parse::<toml::Table>().is_ok(), "invalid TOML for {key:?}");
        let back = parse(&text);
        assert!(matches!(
            back.resolve(ev(KeyCode::Char(key), ctrl()), Focus::Editor),
            Some(Action::Quit)
        ));
    }
}

#[test]
fn chord_strings_round_trip() {
    for s in ["ctrl+q", "shift+tab", "alt+7", "f2", "ctrl+space", "ctrl+alt+f", "alt+shift+n", "delete", "ctrl+plus"] {
        let c = Chord::parse(s).expect("default-style chord parses");
        let again = Chord::parse(&c.to_chord_string()).expect("its string parses back");
        assert_eq!(c, again, "{s}");
    }
    // Modifiers are written in a fixed order.
    assert_eq!(Chord::parse("alt+shift+n").unwrap().to_chord_string(), "shift+alt+n");
    assert_eq!(Chord::parse("CTRL + Q").unwrap().to_chord_string(), "ctrl+q");
}

#[test]
fn chord_parse_rejects_unknown_keys() {
    assert!(Chord::parse("ctrl+banana").is_none());
    assert!(Chord::parse("ctrl+").is_none());
    assert!(Chord::parse("f13").is_none());
    assert!(Chord::parse("f0").is_none());
    assert_eq!(Chord::parse("f12").unwrap().code, KeyCode::F(12));
    assert_eq!(Chord::parse("F").unwrap().code, KeyCode::Char('f'));
}

#[test]
fn shortcut_labels_capitalize_each_part() {
    let kb = Keybindings::default();
    assert_eq!(kb.shortcut(Bindable::Quit), "Ctrl+Q");
    assert_eq!(kb.shortcut(Bindable::Format), "Ctrl+Alt+F");
    assert_eq!(kb.shortcut(Bindable::Rename), "F2");
    let locked = parse("[global]\nquit = \"ctrl+q, locked\"\n");
    assert_eq!(locked.shortcut(Bindable::Quit), "Leader + Ctrl+Q");
}

#[test]
fn unknown_sections_and_bad_chords_are_ignored() {
    let kb = parse("[editor]\nquit = \"ctrl+k\"\n[global]\nsave = \"ctrl+banana\"\n");
    // quit lives in [global], so the [editor] entry is unknown.
    assert!(matches!(kb.resolve(ev(KeyCode::Char('q'), ctrl()), Focus::Editor), Some(Action::Quit)));
    // An unparseable chord leaves the default in place.
    assert!(matches!(kb.resolve(ev(KeyCode::Char('s'), ctrl()), Focus::Editor), Some(Action::Save)));
}

#[test]
fn unparseable_file_yields_defaults() {
    let kb = parse("[global\nquit = ");
    assert!(matches!(kb.resolve(ev(KeyCode::Char('q'), ctrl()), Focus::Terminal), Some(Action::Quit)));
}

#[test]
fn by_name_finds_commands_in_their_section() {
    assert_eq!(Bindable::by_name("editor", "copy"), Some(Bindable::Copy));
    assert_eq!(Bindable::by_name("global", "copy"), None);
    assert_eq!(Bindable::by_name("sidebar", "new_file"), Some(Bindable::NewFile));
    assert_eq!(Bindable::all().len(), 33);
}

#[test]
fn uppercase_and_backtab_fold_into_shift() {
    let kb = Keybindings::default();
    assert!(matches!(kb.resolve(ev(KeyCode::BackTab, KeyModifiers::none()), Focus::Editor), Some(Action::PrevTab)));
    let c = Chord::from_event(ev(KeyCode::Char('N'), mods(false, false, true)));
    assert_eq!(c, Chord { code: KeyCode::Char('n'), ctrl: false, shift: true, alt: true });
    assert!(matches!(kb.resolve(ev(KeyCode::Char('N'), mods(false, false, true)), Focus::Sidebar), Some(Action::NewFolder)));
}
