use coder::keybindings::Keybindings;
use coder::keymap::{altgr_char, resolve, utf8_encode, Action, Motion};
use coder::keys::{KeyCode, KeyEvent, KeyModifiers};
use coder::panel::Focus;

fn mods(ctrl: bool, shift: bool, alt: bool) -> KeyModifiers {
    KeyModifiers { shift, control: ctrl, alt }
}

#[test]
fn altgr_symbols_are_text_but_ctrl_alt_letters_are_not() {
    let ca = mods(true, false, true);
    assert_eq!(altgr_char(&KeyEvent::new(KeyCode::Char('@'), ca)), Some('@'));
    assert_eq!(altgr_char(&KeyEvent::new(KeyCode::Char('€'), ca)), Some('€'));
    assert_eq!(altgr_char(&KeyEvent::new(KeyCode::Char('f'), ca)), None);
    assert_eq!(altgr_char(&KeyEvent::new(KeyCode::Char('@'), mods(true, false, false))), None);
}

#[test]
fn editor_typing_and_motion() {
    let kb = Keybindings::default();
    let r = resolve(&kb, KeyEvent::new(KeyCode::Char('x'), KeyModifiers::none()), Focus::Editor, false);
    assert!(matches!(r, Some(Action::Insert('x'))));
    let r = resolve(&kb, KeyEvent::new(KeyCode::Left, mods(true, true, false)), Focus::Editor, false);
    assert!(matches!(r, Some(Action::Move(Motion::WordLeft, true))));
    let r = resolve(&kb, KeyEvent::new(KeyCode::Char('z'), mods(false, false, true)), Focus::Editor, false);
    assert!(r.is_none(), "an unbound Alt+letter is dropped, not typed");
    let r = resolve(&kb, KeyEvent::new(KeyCode::Char('@'), mods(true, false, true)), Focus::Editor, false);
    assert!(matches!(r, Some(Action::Insert('@'))));
}

#[test]
fn terminal_keys_become_pty_bytes() {
    let kb = Keybindings::default();
    let bytes = |code: KeyCode, m: KeyModifiers| match resolve(&kb, KeyEvent::new(code, m), Focus::Terminal, false) {
        Some(Action::PtyInput(b)) => Some(b),
        _ => None,
    };
    assert_eq!(bytes(KeyCode::Char('a'), KeyModifiers::none()), Some(vec![b'a']));
    // Ctrl+C is the editor's copy, but in the terminal it is ETX.
    assert_eq!(bytes(KeyCode::Char('c'), mods(true, false, false)), Some(vec![3]));
    assert_eq!(bytes(KeyCode::Enter, KeyModifiers::none()), Some(vec![b'\r']));
    assert_eq!(bytes(KeyCode::Up, KeyModifiers::none()), Some(b"\x1b[A".to_vec()));
    assert_eq!(bytes(KeyCode::PageDown, KeyModifiers::none()), Some(b"\x1b[6~".to_vec()));
    assert_eq!(bytes(KeyCode::Char('é'), KeyModifiers::none()), Some("é".as_bytes().to_vec()));
    assert_eq!(bytes(KeyCode::Insert, KeyModifiers::none()), None);
}

#[test]
fn global_shortcuts_win_in_the_terminal() {
    let kb = Keybindings::default();
    let r = resolve(&kb, KeyEvent::new(KeyCode::Char('q'), mods(true, false, false)), Focus::Terminal, false);
    assert!(matches!(r, Some(Action::Quit)));
}

#[test]
fn utf8_encoding_matches_std() {
    for c in ['a', 'é', '€', '😀', '\u{7f}', '\u{800}', '\u{10ffff}'] {
        let mut buf = [0u8; 4];
        assert_eq!(utf8_encode(c), c.encode_utf8(&mut buf).as_bytes().to_vec());
    }
}

#[test]
fn sidebar_and_search_keys() {
    let kb = Keybindings::default();
    let r = resolve(&kb, KeyEvent::new(KeyCode::Char('f'), KeyModifiers::none()), Focus::Sidebar, false);
    assert!(matches!(r, Some(Action::NewFile)));
    let r = resolve(&kb, KeyEvent::new(KeyCode::BackTab, KeyModifiers::none()), Focus::SearchInput, false);
    // BackTab is bound to PrevTab globally, which wins.
    assert!(matches!(r, Some(Action::PrevTab)));
    let r = resolve(&kb, KeyEvent::new(KeyCode::Char('r'), mods(true, false, false)), Focus::SearchInput, false);
    assert!(matches!(r, Some(Action::SearchToggleRegex)));
    let r = resolve(&kb, KeyEvent::new(KeyCode::Enter, mods(false, true, false)), Focus::Find, false);
    assert!(matches!(r, Some(Action::FindPrev)));
}
