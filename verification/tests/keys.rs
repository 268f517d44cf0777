use embedded_video::keys::{crossterm_to_mpv_key, mpv_key, Held, KeyCode, KeyEvent, KeyModifiers};

fn name(code: KeyCode, modifiers: crossterm::event::KeyModifiers) -> Option<String> {
    let key = KeyEvent { code, modifiers: KeyModifiers { bits: modifiers.bits() } };
    crossterm_to_mpv_key(&key)
}

const NONE: crossterm::event::KeyModifiers = crossterm::event::KeyModifiers::NONE;
const SHIFT: crossterm::event::KeyModifiers = crossterm::event::KeyModifiers::SHIFT;
const CONTROL: crossterm::event::KeyModifiers = crossterm::event::KeyModifiers::CONTROL;
const ALT: crossterm::event::KeyModifiers = crossterm::event::KeyModifiers::ALT;
const SUPER: crossterm::event::KeyModifiers = crossterm::event::KeyModifiers::SUPER;

fn some(s: &str) -> Option<String> {
    Some(s.to_string())
}

#[test]
fn characters_name_themselves() {
    assert_eq!(name(KeyCode::Char('a'), NONE), some("a"));
    assert_eq!(name(KeyCode::Char('\u{e9}'), NONE), some("\u{e9}"));
    assert_eq!(name(KeyCode::Char(' '), NONE), some("SPACE"));
}

#[test]
fn keys_have_names() {
    let named = [
        (KeyCode::Left, "LEFT"),
        (KeyCode::Right, "RIGHT"),
        (KeyCode::Up, "UP"),
        (KeyCode::Down, "DOWN"),
        (KeyCode::Enter, "ENTER"),
        (KeyCode::Backspace, "BS"),
        (KeyCode::Tab, "TAB"),
        (KeyCode::Home, "HOME"),
        (KeyCode::End, "END"),
        (KeyCode::PageUp, "PGUP"),
        (KeyCode::PageDown, "PGDWN"),
        (KeyCode::Delete, "DEL"),
        (KeyCode::Insert, "INS"),
        (KeyCode::F(1), "F1"),
        (KeyCode::F(12), "F12"),
        (KeyCode::F(255), "F255"),
    ];
    for (code, text) in named {
        assert_eq!(name(code, NONE), some(text));
    }
}

#[test]
fn other_keys_are_not_passed_on() {
    for code in [KeyCode::Esc, KeyCode::BackTab, KeyCode::Null, KeyCode::Media, KeyCode::Menu] {
        assert_eq!(name(code, NONE), None);
        assert_eq!(name(code, SHIFT | ALT), None);
    }
}

#[test]
fn each_modifier_has_its_prefix() {
    assert_eq!(name(KeyCode::Left, SHIFT), some("shift+LEFT"));
    assert_eq!(name(KeyCode::Left, CONTROL), some("ctrl+LEFT"));
    assert_eq!(name(KeyCode::Left, ALT), some("alt+LEFT"));
    assert_eq!(name(KeyCode::Left, SHIFT | CONTROL | ALT), some("shift+ctrl+alt+LEFT"));
    assert_eq!(name(KeyCode::Char(' '), CONTROL), some("ctrl+SPACE"));
}

#[test]
fn other_modifiers_are_not_said() {
    assert_eq!(name(KeyCode::Left, SUPER), some("LEFT"));
    assert_eq!(name(KeyCode::Left, SUPER | ALT), some("alt+LEFT"));
    let key = KeyEvent { code: KeyCode::Up, modifiers: KeyModifiers { bits: 0xfa } };
    assert_eq!(crossterm_to_mpv_key(&key), some("ctrl+UP"));
}

#[test]
fn capitals_imply_shift() {
    assert_eq!(name(KeyCode::Char('F'), SHIFT), some("F"));
    assert_eq!(name(KeyCode::Char('F'), NONE), some("F"));
    assert_eq!(name(KeyCode::Char('F'), SHIFT | CONTROL), some("ctrl+F"));
    assert_eq!(name(KeyCode::Char('f'), SHIFT), some("shift+f"));
    assert_eq!(name(KeyCode::Char('\u{c9}'), SHIFT), some("shift+\u{c9}"));
}

#[test]
fn modifiers_are_told_apart() {
    let mut names = Vec::new();
    for bits in 0..8u8 {
        let h = Held { shift: bits & 1 > 0, control: bits & 2 > 0, alt: bits & 4 > 0 };
        let n = mpv_key(KeyCode::Enter, h);
        assert!(!names.contains(&n));
        names.push(n);
    }
}
