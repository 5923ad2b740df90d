use crossterm::event::KeyCode as C;
use crossterm::event::KeyModifiers as M;
use workflow::keymap::{format_action, format_key, Action, KeyCode, KeyEvent, KeyModifiers, Keymap};

/// The library's form of a terminal key press.
fn key(e: crossterm::event::KeyEvent) -> KeyEvent {
    let code = match e.code {
        C::Backspace => KeyCode::Backspace,
        C::Enter => KeyCode::Enter,
        C::Left => KeyCode::Left,
        C::Right => KeyCode::Right,
        C::Up => KeyCode::Up,
        C::Down => KeyCode::Down,
        C::Home => KeyCode::Home,
        C::End => KeyCode::End,
        C::Tab => KeyCode::Tab,
        C::Esc => KeyCode::Esc,
        C::F(n) => KeyCode::F(n),
        C::Char(c) => KeyCode::Char(c),
        _ => KeyCode::Null,
    };
    KeyEvent::new(code, KeyModifiers::from_bits(e.modifiers.bits()))
}

fn ev(code: crossterm::event::KeyCode, m: crossterm::event::KeyModifiers) -> KeyEvent {
    key(crossterm::event::KeyEvent::new(code, m))
}


#[test]
fn test_default_quit() {
    let km = Keymap::default();
    assert_eq!(km.resolve(ev(C::Char('c'), M::CONTROL)), Action::Quit);
}

#[test]
fn test_default_arrow_keys() {
    let km = Keymap::default();
    assert_eq!(km.resolve(ev(C::Up, M::NONE)), Action::MoveUp);
    assert_eq!(km.resolve(ev(C::Down, M::NONE)), Action::MoveDown);
}

#[test]
fn test_default_enter_sends() {
    let km = Keymap::default();
    assert_eq!(km.resolve(ev(C::Enter, M::NONE)), Action::SendMessage);
}

#[test]
fn test_default_esc_cancels() {
    let km = Keymap::default();
    assert_eq!(km.resolve(ev(C::Esc, M::NONE)), Action::Cancel);
}

#[test]
fn test_unbound_key_returns_none() {
    let km = Keymap::default();
    assert_eq!(km.resolve(ev(C::Home, M::NONE)), Action::NoAction);
}

#[test]
fn test_char_input_fallback() {
    let km = Keymap::default();
    assert_eq!(km.resolve(ev(C::Char('a'), M::NONE)), Action::TypeChar('a'));
}

#[test]
fn test_shift_char_input() {
    let km = Keymap::default();
    assert_eq!(km.resolve(ev(C::Char('A'), M::SHIFT)), Action::TypeChar('A'));
}

#[test]
fn test_ctrl_c_does_not_fallback() {
    let km = Keymap::default();
    assert_eq!(km.resolve(ev(C::Char('c'), M::CONTROL)), Action::Quit);
    assert_eq!(km.resolve(ev(C::Char('c'), M::NONE)), Action::TypeChar('c'));
}

#[test]
fn test_format_ctrl_c() {
    assert_eq!(format_key(&ev(C::Char('c'), M::CONTROL)), "Ctrl+c");
}

#[test]
fn test_format_enter() {
    assert_eq!(format_key(&ev(C::Enter, M::NONE)), "Enter");
}

#[test]
fn test_format_esc() {
    assert_eq!(format_key(&ev(C::Esc, M::NONE)), "Esc");
}

#[test]
fn test_format_f1() {
    let result = format_key(&ev(C::F(1), M::NONE));
    assert!(result.contains("F"), "expected F key in format, got: {}", result);
}

#[test]
fn test_action_quit() {
    assert_eq!(format_action(&Action::Quit), "Quit the application");
}

#[test]
fn test_action_none() {
    assert_eq!(format_action(&Action::NoAction), "");
}

#[test]
fn test_bindings_count() {
    let km = Keymap::default();
    assert!(km.all_bindings().len() >= 10);
}

#[test]
fn test_custom_bind() {
    let mut km = Keymap::new();
    km.bind(ev(C::Char('q'), M::NONE), Action::Quit);
    assert_eq!(km.resolve(ev(C::Char('q'), M::NONE)), Action::Quit);
}

#[test]
fn format_key_debug_forms() {
    assert_eq!(format_key(&ev(C::F(12), M::NONE)), "F(12)");
    assert_eq!(format_key(&ev(C::Home, M::CONTROL | M::ALT)), "Ctrl+Alt+Home");
    assert_eq!(format_key(&ev(C::Char('X'), M::CONTROL | M::SHIFT)), "Ctrl+Shift+x");
    assert_eq!(format_key(&KeyEvent::new(KeyCode::Media(workflow::keymap::MediaKeyCode::Play), KeyModifiers::from_bits(0))), "Media(Play)");
}

#[test]
fn first_binding_wins() {
    let mut km = Keymap::new();
    km.bind(ev(C::Enter, M::NONE), Action::SendMessage);
    km.bind(ev(C::Enter, M::NONE), Action::Confirm);
    assert_eq!(km.resolve(ev(C::Enter, M::NONE)), Action::SendMessage);
    assert_eq!(km.resolve(ev(C::Char('z'), M::ALT)), Action::NoAction);
}
