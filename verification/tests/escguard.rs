use crossterm::event::{KeyCode, KeyEvent, KeyEventKind, KeyModifiers};
use xconsoler::escguard::EscGuard;
use xconsoler::keyspec::{Key, KeyPress};

/// The library's view of a terminal key event.
fn press_of(e: KeyEvent) -> KeyPress {
    let code = match e.code {
        KeyCode::Char(c) => Key::Char(c),
        KeyCode::Esc => Key::Esc,
        KeyCode::Enter => Key::Enter,
        KeyCode::Tab => Key::Tab,
        KeyCode::Backspace => Key::Backspace,
        KeyCode::Delete => Key::Delete,
        KeyCode::Up => Key::Up,
        KeyCode::Down => Key::Down,
        KeyCode::Left => Key::Left,
        KeyCode::Right => Key::Right,
        KeyCode::Home => Key::Home,
        KeyCode::End => Key::End,
        _ => Key::Other,
    };
    let m = e.modifiers;
    KeyPress {
        code,
        alt: m.contains(KeyModifiers::ALT),
        ctrl: m.contains(KeyModifiers::CONTROL),
        shift: m.contains(KeyModifiers::SHIFT),
        extra: m.intersects(KeyModifiers::SUPER | KeyModifiers::HYPER | KeyModifiers::META),
        press: e.kind == KeyEventKind::Press,
    }
}

fn key(code: KeyCode, modifiers: KeyModifiers) -> KeyPress {
    press_of(KeyEvent::new(code, modifiers))
}

fn esc() -> KeyPress {
    key(KeyCode::Esc, KeyModifiers::NONE)
}

#[test]
fn esc_then_plain_char_synthesizes_alt_char() {
    let mut g = EscGuard::new();
    assert!(g.feed(esc()).is_empty());
    assert!(g.is_holding());
    let out = g.feed(key(KeyCode::Char('d'), KeyModifiers::NONE));
    assert_eq!(out, vec![key(KeyCode::Char('d'), KeyModifiers::ALT)]);
    assert!(!g.is_holding());
    // state cleared: a later char passes through untouched
    assert_eq!(
        g.feed(key(KeyCode::Char('d'), KeyModifiers::NONE)),
        vec![key(KeyCode::Char('d'), KeyModifiers::NONE)]
    );
}

#[test]
fn esc_then_enter_does_not_synthesize() {
    let mut g = EscGuard::new();
    g.feed(esc());
    let out = g.feed(key(KeyCode::Enter, KeyModifiers::NONE));
    assert_eq!(out, vec![esc(), key(KeyCode::Enter, KeyModifiers::NONE)]);
    assert!(!g.is_holding());
}

#[test]
fn esc_then_modified_char_does_not_synthesize() {
    let mut g = EscGuard::new();
    g.feed(esc());
    let ctrl_d = key(KeyCode::Char('d'), KeyModifiers::CONTROL);
    assert_eq!(g.feed(ctrl_d), vec![esc(), ctrl_d]);
}

#[test]
fn held_esc_is_released_by_flush_on_timeout() {
    let mut g = EscGuard::new();
    assert!(g.feed(esc()).is_empty());
    assert_eq!(g.flush(), Some(esc()));
    assert_eq!(g.flush(), None, "flush is idempotent");
}

#[test]
fn consecutive_plain_keys_are_not_merged() {
    let mut g = EscGuard::new();
    assert_eq!(
        g.feed(key(KeyCode::Char('a'), KeyModifiers::NONE)),
        vec![key(KeyCode::Char('a'), KeyModifiers::NONE)]
    );
    assert_eq!(
        g.feed(key(KeyCode::Char('b'), KeyModifiers::NONE)),
        vec![key(KeyCode::Char('b'), KeyModifiers::NONE)]
    );
    assert!(!g.is_holding());
}

#[test]
fn double_esc_releases_first_and_holds_second() {
    let mut g = EscGuard::new();
    assert!(g.feed(esc()).is_empty());
    assert_eq!(g.feed(esc()), vec![esc()]);
    assert!(g.is_holding(), "second Esc is held like any bare Esc");
    assert_eq!(g.flush(), Some(esc()));
}

#[test]
fn non_bare_esc_is_never_held() {
    let mut g = EscGuard::new();
    let esc_shift = key(KeyCode::Esc, KeyModifiers::SHIFT);
    assert_eq!(g.feed(esc_shift), vec![esc_shift]);
    assert!(!g.is_holding());
    let esc_release = press_of(KeyEvent::new_with_kind(
        KeyCode::Esc,
        KeyModifiers::NONE,
        KeyEventKind::Release,
    ));
    assert_eq!(g.feed(esc_release), vec![esc_release]);
    assert!(!g.is_holding());
}

#[test]
fn uppercase_tail_keeps_its_case() {
    let mut g = EscGuard::new();
    g.feed(esc());
    assert_eq!(
        g.feed(key(KeyCode::Char('D'), KeyModifiers::NONE)),
        vec![key(KeyCode::Char('D'), KeyModifiers::ALT)]
    );
}

#[test]
fn a_held_esc_before_a_release_is_emitted_first() {
    let mut g = EscGuard::new();
    g.feed(esc());
    let release = press_of(KeyEvent::new_with_kind(
        KeyCode::Char('d'),
        KeyModifiers::NONE,
        KeyEventKind::Release,
    ));
    assert_eq!(g.feed(release), vec![esc(), release]);
    assert!(!g.is_holding());
}
