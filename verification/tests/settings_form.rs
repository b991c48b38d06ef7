use crossterm::event::{KeyCode, KeyEvent, KeyEventKind, KeyModifiers};
use xconsoler::keyspec::{Key, KeyPress};
use xconsoler::platform::Platform;
use xconsoler::settings_form::{
    handle_key, new_alias, new_edit_command, new_edit_shortcut, new_edit_trigger, new_shortcut,
    new_trigger, step_count, Form, FormOutcome, Purpose, Submission,
};
use xconsoler::storage::Store;

/// The library's view of a terminal key event.
fn press_of(e: KeyEvent) -> KeyPress {
    let code = match e.code {
        KeyCode::Char(c) => Key::Char(c),
        KeyCode::Esc => Key::Esc,
        KeyCode::Enter => Key::Enter,
        KeyCode::Tab => Key::Tab,
        KeyCode::Backspace => Key::Backspace,
        KeyCode::Delete => Key::Delete,
        KeyCode::Up => Key::Up,
        KeyCode::Down => Key::Down,
        KeyCode::Left => Key::Left,
        KeyCode::Right => Key::Right,
        KeyCode::Home => Key::Home,
        KeyCode::End => Key::End,
        _ => Key::Other,
    };
    let m = e.modifiers;
    KeyPress {
        code,
        alt: m.contains(KeyModifiers::ALT),
        ctrl: m.contains(KeyModifiers::CONTROL),
        shift: m.contains(KeyModifiers::SHIFT),
        extra: m.intersects(KeyModifiers::SUPER | KeyModifiers::HYPER | KeyModifiers::META),
        press: e.kind == KeyEventKind::Press,
    }
}

fn key(code: KeyCode) -> KeyPress {
    press_of(KeyEvent::new(code, KeyModifiers::NONE))
}

fn ctrl(c: char) -> KeyPress {
    press_of(KeyEvent::new(KeyCode::Char(c), KeyModifiers::CONTROL))
}

fn type_str(f: &Form, s: &str, store: &Store) -> Form {
    let mut f = f.clone();
    for c in s.chars() {
        let (nf, out) = handle_key(&f, store, key(KeyCode::Char(c)));
        assert_eq!(out, FormOutcome::Active);
        f = nf;
    }
    f
}

fn enter(f: &Form, store: &Store) -> (Form, FormOutcome) {
    handle_key(f, store, key(KeyCode::Enter))
}

fn empty_store() -> Store {
    Store::default()
}

#[test]
fn cancel_and_quit_leave_the_draft_behind() {
    let f = new_alias(Platform::Linux);
    let (_, out) = handle_key(&f, &empty_store(), key(KeyCode::Esc));
    assert_eq!(out, FormOutcome::Cancel);
    let (_, out) = handle_key(&f, &empty_store(), ctrl('c'));
    assert_eq!(out, FormOutcome::Quit);
}

#[test]
fn typing_edits_and_backspaces_the_input() {
    let store = empty_store();
    let f = type_str(&new_alias(Platform::Linux), "ab", &store);
    assert_eq!(
        (f.input.as_str(), f.caret),
        ("ab", 2),
        "typing moves the caret"
    );
    let (f, _) = handle_key(&f, &store, key(KeyCode::Backspace));
    assert_eq!((f.input.as_str(), f.caret), ("a", 1));
    let (f, _) = handle_key(&f, &store, ctrl('u'));
    assert_eq!((f.input.as_str(), f.caret), ("", 0));
}

#[test]
fn new_alias_walks_all_steps_and_submits_linux_only() {
    let store = empty_store();
    let f = type_str(&new_alias(Platform::Linux), " mytool ", &store);
    let (f, out) = enter(&f, &store);
    assert_eq!(out, FormOutcome::Active);
    assert_eq!(f.step, 1);
    assert_eq!(f.name, "mytool");

    let f = type_str(&f, "mt, my", &store);
    let (f, _) = enter(&f, &store);
    assert_eq!(f.step, 2);

    let f = type_str(&f, "printf %s {input}", &store);
    let (f, out) = enter(&f, &store);
    assert_eq!(f.step, 3, "the third Enter submits");

    match out {
        FormOutcome::Submit(Submission::Alias(def)) => {
            assert_eq!(def.name, "mytool");
            assert_eq!(def.triggers, vec!["mt".to_string(), "my".to_string()]);
            assert_eq!(def.linux.as_deref(), Some("printf %s {input}"));
            assert_eq!(def.macos, None, "only the wizard's platform is stored");
            assert!(def.shortcuts.is_empty());
        }
        other => panic!("expected Submit, got {other:?}"),
    }
    assert_eq!(step_count(&f), 3);
}

#[test]
fn new_alias_on_macos_stores_only_the_macos_command() {
    let store = empty_store();
    let f = type_str(&new_alias(Platform::Macos), "mytool", &store);
    let (f, _) = enter(&f, &store); // name
    let (f, _) = enter(&f, &store); // empty triggers
    let f = type_str(&f, "open {input}", &store);
    let (f, out) = enter(&f, &store);
    assert_eq!(f.error, None);
    match out {
        FormOutcome::Submit(Submission::Alias(def)) => {
            assert_eq!(def.name, "mytool");
            assert_eq!(def.macos.as_deref(), Some("open {input}"));
            assert_eq!(def.linux, None, "linux is not mirrored");
        }
        other => panic!("expected Submit, got {other:?}"),
    }
}

#[test]
fn validation_errors_stay_on_the_step() {
    let store = empty_store();
    // empty name
    let (f, out) = enter(&new_alias(Platform::Linux), &store);
    assert_eq!(out, FormOutcome::Active);
    assert_eq!(f.step, 0);
    assert_eq!(f.error.as_deref(), Some("name cannot be empty"));
    // invalid name chars
    let f = type_str(&new_alias(Platform::Linux), "bad!", &store);
    let (f, out) = enter(&f, &store);
    assert_eq!(out, FormOutcome::Active);
    assert!(f.error.unwrap().contains("invalid name"));
    // duplicate name (against the seeded aliases, case-insensitive)
    let f = type_str(&new_alias(Platform::Linux), "BR", &store);
    let (f, out) = enter(&f, &store);
    assert_eq!(out, FormOutcome::Active);
    assert!(f.error.unwrap().contains("already in use"));
    // empty command on the command step; the message names the platform
    let mut f = new_alias(Platform::Linux);
    f.step = 2;
    let (f, out) = enter(&f, &store);
    assert_eq!(out, FormOutcome::Active);
    assert_eq!(f.error.as_deref(), Some("linux command cannot be empty"));
    let mut f = new_alias(Platform::Macos);
    f.step = 2;
    let (f, out) = enter(&f, &store);
    assert_eq!(out, FormOutcome::Active);
    assert_eq!(f.error.as_deref(), Some("macos command cannot be empty"));
}

#[test]
fn new_shortcut_walks_key_then_value() {
    let mut store = empty_store();
    let mut def = xconsoler::alias::defaults().remove(0);
    def.name = "t".to_string();
    store.aliases.push(def);

    let f = new_shortcut("t");
    assert_eq!(step_count(&f), 2);
    let f = type_str(&f, "baidu", &store);
    let (f, out) = enter(&f, &store);
    assert_eq!(out, FormOutcome::Active);
    assert_eq!(f.step, 1);

    // multi-word keys are rejected inline
    let bad = type_str(&new_shortcut("t"), "two words", &store);
    let (bad, out) = enter(&bad, &store);
    assert_eq!(out, FormOutcome::Active);
    assert_eq!(bad.error.as_deref(), Some("shortcut key must be one word"));

    let f = type_str(&f, "https://www.baidu.com", &store);
    let (_, out) = enter(&f, &store);
    match out {
        FormOutcome::Submit(Submission::Shortcut { alias, key, value }) => {
            assert_eq!(
                (alias.as_str(), key.as_str(), value.as_str()),
                ("t", "baidu", "https://www.baidu.com")
            );
        }
        other => panic!("expected Submit, got {other:?}"),
    }
}

#[test]
fn trigger_wizard_is_one_step_and_validates() {
    let store = empty_store();
    let f = new_trigger("t");
    assert_eq!(step_count(&f), 1);
    assert_eq!(f.input, "");

    // empty and malformed answers stay on the (only) step
    let (f, out) = enter(&new_trigger("t"), &store);
    assert_eq!(out, FormOutcome::Active);
    assert_eq!(f.error.as_deref(), Some("trigger cannot be empty"));
    let bad = type_str(&new_trigger("t"), "bad!", &store);
    let (bad, out) = enter(&bad, &store);
    assert_eq!(out, FormOutcome::Active);
    assert!(bad.error.unwrap().contains("invalid trigger"));

    let f = type_str(&new_trigger("t"), "gc", &store);
    let (f, out) = enter(&f, &store);
    match out {
        FormOutcome::Submit(Submission::Trigger { alias, trigger }) => {
            assert_eq!((alias.as_str(), trigger.as_str()), ("t", "gc"));
        }
        other => panic!("expected Submit, got {other:?}"),
    }
    assert_eq!(f.error, None);
}

#[test]
fn edit_command_wizard_is_one_prefilled_step() {
    let store = empty_store();
    let f = new_edit_command("br", Platform::Linux, Some("xdg-open {input}"));
    assert_eq!(step_count(&f), 1);
    assert_eq!(f.input, "xdg-open {input}", "the step starts prefilled");
    assert_eq!(f.command, "xdg-open {input}");
    assert_eq!(f.caret, "xdg-open {input}".chars().count());
    assert_eq!(
        f.purpose,
        Purpose::EditCommand {
            alias: "br".to_string(),
            platform: Platform::Linux,
        }
    );

    // Enter accepts the prefilled command as-is and submits immediately.
    let (f, out) = enter(&f, &store);
    match out {
        FormOutcome::Submit(Submission::Command {
            alias,
            platform,
            command,
        }) => {
            assert_eq!(alias, "br");
            assert_eq!(platform, Platform::Linux);
            assert_eq!(command, "xdg-open {input}");
        }
        other => panic!("expected Submit, got {other:?}"),
    }
    assert_eq!(f.error, None);
}

#[test]
fn edit_command_no_stored_command_prefills_empty() {
    let store = empty_store();
    let f = new_edit_command("t", Platform::Macos, None);
    assert_eq!(f.input, "", "no macos command to prefill");
    assert_eq!(f.command, "");

    // Enter on the empty prefilled line refuses and names the platform.
    let (f, out) = enter(&f, &store);
    assert_eq!(out, FormOutcome::Active);
    assert_eq!(f.error.as_deref(), Some("macos command cannot be empty"));

    let f = type_str(&f, "open -a Safari {input}", &store);
    let (_, out) = enter(&f, &store);
    match out {
        FormOutcome::Submit(Submission::Command {
            platform, command, ..
        }) => {
            assert_eq!(platform, Platform::Macos);
            assert_eq!(command, "open -a Safari {input}");
        }
        other => panic!("expected Submit, got {other:?}"),
    }
}

#[test]
fn edit_command_ctrl_u_clears_and_blank_is_refused() {
    let store = empty_store();
    let f = new_edit_command("t", Platform::Linux, Some("printf %s {input}"));

    // Ctrl+U clears the prefilled text; Enter on the empty field refuses
    let (f, _) = handle_key(&f, &store, ctrl('u'));
    assert_eq!(f.input, "");
    let (f, out) = enter(&f, &store);
    assert_eq!(out, FormOutcome::Active);
    assert_eq!(f.error.as_deref(), Some("linux command cannot be empty"));

    let f = type_str(&f, "echo {input}", &store);
    let (_, out) = enter(&f, &store);
    match out {
        FormOutcome::Submit(Submission::Command { command, .. }) => {
            assert_eq!(command, "echo {input}");
        }
        other => panic!("expected Submit, got {other:?}"),
    }
}

fn alt(c: char) -> KeyPress {
    press_of(KeyEvent::new(KeyCode::Char(c), KeyModifiers::ALT))
}

#[test]
fn insert_and_delete_work_around_a_middle_caret() {
    let store = empty_store();
    let f = type_str(&new_alias(Platform::Linux), "ac", &store);
    let (f, _) = handle_key(&f, &store, key(KeyCode::Left));
    assert_eq!((f.input.as_str(), f.caret), ("ac", 1));
    let f = type_str(&f, "b", &store);
    assert_eq!((f.input.as_str(), f.caret), ("abc", 2), "inserted mid-line");

    let (f, _) = handle_key(&f, &store, key(KeyCode::Left));
    let (f, _) = handle_key(&f, &store, key(KeyCode::Delete));
    assert_eq!(
        (f.input.as_str(), f.caret),
        ("ac", 1),
        "Delete eats the char under the caret"
    );
    let (f, _) = handle_key(&f, &store, key(KeyCode::Backspace));
    assert_eq!((f.input.as_str(), f.caret), ("c", 0));

    // no-ops at the edges
    let (f, _) = handle_key(&f, &store, key(KeyCode::Delete));
    assert_eq!((f.input.as_str(), f.caret), ("", 0));
    let (f, _) = handle_key(&f, &store, key(KeyCode::Backspace));
    assert_eq!((f.input.as_str(), f.caret), ("", 0));
}

#[test]
fn caret_motions_move_without_changing_the_text() {
    let store = empty_store();
    let f = type_str(&new_alias(Platform::Linux), "git commit", &store);
    assert_eq!(f.caret, 10, "typing leaves the caret at the end");

    let (f, _) = handle_key(&f, &store, ctrl('a'));
    assert_eq!((f.input.as_str(), f.caret), ("git commit", 0));
    let (f, _) = handle_key(&f, &store, ctrl('e'));
    assert_eq!(f.caret, 10);
    let (f, _) = handle_key(&f, &store, key(KeyCode::Left));
    assert_eq!(f.caret, 9);
    let (f, _) = handle_key(&f, &store, key(KeyCode::Home));
    assert_eq!(f.caret, 0);
    let (f, _) = handle_key(&f, &store, key(KeyCode::End));
    assert_eq!(f.caret, 10);
    let (f, _) = handle_key(&f, &store, key(KeyCode::Right));
    assert_eq!(f.caret, 10, "Right is clamped at the end");
    let (f, _) = handle_key(&f, &store, ctrl('b'));
    assert_eq!(f.caret, 9);
    let (f, _) = handle_key(&f, &store, ctrl('f'));
    assert_eq!(f.caret, 10);
    assert_eq!(f.input, "git commit", "motions never change the text");

    let (f, _) = handle_key(&f, &store, ctrl('h'));
    assert_eq!(
        (f.input.as_str(), f.caret),
        ("git commi", 9),
        "Ctrl+H is Backspace"
    );
}

#[test]
fn word_motions_use_ctrl_arrows_and_alt_b_f() {
    let store = empty_store();
    let f = type_str(&new_alias(Platform::Linux), "git commit -m", &store);
    let (f, _) = handle_key(&f, &store, ctrl('a'));

    let (f, _) = handle_key(&f, &store, alt('f'));
    assert_eq!(f.caret, 3, "Alt+F lands after 'git'");
    let (f, _) = handle_key(&f, &store, alt('f'));
    assert_eq!(f.caret, 10, "Alt+F lands after 'commit'");
    let (f, _) = handle_key(&f, &store, alt('b'));
    assert_eq!(f.caret, 4, "Alt+B lands at the start of 'commit'");
    let (f, _) = handle_key(&f, &store, alt('a'));
    assert_eq!(f.caret, 4, "unmapped Alt keys stay no-ops");

    let ctrl_right = KeyEvent::new(KeyCode::Right, KeyModifiers::CONTROL);
    let ctrl_left = KeyEvent::new(KeyCode::Left, KeyModifiers::CONTROL);
    let alt_right = KeyEvent::new(KeyCode::Right, KeyModifiers::ALT);
    let alt_left = KeyEvent::new(KeyCode::Left, KeyModifiers::ALT);
    let (f, _) = handle_key(&f, &store, press_of(ctrl_right));
    assert_eq!(f.caret, 10, "Ctrl+Right = word right");
    let (f, _) = handle_key(&f, &store, press_of(ctrl_left));
    assert_eq!(f.caret, 4, "Ctrl+Left = word left");
    let (f, _) = handle_key(&f, &store, press_of(alt_right));
    assert_eq!(f.caret, 10, "Alt+Right = word right");
    let (f, _) = handle_key(&f, &store, press_of(alt_left));
    assert_eq!(f.caret, 4, "Alt+Left = word left");
    assert_eq!(f.input, "git commit -m");
}

#[test]
fn kill_keys_cut_around_the_caret() {
    let store = empty_store();
    let f = type_str(&new_alias(Platform::Linux), "git commit foo", &store);
    let (f, _) = handle_key(&f, &store, alt('b'));
    assert_eq!((f.input.as_str(), f.caret), ("git commit foo", 11));

    let (f, _) = handle_key(&f, &store, ctrl('u'));
    assert_eq!(
        (f.input.as_str(), f.caret),
        ("foo", 0),
        "Ctrl+U kills to the start"
    );
    let (f, _) = handle_key(&f, &store, ctrl('e'));
    let (f, _) = handle_key(&f, &store, ctrl('k'));
    assert_eq!(
        (f.input.as_str(), f.caret),
        ("foo", 3),
        "Ctrl+K at the end is a no-op"
    );

    let (f, _) = handle_key(&f, &store, key(KeyCode::Home));
    let (f, _) = handle_key(&f, &store, key(KeyCode::Right));
    let (f, _) = handle_key(&f, &store, ctrl('k'));
    assert_eq!(
        (f.input.as_str(), f.caret),
        ("f", 1),
        "Ctrl+K kills to the end"
    );

    let f = type_str(&f, "oo bar", &store);
    let (f, _) = handle_key(&f, &store, ctrl('w'));
    assert_eq!(
        (f.input.as_str(), f.caret),
        ("foo ", 4),
        "Ctrl+W kills the whitespace-delimited word before the caret"
    );
}

#[test]
fn ctrl_t_transposes_around_the_caret() {
    let store = empty_store();
    let f = type_str(&new_alias(Platform::Linux), "ab", &store);
    let (f, _) = handle_key(&f, &store, ctrl('t'));
    assert_eq!(
        (f.input.as_str(), f.caret),
        ("ba", 2),
        "swaps the last two at the end"
    );

    let (f, _) = handle_key(&f, &store, ctrl('a'));
    let (f, _) = handle_key(&f, &store, ctrl('t'));
    assert_eq!(
        (f.input.as_str(), f.caret),
        ("ba", 0),
        "caret at the start is a no-op"
    );

    let (f, _) = handle_key(&f, &store, key(KeyCode::Right));
    let (f, _) = handle_key(&f, &store, ctrl('t'));
    assert_eq!(
        (f.input.as_str(), f.caret),
        ("ab", 2),
        "swaps then steps over the pair"
    );
}

#[test]
fn ctrl_d_quits_and_delete_deletes_forward() {
    let store = empty_store();
    // Ctrl+D quits with or without text; it never edits.
    let (_, out) = handle_key(&new_alias(Platform::Linux), &store, ctrl('d'));
    assert_eq!(out, FormOutcome::Quit, "Ctrl+D quits on an empty line");
    let f = type_str(&new_alias(Platform::Linux), "ab", &store);
    let (f, out) = handle_key(&f, &store, ctrl('d'));
    assert_eq!(out, FormOutcome::Quit, "Ctrl+D quits with text too");
    assert_eq!(
        (f.input.as_str(), f.caret),
        ("ab", 2),
        "Ctrl+D leaves the text alone"
    );

    // Delete still eats the char under the caret.
    let f = type_str(&new_alias(Platform::Linux), "ab", &store);
    let (f, _) = handle_key(&f, &store, key(KeyCode::Home));
    let (f, out) = handle_key(&f, &store, key(KeyCode::Delete));
    assert_eq!(out, FormOutcome::Active);
    assert_eq!((f.input.as_str(), f.caret), ("b", 0));
    let (f, out) = handle_key(&f, &store, key(KeyCode::Delete));
    assert_eq!(out, FormOutcome::Active);
    assert_eq!((f.input.as_str(), f.caret), ("", 0));
}
