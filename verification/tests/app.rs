use std::cell::RefCell;

use crossterm::event::{KeyCode, KeyEvent, KeyEventKind, KeyModifiers};
use xconsoler::action::{on_key, Action};
use xconsoler::alias;
use xconsoler::app::{self, Followup};
use xconsoler::colon::{self, AliasOp};
use xconsoler::commands;
use xconsoler::textedit::Motion;
use xconsoler::exec::{self, ExecOutcome, Plan};
use xconsoler::history;
use xconsoler::keyspec::{Key, KeyPress};
use xconsoler::matcher::Candidate;
use xconsoler::platform::Platform;
use xconsoler::run::{self, clipboard_payload, shortcut_override};
use xconsoler::settings::Effect;
use xconsoler::settings_apply;
use xconsoler::state::{self, App, Mode, Visibility};
use xconsoler::storage::{self, Store};

/// Stands in for the store file: what the last save wrote.
struct Disk(RefCell<Option<Store>>);

impl Disk {
    fn new() -> Disk {
        Disk(RefCell::new(None))
    }

    fn save(&self, store: &Store) {
        *self.0.borrow_mut() = Some(store.duplicate());
    }

    fn load(&self) -> Store {
        match &*self.0.borrow() {
            Some(s) => storage::accept(s.duplicate()),
            None => storage::accept(Store::default()),
        }
    }
}

/// The library's view of a terminal key event.
fn press_of(e: KeyEvent) -> KeyPress {
    let code = match e.code {
        KeyCode::Char(c) => Key::Char(c),
        KeyCode::Esc => Key::Esc,
        KeyCode::Enter => Key::Enter,
        KeyCode::Tab => Key::Tab,
        KeyCode::Backspace => Key::Backspace,
        KeyCode::Delete => Key::Delete,
        KeyCode::Up => Key::Up,
        KeyCode::Down => Key::Down,
        KeyCode::Left => Key::Left,
        KeyCode::Right => Key::Right,
        KeyCode::Home => Key::Home,
        KeyCode::End => Key::End,
        _ => Key::Other,
    };
    let m = e.modifiers;
    KeyPress {
        code,
        alt: m.contains(KeyModifiers::ALT),
        ctrl: m.contains(KeyModifiers::CONTROL),
        shift: m.contains(KeyModifiers::SHIFT),
        extra: m.intersects(KeyModifiers::SUPER | KeyModifiers::HYPER | KeyModifiers::META),
        press: e.kind == KeyEventKind::Press,
    }
}

/// The outcome of a prepared alias. No shell is spawned here: a shell
/// plan is taken to have exited zero, so these tests exercise what the
/// library decides around the run.
fn run_plan(p: &run::Prepared, platform: Platform) -> ExecOutcome {
    match exec::plan(&p.def, &p.payload, platform) {
        Plan::Done(o) => o,
        Plan::Clipboard => ExecOutcome::Failure("no clipboard in tests".to_string()),
        Plan::Shell { background, .. } => exec::outcome(&p.def.name, true, background, Some(0), ""),
    }
}

/// Enter on the line: resolve, run, record, save.
fn execute(app: &mut App, platform: Platform, disk: &Disk) {
    let Some(p) = run::prepare(app, platform) else {
        return;
    };
    let out = run_plan(&p, platform);
    if let Some(shown) = run::conclude(app, &p.def.name, &p.input, out, 1) {
        disk.save(&app.store);
        run::finish(app, &p.def.name, &shown, Ok(()));
    }
}

/// Apply an action and carry out what it hands back.
fn apply(app: &mut App, action: Action, platform: Platform, disk: &Disk) {
    match app::apply(app, action, platform) {
        Followup::Done => {}
        Followup::Execute => execute(app, platform, disk),
        Followup::Save(msg) => {
            disk.save(&app.store);
            app::saved(app, &msg, Ok(()));
        }
        Followup::ImportChrome(_) => {}
    }
}

/// A key on the settings page; a changed store is saved.
fn apply_settings(app: &mut App, key: KeyEvent, disk: &Disk) {
    if let Effect::Save = settings_apply::apply(app, press_of(key)) {
        disk.save(&app.store);
    }
}

fn setup() -> (App, (), Disk) {
    (state::new(Store::default(), false), (), Disk::new())
}

/// Force the shown state directly.
fn shown(app: &mut App) {
    app.visibility = Visibility::Shown;
}

fn type_str(app: &mut App, s: &str, path: &Disk) {
    for c in s.chars() {
        apply(app, Action::InsertChar(c), Platform::Linux, path);
    }
}


#[test]
fn colon_add_with_separator_keeps_both_commands() {
    let (mut app, _dir, path) = setup();
    shown(&mut app);
    type_str(&mut app, ":add t printf %s {input} // echo {input}", &path);
    apply(&mut app, Action::SubmitColon, Platform::Linux, &path);

    let def = app.aliases.iter().find(|d| d.name == "t").unwrap();
    assert_eq!(def.linux.as_deref(), Some("printf %s {input}"));
    assert_eq!(def.macos.as_deref(), Some("echo {input}"));

    // One-sided aliases still run through the other platform's command.
    type_str(&mut app, ":add m - // printf %s {input}", &path);
    apply(&mut app, Action::SubmitColon, Platform::Linux, &path);
    let def = app.aliases.iter().find(|d| d.name == "m").unwrap();
    assert_eq!(def.linux, None);
    assert_eq!(def.macos.as_deref(), Some("printf %s {input}"));
    app.input = "m hi".to_string();
    apply(&mut app, Action::Execute, Platform::Linux, &path);
    assert_eq!(app.status, Some((true, "m ok: hi".to_string())));
}

#[test]
fn repeat_execution_dedupes_history() {
    let (mut app, _dir, path) = setup();
    shown(&mut app);
    type_str(&mut app, ":add t printf %s {input}", &path);
    apply(&mut app, Action::SubmitColon, Platform::Linux, &path);

    for _ in 0..2 {
        app.input = "t hello".to_string();
        apply(&mut app, Action::Execute, Platform::Linux, &path);
    }
    assert!(app.status.as_ref().unwrap().0);
    assert_eq!(app.store.history.len(), 1);
}

#[test]
fn selected_history_candidate_reuses_recorded_pair() {
    let (mut app, _dir, path) = setup();
    shown(&mut app);
    type_str(&mut app, ":add t printf %s {input}", &path);
    apply(&mut app, Action::SubmitColon, Platform::Linux, &path);

    app.input = "t a".to_string();
    apply(&mut app, Action::Execute, Platform::Linux, &path);
    app.input = "t b".to_string();
    apply(&mut app, Action::Execute, Platform::Linux, &path);
    assert_eq!(app.store.history.len(), 2);

    // Empty input => history-first list; cursor 1 is the older "a".
    app.input = String::new();
    app.cursor = 1;
    apply(&mut app, Action::Execute, Platform::Linux, &path);
    assert_eq!(app.store.history.len(), 2);
    assert_eq!(app.store.history[0].alias, "t");
    assert_eq!(app.store.history[0].input(), "a"); // moved to head
}


#[test]
fn move_sel_clamps_to_candidate_list() {
    let (mut app, _dir, path) = setup();
    shown(&mut app);
    // empty input lists recent history only: seed two rows to move over
    history::record(&mut app.store, "br", "baidu", 1);
    history::record(&mut app.store, "br", "gm", 2);
    apply(&mut app, Action::MoveDown, Platform::Linux, &path);
    assert_eq!(app.cursor, 1);
    apply(&mut app, Action::MoveDown, Platform::Linux, &path);
    apply(&mut app, Action::MoveDown, Platform::Linux, &path);
    assert_eq!(app.cursor, 1); // clamped at bottom
    apply(&mut app, Action::MoveUp, Platform::Linux, &path);
    assert_eq!(app.cursor, 0);
    apply(&mut app, Action::MoveUp, Platform::Linux, &path);
    assert_eq!(app.cursor, 0); // clamped at top

    app.aliases.clear();
    app.store.history.clear();
    apply(&mut app, Action::MoveDown, Platform::Linux, &path);
    assert_eq!(app.cursor, 0); // empty list -> 0
}

#[test]
fn palette_accept_prefills_arg_taking_commands() {
    let (mut app, _dir, path) = setup();
    shown(&mut app);
    apply(&mut app, Action::OpenPalette, Platform::Linux, &path);
    assert_eq!(app.palette, Some(0));
    apply(&mut app, Action::PaletteAccept, Platform::Linux, &path);
    assert_eq!(app.palette, None, "accepting closes the palette");
    assert_eq!(app.input, ":add ");
}

#[test]
fn palette_accept_runs_complete_commands() {
    let (mut app, _dir, path) = setup();
    shown(&mut app);

    app.palette = Some(4); // :help
    apply(&mut app, Action::PaletteAccept, Platform::Linux, &path);
    assert_eq!(app.palette, None);
    let (ok, msg) = app.status.clone().expect(":help sets the usage status");
    assert!(ok && msg.contains(":add"));

    app.palette = Some(5); // /settings
    apply(&mut app, Action::PaletteAccept, Platform::Linux, &path);
    assert_eq!(app.palette, None);
    assert!(matches!(app.mode, Mode::Settings(_)));
}

#[test]
fn palette_arrows_move_and_clamp() {
    let (mut app, _dir, path) = setup();
    shown(&mut app);
    // Closed palette: the candidate cursor moves as before.
    apply(&mut app, Action::MoveDown, Platform::Linux, &path);
    assert_eq!(app.palette, None);

    apply(&mut app, Action::OpenPalette, Platform::Linux, &path);
    apply(&mut app, Action::MoveDown, Platform::Linux, &path);
    assert_eq!(app.palette, Some(1));
    apply(&mut app, Action::MoveUp, Platform::Linux, &path);
    apply(&mut app, Action::MoveUp, Platform::Linux, &path);
    assert_eq!(app.palette, Some(0), "clamped at the top");
    for _ in 0..commands::len() + 3 {
        apply(&mut app, Action::MoveDown, Platform::Linux, &path);
    }
    assert_eq!(
        app.palette,
        Some(commands::len() - 1),
        "clamped at the bottom"
    );
}

#[test]
fn typing_closes_the_palette_and_inserts() {
    let (mut app, _dir, path) = setup();
    shown(&mut app);
    apply(&mut app, Action::OpenPalette, Platform::Linux, &path);
    apply(&mut app, Action::InsertChar('b'), Platform::Linux, &path);
    assert_eq!(app.palette, None);
    assert_eq!(app.input, "b");
}

#[test]
fn toggle_resets_status() {
    let (mut app, _dir, path) = setup();
    shown(&mut app);
    app.status = Some((true, "hi".to_string()));
    apply(&mut app, Action::ToggleBar, Platform::Linux, &path);
    assert_eq!(app.visibility, Visibility::Hidden);
    assert_eq!(app.status, None);
    apply(&mut app, Action::Quit, Platform::Linux, &path);
    assert!(app.quit);
}



#[test]
fn slash_settings_opens_the_page_and_esc_returns() {
    let (mut app, _dir, path) = setup();
    shown(&mut app);
    app.input = "/settings".to_string();
    apply(&mut app, Action::Execute, Platform::Linux, &path);
    assert!(matches!(&app.mode, Mode::Settings(_)));
    assert!(app.input.is_empty(), "command line cleared on entry");

    let esc = KeyEvent::new(KeyCode::Esc, KeyModifiers::NONE);
    apply_settings(&mut app, esc, &path);
    assert!(matches!(app.mode, Mode::Normal));
}

#[test]
fn unknown_slash_command_keeps_input_and_points_at_settings() {
    let (mut app, _dir, path) = setup();
    shown(&mut app);
    app.input = "/nope".to_string();
    apply(&mut app, Action::Execute, Platform::Linux, &path);
    assert!(matches!(app.mode, Mode::Normal));
    assert_eq!(app.input, "/nope");
    assert!(app
        .status
        .as_ref()
        .is_some_and(|(ok, m)| !ok && m.contains("/settings")));
}


#[test]
fn parse_still_recognizes_ops() {
    // guard: domain API used by submit_colon behaves as expected
    assert!(matches!(
        colon::parse("del x").unwrap().unwrap(),
        AliasOp::Remove(_)
    ));
}



#[test]
fn selected_shortcut_row_records_the_key_not_the_value() {
    let (mut app, _dir, path) = setup();
    shown(&mut app);
    type_str(&mut app, ":add t,tt printf %s {input}", &path);
    apply(&mut app, Action::SubmitColon, Platform::Linux, &path);
    type_str(&mut app, ":arg t baidu https://example.com/b", &path);
    apply(&mut app, Action::SubmitColon, Platform::Linux, &path);

    // "baidu" does not resolve as a head (it is a shortcut key, not a
    // trigger): the highlighted row decides and runs the mapped value...
    app.input = "baidu".to_string();
    app.cursor = 0;
    apply(&mut app, Action::Execute, Platform::Linux, &path);
    assert_eq!(app.status, Some((true, "t ok: baidu".to_string())));
    // ...while history keeps the shorthand, exactly like the
    // resolving-head picker path.
    assert_eq!(app.store.history[0].input(), "baidu");
}

#[test]
fn an_exactly_typed_shortcut_key_keeps_its_own_meaning() {
    let (mut app, _dir, path) = setup();
    shown(&mut app);
    type_str(&mut app, ":add t,tt printf %s {input}", &path);
    apply(&mut app, Action::SubmitColon, Platform::Linux, &path);
    type_str(&mut app, ":arg t baidu https://example.com/b", &path);
    apply(&mut app, Action::SubmitColon, Platform::Linux, &path);
    type_str(&mut app, ":arg t bing https://example.com/i", &path);
    apply(&mut app, Action::SubmitColon, Platform::Linux, &path);

    app.input = "t baidu".to_string();
    let def = alias::resolve(&app.aliases, "t").expect("t resolves");
    // A cursor parked on another row must not change what `t baidu` does.
    app.cursor = 1;
    assert_eq!(shortcut_override(&app, def, "baidu"), None);
    apply(&mut app, Action::Execute, Platform::Linux, &path);
    assert_eq!(app.status, Some((true, "t ok: baidu".to_string())));
}

#[test]
fn execute_without_match_reports_error() {
    let (mut app, _dir, path) = setup();
    shown(&mut app);
    app.aliases.clear();
    apply(&mut app, Action::Execute, Platform::Linux, &path);
    assert_eq!(app.status, Some((false, "no match".to_string())));
}

#[test]
fn execute_failure_keeps_input() {
    let (mut app, _dir, path) = setup();
    shown(&mut app);
    type_str(&mut app, ":add t printf %s {input}", &path);
    apply(&mut app, Action::SubmitColon, Platform::Linux, &path);
    app.input = "t".to_string(); // head resolves, empty {input}
    apply(&mut app, Action::Execute, Platform::Linux, &path);
    assert_eq!(app.status, Some((false, "input required".to_string())));
    assert_eq!(app.input, "t");
    assert!(app.store.history.is_empty());
}




#[test]
fn clipboard_payload_decodes_native_input_once() {
    // A native clipboard alias carries base64: the clipboard gets the
    // decoded text...
    assert_eq!(clipboard_payload(true, "aGVsbG8="), "hello");
    // ...while invalid base64 (ordinary plain text) falls back to itself.
    assert_eq!(clipboard_payload(true, "hello world"), "hello world");
    // A replay re-decodes the recorded input, so any valid base64 decodes.
    assert_eq!(clipboard_payload(true, "TWFu"), "Man");
}

#[test]
fn clipboard_payload_leaves_other_aliases_untouched() {
    assert_eq!(
        clipboard_payload(false, "https://example.com"),
        "https://example.com"
    );
}

#[test]
fn app_input_is_never_base64_decoded() {
    // `app` uses the `@native app` backend, not the clipboard one, so even
    // an application name that happens to be valid base64 reaches the
    // launcher verbatim (the decode would silently rename the target).
    let def = xconsoler::launch::default_def();
    for platform in [Platform::Linux, Platform::Macos] {
        let native_clipboard = exec::uses_native_clipboard(&def, platform);
        assert!(!native_clipboard, "app is not the clipboard backend");
        assert_eq!(clipboard_payload(native_clipboard, "aGVsbG8="), "aGVsbG8=");
    }
}

#[test]
fn execute_via_add_records_history_and_saves_b64() {
    let (mut app, _dir, path) = setup();
    shown(&mut app);
    type_str(
        &mut app,
        ":add t,tt printf %s {input} // printf %s {input}",
        &path,
    );
    apply(&mut app, Action::SubmitColon, Platform::Linux, &path);
    assert_eq!(app.status, Some((true, "alias added: t (tt)".to_string())));
    assert!(app.input.is_empty());
    assert_eq!(app.aliases.iter().filter(|d| d.name == "t").count(), 1);

    app.input = "t hello".to_string();
    apply(&mut app, Action::Execute, Platform::Linux, &path);
    assert_eq!(app.status, Some((true, "t ok: hello".to_string())));
    assert_eq!(app.store.history.len(), 1);
    assert!(app.input.is_empty());
    assert_eq!(app.store.history[0].alias, "t");

    let reloaded = path.load();
    assert_eq!(reloaded.history.len(), 1);
    assert_eq!(reloaded.history[0].input(), "hello");
    assert_ne!(reloaded.history[0].input_b64, "hello"); // stored base64
    assert_eq!(reloaded.aliases.len(), 4, "br, cd, app and t round-trip");
    let t = reloaded.aliases.iter().find(|d| d.name == "t").unwrap();
    assert_eq!(t.triggers, vec!["tt".to_string()]);
}

#[test]
fn typing_lands_at_the_caret_not_the_end() {
    let (mut app, _dir, path) = setup();
    app.input = "ac".to_string();
    app.caret = 1;
    app.cursor = 2;
    app.status = Some((true, "stale".to_string()));
    apply(&mut app, Action::InsertChar('b'), Platform::Linux, &path);
    assert_eq!(app.input, "abc");
    assert_eq!(app.caret, 2);
    assert_eq!(app.cursor, 0, "candidate cursor reset by the edit");
    assert_eq!(app.status, None, "status reset by the edit");
}

#[test]
fn backspace_and_delete_move_the_caret_at_the_boundaries() {
    let (mut app, _dir, path) = setup();
    app.input = "abc".to_string();
    app.caret = 1;
    apply(&mut app, Action::Backspace, Platform::Linux, &path);
    assert_eq!((app.input.as_str(), app.caret), ("bc", 0));
    apply(&mut app, Action::Backspace, Platform::Linux, &path);
    assert_eq!((app.input.as_str(), app.caret), ("bc", 0), "no-op at start");

    app.input = "abc".to_string();
    app.caret = 2;
    apply(&mut app, Action::DeleteForward, Platform::Linux, &path);
    assert_eq!((app.input.as_str(), app.caret), ("ab", 2));
    apply(&mut app, Action::DeleteForward, Platform::Linux, &path);
    assert_eq!((app.input.as_str(), app.caret), ("ab", 2), "no-op at end");
}

#[test]
fn motions_leave_text_status_and_palette_alone() {
    let (mut app, _dir, path) = setup();
    app.input = "git commit -m foo".to_string();
    app.caret = 4;
    app.status = Some((true, "kept".to_string()));
    apply(
        &mut app,
        Action::Motion(Motion::End),
        Platform::Linux,
        &path,
    );
    assert_eq!(app.caret, 17);
    assert_eq!(app.input, "git commit -m foo");
    assert_eq!(app.status, Some((true, "kept".to_string())));

    apply(
        &mut app,
        Action::Motion(Motion::Home),
        Platform::Linux,
        &path,
    );
    assert_eq!(app.caret, 0);
    apply(
        &mut app,
        Action::Motion(Motion::WordRight),
        Platform::Linux,
        &path,
    );
    assert_eq!(app.caret, 3);
    apply(
        &mut app,
        Action::Motion(Motion::WordLeft),
        Platform::Linux,
        &path,
    );
    assert_eq!(app.caret, 0);
    apply(
        &mut app,
        Action::Motion(Motion::Left),
        Platform::Linux,
        &path,
    );
    assert_eq!(app.caret, 0, "clamped at the start");
}

#[test]
fn kill_and_transpose_operate_at_the_caret() {
    let (mut app, _dir, path) = setup();
    app.input = "git commit foo".to_string();
    app.caret = 11;
    apply(&mut app, Action::KillWord, Platform::Linux, &path);
    assert_eq!((app.input.as_str(), app.caret), ("git foo", 4));

    app.input = "git commit foo".to_string();
    app.caret = 14;
    apply(&mut app, Action::KillToStart, Platform::Linux, &path);
    assert_eq!((app.input.as_str(), app.caret), ("", 0));

    app.input = "git commit foo".to_string();
    app.caret = 4;
    apply(&mut app, Action::KillToEnd, Platform::Linux, &path);
    assert_eq!((app.input.as_str(), app.caret), ("git ", 4));

    app.input = "abc".to_string();
    app.caret = 3;
    apply(&mut app, Action::Transpose, Platform::Linux, &path);
    assert_eq!((app.input.as_str(), app.caret), ("acb", 3));
}

#[test]
fn set_input_puts_the_caret_at_the_end() {
    let (mut app, _dir, path) = setup();
    app.caret = 0;
    app::set_input(&mut app, "hello".to_string());
    assert_eq!((app.input.as_str(), app.caret), ("hello", 5));

    // The colon-command reset clears both text and caret.
    app.input = ":add t echo {input}".to_string();
    app.caret = 20;
    apply(&mut app, Action::SubmitColon, Platform::Linux, &path);
    assert!(app.input.is_empty());
    assert_eq!(app.caret, 0);
}

/// End-to-end through the key map: Ctrl+A/E/W/K/T reach the caret ops.
#[test]
fn readline_keys_reach_the_input_through_on_key() {
    let (mut app, _dir, path) = setup();
    let press = |app: &mut App, c: char| {
        let key = KeyEvent::new(KeyCode::Char(c), KeyModifiers::CONTROL);
        let action = on_key(app, press_of(key));
        apply(app, action, Platform::Linux, &path);
    };

    app.input = "git commit foo".to_string();
    app.caret = 14;
    press(&mut app, 'a');
    assert_eq!(app.caret, 0, "Ctrl+A goes home");
    press(&mut app, 'e');
    assert_eq!(app.caret, 14, "Ctrl+E goes to the end");

    press(&mut app, 'w');
    assert_eq!((app.input.as_str(), app.caret), ("git commit ", 11));

    app.input = "abc".to_string();
    app.caret = 3;
    press(&mut app, 't');
    assert_eq!((app.input.as_str(), app.caret), ("acb", 3), "Ctrl+T");

    press(&mut app, 'u');
    assert_eq!(
        (app.input.as_str(), app.caret),
        ("", 0),
        "Ctrl+U kills to start"
    );

    app.input = "a b".to_string();
    app.caret = 1;
    press(&mut app, 'k');
    assert_eq!(
        (app.input.as_str(), app.caret),
        ("a", 1),
        "Ctrl+K kills to end"
    );
}

#[test]
fn a_failed_save_after_a_run_is_reported() {
    let (mut app, _dir, _path) = setup();
    run::finish(&mut app, "t", "hello", Err("disk full".to_string()));
    assert_eq!(
        app.status,
        Some((false, "t ran, but saving history failed: disk full".to_string()))
    );
    run::finish(&mut app, "t", "hello", Ok(()));
    assert_eq!(app.status, Some((true, "t ok: hello".to_string())));
}

#[test]
fn conclude_records_only_a_proven_success() {
    let (mut app, _dir, _path) = setup();
    app.summon = true;
    app.input = "t hello".to_string();
    let shown = run::conclude(&mut app, "t", "  ", ExecOutcome::Started("t started".to_string()), 5);
    assert_eq!(shown, None);
    assert_eq!(
        app.status,
        Some((true, "t started (still running; not recorded)".to_string()))
    );
    assert!(app.store.history.is_empty());
    assert!(!app.quit);
    assert_eq!(app.input, "t hello", "the input survives");

    let shown = run::conclude(&mut app, "t", "hello", ExecOutcome::Failure("exit 1".to_string()), 5);
    assert_eq!(shown, None);
    assert_eq!(app.status, Some((false, "exit 1".to_string())));
    assert!(app.store.history.is_empty());

    let shown = run::conclude(&mut app, "t", "  ", ExecOutcome::Success("t ok".to_string()), 5);
    assert_eq!(shown.as_deref(), Some("t"), "a blank input echoes the alias name");
    assert_eq!(app.store.history.len(), 1);
    assert_eq!(app.store.history[0].ts, 5);
    assert!(app.input.is_empty());
    assert!(app.quit, "a summoned bar quits after a success");
}

#[test]
fn a_slash_line_is_submitted_not_run() {
    let (mut app, _dir, _path) = setup();
    app.input = "  /nope ".to_string();
    assert!(run::prepare(&mut app, Platform::Linux).is_none());
    assert_eq!(
        app.status,
        Some((false, "unknown command: /nope \u{b7} try /settings".to_string()))
    );
}

#[test]
fn prepare_hands_back_the_alias_input_and_payload() {
    let (mut app, _dir, _path) = setup();
    app.input = "br  baidu more ".to_string();
    let p = run::prepare(&mut app, Platform::Linux).expect("br resolves");
    assert_eq!(p.def.name, "br");
    assert_eq!(p.input, "baidu more");
    assert_eq!(p.payload, "https://www.baidu.com more");
    assert_eq!(app.input, "br  baidu more ", "nothing changes before the run");

    app.input = "cd aGVsbG8=".to_string();
    let p = run::prepare(&mut app, Platform::Linux).expect("cd resolves");
    assert_eq!(p.input, "aGVsbG8=");
    assert_eq!(p.payload, "hello", "the clipboard gets the decoded text");
}

/// The highlighted shortcut row runs for a typed `<alias> <partial>`,
/// never the literal partial. History outranks those shortcut rows, so a
/// partial that also matches a recorded run puts that run on row 0.
#[test]
fn highlighted_shortcut_row_runs_for_a_typed_partial() {
    let (mut app, _dir, path) = setup();
    shown(&mut app);
    type_str(&mut app, ":add t,tt printf %s {input}", &path);
    apply(&mut app, Action::SubmitColon, Platform::Linux, &path);
    type_str(&mut app, ":arg t baidu https://example.com/b", &path);
    apply(&mut app, Action::SubmitColon, Platform::Linux, &path);
    type_str(&mut app, ":arg t bing https://example.com/i", &path);
    apply(&mut app, Action::SubmitColon, Platform::Linux, &path);

    // "t b" lists both shortcuts: Enter runs the highlighted one, not
    // the literal partial.
    app.input = "t b".to_string();
    app.cursor = 0;
    apply(&mut app, Action::Execute, Platform::Linux, &path);
    assert_eq!(app.status, Some((true, "t ok: baidu".to_string())));
    // History keeps the raw key so the shorthand stays replayable.
    assert_eq!(app.store.history[0].input(), "baidu");

    // Retyping the partial now also matches the run just recorded.
    // History outranks the alias-scoped shortcut rows, and the `baidu`
    // key row resolves to the same target as that run - it deduplicates
    // away, so one move down reaches `bing`.
    app.input = "t b".to_string();
    assert_eq!(
        state::candidates(&app),
        vec![
            Candidate::History { idx: 0 },
            Candidate::Shortcut {
                alias: "t".to_string(),
                key: "bing".to_string()
            },
        ],
        "history first; the duplicate key row is gone"
    );
    apply(&mut app, Action::MoveDown, Platform::Linux, &path);
    apply(&mut app, Action::Execute, Platform::Linux, &path);
    assert_eq!(app.status, Some((true, "t ok: bing".to_string())));
}
