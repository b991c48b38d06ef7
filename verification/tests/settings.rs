use crossterm::event::{KeyCode, KeyEvent, KeyEventKind, KeyModifiers};
use xconsoler::alias::{self, AliasDef};
use xconsoler::keyspec::{Key, KeyPress};
use xconsoler::platform::Platform;
use xconsoler::settings::{handle_key, move_sel, new_for, reclamp, rows, view, Effect, Row, Settings};
use xconsoler::settings_form::{step_count, Purpose};
use xconsoler::shortcuts::ShortcutMap;
use xconsoler::storage::Store;

/// The library's view of a terminal key event.
fn press_of(e: KeyEvent) -> KeyPress {
    let code = match e.code {
        KeyCode::Char(c) => Key::Char(c),
        KeyCode::Esc => Key::Esc,
        KeyCode::Enter => Key::Enter,
        KeyCode::Tab => Key::Tab,
        KeyCode::Backspace => Key::Backspace,
        KeyCode::Delete => Key::Delete,
        KeyCode::Up => Key::Up,
        KeyCode::Down => Key::Down,
        KeyCode::Left => Key::Left,
        KeyCode::Right => Key::Right,
        KeyCode::Home => Key::Home,
        KeyCode::End => Key::End,
        _ => Key::Other,
    };
    let m = e.modifiers;
    KeyPress {
        code,
        alt: m.contains(KeyModifiers::ALT),
        ctrl: m.contains(KeyModifiers::CONTROL),
        shift: m.contains(KeyModifiers::SHIFT),
        extra: m.intersects(KeyModifiers::SUPER | KeyModifiers::HYPER | KeyModifiers::META),
        press: e.kind == KeyEventKind::Press,
    }
}

fn handle(st: &Settings, store: &Store, e: KeyEvent) -> (Settings, Store, Effect) {
    handle_key(st, store, press_of(e))
}

fn key(code: KeyCode) -> KeyEvent {
    KeyEvent::new(code, KeyModifiers::NONE)
}

fn ctrl(c: char) -> KeyEvent {
    KeyEvent::new(KeyCode::Char(c), KeyModifiers::CONTROL)
}

fn new() -> Settings {
    new_for(Platform::Linux)
}

/// A store holding the seeded `br` and `cd` only.
fn br_and_cd() -> Store {
    let mut store = Store::default();
    store.aliases.retain(|d| d.name == "br" || d.name == "cd");
    store
}

/// `br`, `cd`, then `t` with one trigger and one shortcut.
fn store_with_t() -> Store {
    let mut store = br_and_cd();
    let mut shortcuts = ShortcutMap::new();
    shortcuts.insert("baidu".to_string(), "https://www.baidu.com".to_string());
    store.aliases.push(AliasDef {
        name: "t".to_string(),
        triggers: vec!["tt".to_string()],
        linux: Some("printf %s {input}".to_string()),
        macos: None,
        shortcuts,
    });
    store
}

fn type_str(st: &Settings, store: &Store, s: &str) -> Settings {
    let mut st = st.clone();
    for c in s.chars() {
        let (next, _, _) = handle(&st, store, key(KeyCode::Char(c)));
        st = next;
    }
    st
}

/// Select alias `t` (index 2 of the stored list).
fn on_t() -> (Settings, Store) {
    let store = store_with_t();
    let st = Settings { cursor: 2, ..new() };
    (st, store)
}

/// Expand `t` and park the cursor on its `idx`-th entry row (0 = the
/// trigger, 1 = the shortcut).
fn on_entry(idx: usize) -> (Settings, Store) {
    let (st, store) = on_t();
    let (mut st, _, _) = handle(&st, &store, key(KeyCode::Enter));
    for _ in 0..=idx {
        let (next, _, _) = handle(&st, &store, key(KeyCode::Down));
        st = next;
    }
    (st, store)
}

#[test]
fn rows_list_aliases_then_expanded_entries() {
    let store = store_with_t();
    let aliases = view(&store);
    let flat = rows(&aliases, None);
    assert_eq!(flat.len(), 3); // br, cd, t
    let expanded = rows(&aliases, Some(2));
    assert_eq!(
        expanded,
        vec![
            Row::Alias { idx: 0 },
            Row::Alias { idx: 1 },
            Row::Alias { idx: 2 },
            Row::Trigger { alias: 2, idx: 0 },
            Row::Shortcut { alias: 2, key: "baidu".to_string() },
        ]
    );
}

#[test]
fn expanded_rows_list_every_trigger_and_shortcut() {
    let mut store = store_with_t();
    let t = store.aliases.iter_mut().find(|d| d.name == "t").expect("t exists");
    t.triggers = vec!["tt".to_string(), "tw".to_string()];
    t.shortcuts.insert("cc".to_string(), "x".to_string());
    let aliases = view(&store);
    let flat = rows(&aliases, Some(2));
    assert_eq!(
        flat[3..7],
        [
            Row::Trigger { alias: 2, idx: 0 },
            Row::Trigger { alias: 2, idx: 1 },
            Row::Shortcut { alias: 2, key: "baidu".to_string() },
            Row::Shortcut { alias: 2, key: "cc".to_string() },
        ]
    );
}

#[test]
fn s_opens_the_shortcut_wizard_for_the_selected_alias() {
    let (st, store) = on_t();
    let (st, _, eff) = handle(&st, &store, key(KeyCode::Char('s')));
    assert_eq!(eff, Effect::Nothing);
    let form = st.form.as_ref().expect("shortcut wizard open");
    assert_eq!(form.purpose, Purpose::NewShortcut { alias: "t".to_string() });
    assert_eq!(step_count(form), 2);
    let (st, _, eff) = handle(&st, &store, key(KeyCode::Esc));
    assert_eq!((st.form, eff), (None, Effect::Nothing));
}

#[test]
fn submitting_the_shortcut_wizard_yields_the_effect() {
    let (st, store) = on_t();
    let (st, _, _) = handle(&st, &store, key(KeyCode::Char('s')));
    let st = type_str(&st, &store, "gc");
    let (st, _, eff) = handle(&st, &store, key(KeyCode::Enter));
    assert_eq!(eff, Effect::Nothing);
    assert_eq!(st.form.as_ref().map(|f| f.step), Some(1));
    let st = type_str(&st, &store, "git clone {input}");
    let (st, _, eff) = handle(&st, &store, key(KeyCode::Enter));
    assert_eq!(st.form, None, "the wizard closes on submit");
    assert_eq!(
        eff,
        Effect::SetShortcut {
            alias: "t".to_string(),
            key: "gc".to_string(),
            value: "git clone {input}".to_string()
        }
    );
}

#[test]
fn t_opens_the_trigger_wizard_and_submits_a_trigger() {
    let (st, store) = on_t();
    let (st, _, eff) = handle(&st, &store, key(KeyCode::Char('t')));
    assert_eq!(eff, Effect::Nothing);
    let form = st.form.as_ref().expect("trigger wizard open");
    assert_eq!(form.purpose, Purpose::NewTrigger { alias: "t".to_string() });
    assert_eq!(step_count(form), 1);
    let st = type_str(&st, &store, "gc");
    let (st, _, eff) = handle(&st, &store, key(KeyCode::Enter));
    assert_eq!(st.form, None);
    assert_eq!(eff, Effect::AddTrigger { alias: "t".to_string(), trigger: "gc".to_string() });
}

#[test]
fn a_is_no_longer_bound_on_the_list() {
    let (st, store) = on_t();
    let (st, _, eff) = handle(&st, &store, key(KeyCode::Char('a')));
    assert_eq!((st.form, eff), (None, Effect::Nothing));
}

#[test]
fn entry_rows_route_e_s_and_t_to_their_parent_alias() {
    let (st, store) = on_t();
    let (st, _, _) = handle(&st, &store, key(KeyCode::Enter));
    let (st, _, _) = handle(&st, &store, key(KeyCode::Down));
    let (st, _, _) = handle(&st, &store, key(KeyCode::Char('t')));
    assert_eq!(
        st.form.as_ref().map(|f| f.purpose.clone()),
        Some(Purpose::NewTrigger { alias: "t".to_string() })
    );
    let (st, _, _) = handle(&st, &store, key(KeyCode::Esc));
    let (st, _, _) = handle(&st, &store, key(KeyCode::Down));
    let (st, _, _) = handle(&st, &store, key(KeyCode::Char('s')));
    assert_eq!(
        st.form.as_ref().map(|f| f.purpose.clone()),
        Some(Purpose::NewShortcut { alias: "t".to_string() })
    );
    let (st, _, _) = handle(&st, &store, key(KeyCode::Esc));
    let (st, _, _) = handle(&st, &store, key(KeyCode::Char('e')));
    assert_eq!(
        st.form.as_ref().map(|f| f.purpose.clone()),
        Some(Purpose::EditShortcut { alias: "t".to_string(), old_key: "baidu".to_string() })
    );
}

#[test]
fn d_on_a_trigger_row_asks_for_its_removal() {
    let (st, store) = on_t();
    let (st, _, eff) = handle(&st, &store, key(KeyCode::Enter));
    assert_eq!(eff, Effect::Nothing);
    let (st, _, _) = handle(&st, &store, key(KeyCode::Down));
    let (_, s2, eff) = handle(&st, &store, key(KeyCode::Char('d')));
    assert_eq!(
        eff,
        Effect::RemoveTrigger { alias: "t".to_string(), trigger: "tt".to_string() },
        "`d` on a trigger row drops just that word"
    );
    assert_eq!(s2, store, "the pure transition leaves the store alone");
    let t = s2.aliases.iter().find(|d| d.name == "t").expect("t exists");
    assert_eq!(t.triggers, vec!["tt".to_string()]);
}

#[test]
fn d_on_a_shortcut_row_removes_it_inline() {
    let (st, store) = on_t();
    let (st, _, _) = handle(&st, &store, key(KeyCode::Enter));
    let (st, _, _) = handle(&st, &store, key(KeyCode::Down));
    let (st, _, _) = handle(&st, &store, key(KeyCode::Down));
    let (st, s2, eff) = handle(&st, &store, key(KeyCode::Char('d')));
    assert_eq!(eff, Effect::Save, "an inline store edit still persists");
    let t = s2.aliases.iter().find(|d| d.name == "t").expect("t exists");
    assert!(t.shortcuts.is_empty());
    assert_eq!(st.status, Some((true, "shortcut removed: t.baidu".to_string())));
    assert_eq!(st.expanded, None, "the list collapses after a removal");
}

#[test]
fn reclamp_keeps_the_cursor_on_a_row() {
    let store = store_with_t();
    let mut st = Settings { cursor: 4, expanded: Some(2), ..new() };
    reclamp(&mut st, &store);
    assert_eq!(st.cursor, 4, "rows: 3 aliases + 1 trigger + 1 shortcut");
    let mut empty = new();
    empty.cursor = 7;
    reclamp(&mut empty, &br_and_cd());
    assert_eq!(empty.cursor, 1, "clamped to the last of 2 aliases");
}

#[test]
fn navigation_moves_and_clamps() {
    let store = store_with_t();
    let aliases = view(&store);
    let flat = rows(&aliases, None);
    assert_eq!(move_sel(&flat, 0, -1), 0);
    assert_eq!(move_sel(&flat, 0, 1), 1);
    assert_eq!(move_sel(&flat, 2, 5), 2);
    assert_eq!(move_sel(&flat, 99, -1), 1);
    assert_eq!(move_sel(&[], 3, 1), 0);
}

#[test]
fn enter_toggles_expansion_then_collapses() {
    let store = store_with_t();
    let (st, _, _) = handle(&new(), &store, key(KeyCode::Enter));
    assert_eq!(st.expanded, Some(0));
    let (st, _, _) = handle(&st, &store, key(KeyCode::Right));
    assert_eq!(st.expanded, None, "Enter again collapses");
    let (st, _, _) = handle(&st, &store, key(KeyCode::Enter));
    let (st, _, _) = handle(&st, &store, key(KeyCode::Down));
    let (st, _, _) = handle(&st, &store, key(KeyCode::Down));
    let (st, _, _) = handle(&st, &store, key(KeyCode::Left));
    assert_eq!(st.expanded, None);
}

#[test]
fn q_and_esc_back_ctrl_c_quits() {
    let store = store_with_t();
    assert_eq!(handle(&new(), &store, key(KeyCode::Esc)).2, Effect::Back);
    assert_eq!(handle(&new(), &store, key(KeyCode::Char('q'))).2, Effect::Back);
    assert_eq!(handle(&new(), &store, ctrl('c')).2, Effect::Quit);
}

#[test]
fn modified_char_keys_do_not_fire_list_actions() {
    let (st, store) = on_t();
    let alt_d = KeyEvent::new(KeyCode::Char('d'), KeyModifiers::ALT);
    assert_eq!(
        handle(&st, &store, alt_d),
        (st.clone(), store.clone(), Effect::Nothing),
        "Alt+D must not delete the selection"
    );
    let alt_k = KeyEvent::new(KeyCode::Char('k'), KeyModifiers::ALT);
    assert_eq!(
        handle(&st, &store, alt_k),
        (st.clone(), store.clone(), Effect::Nothing),
        "Alt+K must not move the selection"
    );
    for c in ['k', 'j', 'q', 'n', 's', 'a', 't', 'e'] {
        assert_eq!(
            handle(&st, &store, ctrl(c)),
            (st.clone(), store.clone(), Effect::Nothing),
            "Ctrl+{c} must not fire the list actions"
        );
    }
    assert_eq!(store.aliases.len(), 3, "no alias was deleted");
}

#[test]
fn alt_word_motions_reach_the_form_but_stay_dead_on_the_list() {
    let (st, store) = on_t();
    let alt_d = KeyEvent::new(KeyCode::Char('d'), KeyModifiers::ALT);
    assert_eq!(
        handle(&st, &store, alt_d),
        (st.clone(), store.clone(), Effect::Nothing),
        "Alt+D must not delete the selection from the list"
    );
    let (st, _, _) = handle(&st, &store, key(KeyCode::Char('e')));
    let (st, _, _) = handle(&st, &store, key(KeyCode::End));
    let form = st.form.as_ref().expect("edit wizard open");
    assert_eq!(form.caret, "printf %s {input}".chars().count());
    let alt_b = KeyEvent::new(KeyCode::Char('b'), KeyModifiers::ALT);
    let (st, _, eff) = handle(&st, &store, alt_b);
    assert_eq!(eff, Effect::Nothing);
    let form = st.form.as_ref().expect("form still open");
    assert_eq!(form.caret, 10, "Alt+B jumps to the start of the placeholder");
    let before = form.input.clone();
    let (st, _, eff) = handle(&st, &store, alt_d);
    assert_eq!(eff, Effect::Nothing);
    let form = st.form.as_ref().expect("form still open");
    assert_eq!((form.input.clone(), form.caret), (before, 10));
}

#[test]
fn ctrl_c_still_quits_from_the_list() {
    let (st, store) = on_t();
    assert_eq!(handle(&st, &store, ctrl('c')).2, Effect::Quit);
    assert_eq!(handle(&st, &store, ctrl('d')).2, Effect::Quit);
}

#[test]
fn release_events_are_ignored() {
    let store = store_with_t();
    let release = KeyEvent::new_with_kind(KeyCode::Char('d'), KeyModifiers::NONE, KeyEventKind::Release);
    let (st, s2, eff) = handle(&new(), &store, release);
    assert_eq!((st, eff), (new(), Effect::Nothing));
    assert_eq!(s2, store);
}

#[test]
fn e_on_a_shortcut_row_opens_the_prefilled_edit_wizard() {
    let (st, store) = on_entry(1);
    let (st, _, eff) = handle(&st, &store, key(KeyCode::Char('e')));
    assert_eq!(eff, Effect::Nothing);
    let form = st.form.as_ref().expect("edit-shortcut wizard open");
    assert_eq!(
        form.purpose,
        Purpose::EditShortcut { alias: "t".to_string(), old_key: "baidu".to_string() }
    );
    assert_eq!(form.input, "baidu", "the current key is prefilled");
    assert_eq!(step_count(form), 2);
    let (st, _, _) = handle(&st, &store, key(KeyCode::Enter));
    let form = st.form.as_ref().expect("value step open");
    assert_eq!(form.step, 1);
    assert_eq!(form.input, "https://www.baidu.com");
}

#[test]
fn edit_shortcut_wizard_submits_the_old_key_with_the_new_pair() {
    let (st, store) = on_entry(1);
    let (st, _, _) = handle(&st, &store, key(KeyCode::Char('e')));
    let (st, _, _) = handle(&st, &store, key(KeyCode::Enter));
    let (_, _, eff) = handle(&st, &store, key(KeyCode::Enter));
    assert_eq!(
        eff,
        Effect::EditShortcut {
            alias: "t".to_string(),
            old_key: "baidu".to_string(),
            key: "baidu".to_string(),
            value: "https://www.baidu.com".to_string(),
        },
        "Enter through both steps keeps the entry as it was"
    );
    let (fresh, _) = on_entry(1);
    let (st, _, _) = handle(&fresh, &store, key(KeyCode::Char('e')));
    let (st, _, _) = handle(&st, &store, ctrl('u'));
    let st = type_str(&st, &store, "tieba");
    let (st, _, _) = handle(&st, &store, key(KeyCode::Enter));
    let (st, _, _) = handle(&st, &store, ctrl('u'));
    let st = type_str(&st, &store, "https://tieba.baidu.com");
    let (st, _, eff) = handle(&st, &store, key(KeyCode::Enter));
    assert_eq!(st.form, None, "the wizard closes on submit");
    assert_eq!(
        eff,
        Effect::EditShortcut {
            alias: "t".to_string(),
            old_key: "baidu".to_string(),
            key: "tieba".to_string(),
            value: "https://tieba.baidu.com".to_string(),
        }
    );
}

#[test]
fn e_on_a_trigger_row_opens_the_prefilled_rename_wizard() {
    let (st, store) = on_entry(0);
    let (st, _, eff) = handle(&st, &store, key(KeyCode::Char('e')));
    assert_eq!(eff, Effect::Nothing);
    let form = st.form.as_ref().expect("edit-trigger wizard open");
    assert_eq!(form.purpose, Purpose::EditTrigger { alias: "t".to_string(), old: "tt".to_string() });
    assert_eq!(form.input, "tt", "the current word is prefilled");
    assert_eq!(step_count(form), 1);
    let (st, _, eff) = handle(&st, &store, key(KeyCode::Enter));
    assert_eq!(st.form, None);
    assert_eq!(
        eff,
        Effect::RenameTrigger { alias: "t".to_string(), old: "tt".to_string(), new: "tt".to_string() }
    );
}

#[test]
fn edit_trigger_wizard_submits_the_new_word() {
    let (st, store) = on_entry(0);
    let (st, _, _) = handle(&st, &store, key(KeyCode::Char('e')));
    let (st, _, _) = handle(&st, &store, ctrl('u'));
    let st = type_str(&st, &store, "tw");
    let (st, _, eff) = handle(&st, &store, key(KeyCode::Enter));
    assert_eq!(st.form, None);
    assert_eq!(
        eff,
        Effect::RenameTrigger { alias: "t".to_string(), old: "tt".to_string(), new: "tw".to_string() }
    );
}

#[test]
fn d_on_a_built_in_alias_row_is_refused() {
    let store = Store::default();
    let (st, s2, eff) = handle(&new(), &store, key(KeyCode::Char('d')));
    assert_eq!(eff, Effect::Nothing, "a refused delete saves nothing");
    assert_eq!(s2, store, "br stays");
    assert_eq!(st.status.as_ref().map(|s| s.0), Some(false));
    assert!(alias::defaults().iter().any(|d| d.name == "br"));
}

#[test]
fn d_on_a_user_alias_row_removes_it() {
    let (st, store) = on_t();
    let (st, s2, eff) = handle(&st, &store, key(KeyCode::Char('d')));
    assert_eq!(eff, Effect::Save);
    assert!(s2.aliases.iter().all(|d| d.name != "t"));
    assert_eq!(s2.aliases.len(), 2);
    assert_eq!(st.status, Some((true, "alias removed: t".to_string())));
}

#[test]
fn ctrl_or_alt_delete_leaves_the_form_line_alone() {
    let (st, store) = on_entry(0);
    let (st, _, _) = handle(&st, &store, key(KeyCode::Char('e')));
    let (st, _, _) = handle(&st, &store, key(KeyCode::Home));
    for mods in [KeyModifiers::CONTROL, KeyModifiers::ALT] {
        let (s2, _, eff) = handle(&st, &store, KeyEvent::new(KeyCode::Delete, mods));
        assert_eq!(eff, Effect::Nothing);
        assert_eq!(s2.form.as_ref().map(|f| f.input.clone()), Some("tt".to_string()));
    }
    let (s2, _, _) = handle(&st, &store, key(KeyCode::Delete));
    assert_eq!(s2.form.as_ref().map(|f| f.input.clone()), Some("t".to_string()));
}
