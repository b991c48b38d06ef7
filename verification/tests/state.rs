use xconsoler::alias;
use xconsoler::history::record;
use xconsoler::keyspec;
use xconsoler::matcher::Candidate;
use xconsoler::state::{candidates, new, selected, App, Visibility, CANDIDATE_LIMIT, RECENT_LIMIT};
use xconsoler::storage::{self, Store};

fn app_with_history() -> App {
    let mut store = Store::default();
    record(&mut store, "br", "a", 1);
    record(&mut store, "br", "b", 2);
    new(store, false)
}

fn app_with_shortcut() -> App {
    let mut store = Store::default();
    let mut def = alias::defaults().remove(0); // br builtin
    def.shortcuts.clear(); // fixture: exactly the shortcuts below
    def.shortcuts
        .insert("baidu".to_string(), "https://www.baidu.com".to_string());
    store.aliases.push(def);
    new(store, false)
}

#[test]
fn shortcut_context_lists_shortcuts_once_a_space_is_typed() {
    let mut app = app_with_shortcut();
    assert!(
        candidates(&app).is_empty(),
        "empty input with no history: no rows"
    );
    app.input = "br".to_string();
    assert_eq!(
        candidates(&app),
        vec![Candidate::Shortcut {
            alias: "br".to_string(),
            key: "baidu".to_string()
        }],
        "bare alias ranks its concrete shortcuts"
    );
    app.input = "br ".to_string();
    assert_eq!(
        candidates(&app),
        vec![Candidate::Shortcut {
            alias: "br".to_string(),
            key: "baidu".to_string()
        }]
    );
    app.input = "br bai".to_string();
    assert_eq!(
        candidates(&app),
        vec![Candidate::Shortcut {
            alias: "br".to_string(),
            key: "baidu".to_string()
        }]
    );
    app.input = "br zzz".to_string();
    assert!(
        candidates(&app)
            .iter()
            .all(|c| !matches!(c, Candidate::Shortcut { .. })),
        "unmatched partial falls back to the normal ranking"
    );
}

#[test]
fn new_starts_shown_with_merged_aliases() {
    let app = new(Store::default(), false);
    assert_eq!(app.visibility, Visibility::Shown);
    assert!(app.input.is_empty());
    assert_eq!(app.cursor, 0);
    assert_eq!(app.status, None);
    assert!(!app.quit);
    assert!(!app.summon);
    assert_eq!(app.wake, keyspec::parse(keyspec::DEFAULT_SPEC).unwrap());
    assert_eq!(
        app.command,
        keyspec::parse(keyspec::DEFAULT_COMMAND_SPEC).unwrap()
    );
    assert_eq!(app.palette, None);
    assert_eq!(app.aliases, storage::merge_aliases(&[]));
}

#[test]
fn new_records_summon_and_parses_stored_wake_key() {
    let mut store = Store::default();
    store.config.wake_key = "ctrl+g".to_string();
    let app = new(store, true);
    assert!(app.summon);
    assert_eq!(app.visibility, Visibility::Shown);
    assert_eq!(app.wake, keyspec::parse("ctrl+g").unwrap());
}

#[test]
fn invalid_stored_wake_key_falls_back_to_default() {
    let mut store = Store::default();
    store.config.wake_key = "garbage".to_string();
    let app = new(store, false);
    assert_eq!(app.wake, keyspec::default_key());
}

#[test]
fn stored_command_key_is_parsed_and_invalid_falls_back() {
    let mut store = Store::default();
    store.config.command_key = "ctrl+o".to_string();
    assert_eq!(new(store, false).command, keyspec::parse("ctrl+o").unwrap());

    let mut store = Store::default();
    store.config.command_key = "garbage".to_string();
    assert_eq!(new(store, false).command, keyspec::default_command_key());
}

#[test]
fn empty_input_lists_recent_history_only() {
    let app = app_with_history();
    assert_eq!(
        candidates(&app),
        vec![Candidate::History { idx: 0 }, Candidate::History { idx: 1 },]
    );
}

#[test]
fn empty_bar_lists_at_most_recent_limit() {
    let app = app_with_history();
    assert!(candidates(&app).len() <= RECENT_LIMIT);
}

#[test]
fn typed_query_lists_at_most_five_history_first() {
    let mut store = Store::default();
    // Record oldest -> newest so `history[0]` is `hit0` once the loop ends.
    for i in (0..8).rev() {
        record(&mut store, "br", &format!("hit{i}"), (8 - i) as u64);
    }
    let mut app = new(store, false);
    app.input = "hit".to_string();
    let out = candidates(&app);
    assert_eq!(out.len(), CANDIDATE_LIMIT);
    assert_eq!(out[0], Candidate::History { idx: 0 });
    assert_eq!(out[4], Candidate::History { idx: 4 });
}

#[test]
fn typed_query_brings_shortcuts_back() {
    let mut app = app_with_history();
    app.input = "br".to_string();
    let out = candidates(&app);
    assert!(out.contains(&Candidate::History { idx: 0 }), "{out:?}");
    assert!(
        out.contains(&Candidate::Shortcut {
            alias: "br".to_string(),
            key: "baidu".to_string()
        }),
        "{out:?}"
    );
}

#[test]
fn empty_input_without_history_is_empty_despite_shortcuts() {
    let app = new(Store::default(), false);
    assert!(candidates(&app).is_empty());
    assert_eq!(selected(&app), None);
}

#[test]
fn selected_follows_cursor() {
    let mut app = app_with_history();
    app.cursor = 1;
    assert_eq!(selected(&app), Some(Candidate::History { idx: 1 }));
}

#[test]
fn selected_out_of_range_cursor_falls_back_to_first() {
    let mut app = app_with_history();
    app.cursor = 99;
    assert_eq!(selected(&app), Some(Candidate::History { idx: 0 }));
}

#[test]
fn selected_none_when_no_candidates_and_no_match() {
    let mut app = new(Store::default(), false);
    app.aliases.clear();
    assert_eq!(selected(&app), None);
}
