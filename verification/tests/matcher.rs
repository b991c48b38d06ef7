use xconsoler::alias;
use xconsoler::matcher::{candidates, Candidate};
use xconsoler::storage::{HistoryEntry, Store};

fn history(alias: &str, input: &str, ts: u64) -> HistoryEntry {
    HistoryEntry::new(alias, input, ts)
}

#[test]
fn empty_query_lists_recent_history_only() {
    let mut store = Store::default();
    store.history.push(history("br", "a", 2));
    store.history.push(history("br", "b", 1));
    let aliases = alias::defaults();

    let out = candidates(&store, &aliases, "   ", 10);
    assert_eq!(
        out,
        vec![Candidate::History { idx: 0 }, Candidate::History { idx: 1 },]
    );
    assert!(
        out.iter().all(|c| !matches!(c, Candidate::Shortcut { .. })),
        "aliases stay out of the empty-input list: {out:?}"
    );
}

#[test]
fn empty_query_without_history_is_empty_even_with_aliases() {
    let store = Store::default();
    for query in ["", "  "] {
        assert_eq!(
            candidates(&store, &alias::defaults(), query, 10),
            Vec::new(),
            "query {query:?}"
        );
    }
}

#[test]
fn empty_query_limit_one_history_only() {
    let mut store = Store::default();
    store.history.push(history("br", "a", 2));
    store.history.push(history("br", "b", 1));
    let out = candidates(&store, &alias::defaults(), "", 1);
    assert_eq!(out, vec![Candidate::History { idx: 0 }]);
}

#[test]
fn empty_query_caps_the_recent_history_at_the_limit() {
    let mut store = Store::default();
    for i in 0..12 {
        store.history.push(history("br", &format!("x{i}"), 12 - i));
    }
    let out = candidates(&store, &alias::defaults(), "", 10);
    assert_eq!(out.len(), 10, "limit caps the recent list: {out:?}");
    assert_eq!(out[0], Candidate::History { idx: 0 }, "newest first");
    assert_eq!(out[9], Candidate::History { idx: 9 });
}

#[test]
fn unknown_history_alias_uses_own_name() {
    let mut store = Store::default();
    store.history.push(history("mytool", "arg", 1));
    let out = candidates(&store, &alias::defaults(), "mytool", 5);
    assert_eq!(out, vec![Candidate::History { idx: 0 }]);
}

#[test]
fn limit_truncates_ranked_results() {
    let mut store = Store::default();
    for i in 0..5 {
        store.history.push(history("br", &format!("x{i}"), i));
    }
    let out = candidates(&store, &alias::defaults(), "x", 2);
    assert_eq!(
        out,
        vec![Candidate::History { idx: 0 }, Candidate::History { idx: 1 }]
    );
}

#[test]
fn typed_query_lists_history_then_matching_shortcut_rows() {
    let mut store = Store::default();
    store.history.push(history("br", "gm", 2));
    store.history.push(history("zz", "x", 1));
    let out = candidates(&store, &alias::defaults(), "gm", 10);
    assert_eq!(
        out,
        vec![
            Candidate::History { idx: 0 },
            Candidate::Shortcut { alias: "br".to_string(), key: "gm".to_string() },
        ]
    );
    // history fills the slots first
    assert_eq!(candidates(&store, &alias::defaults(), "gm", 1), vec![Candidate::History { idx: 0 }]);
}

#[test]
fn shortcut_rows_rank_by_score_then_alias_and_key_order() {
    let store = Store::default();
    // both br rows match `bai` (the gm row through `mail`); the `baidu` row
    // scores higher and comes first
    let out = candidates(&store, &alias::defaults(), "bai", 10);
    assert_eq!(
        out,
        vec![
            Candidate::Shortcut { alias: "br".to_string(), key: "baidu".to_string() },
            Candidate::Shortcut { alias: "br".to_string(), key: "gm".to_string() },
        ]
    );
    assert!(candidates(&store, &alias::defaults(), "zzzz", 10).is_empty());
}
