use std::collections::BTreeSet;
use xconsoler::commands::{all, get, insert_text, len};

#[test]
fn tokens_are_unique_and_prefixed() {
    let mut seen = BTreeSet::new();
    for c in &all() {
        assert!(
            c.token.starts_with(':') || c.token.starts_with('/'),
            "token {} must start with ':' or '/'",
            c.token
        );
        assert!(seen.insert(c.token), "duplicate token {}", c.token);
    }
    assert_eq!(seen.len(), len());
}

#[test]
fn descriptions_are_non_empty() {
    for c in &all() {
        assert!(!c.desc.is_empty(), "{} has an empty desc", c.token);
    }
}

#[test]
fn insert_text_adds_a_space_only_where_args_are_needed() {
    let add = get(0).expect(":add");
    assert_eq!(insert_text(&add), ":add ");
    let rows = all();
    let help = rows.iter().find(|c| c.token == ":help").expect(":help");
    assert_eq!(insert_text(help), ":help");
    let settings = rows
        .iter()
        .find(|c| c.token == "/settings")
        .expect("/settings");
    assert_eq!(insert_text(settings), "/settings");
}

#[test]
fn get_is_bounds_checked() {
    assert_eq!(get(0).map(|c| c.token), Some(":add"));
    assert_eq!(get(len() - 1).map(|c| c.token), Some("/settings"));
    assert!(get(len()).is_none());
    assert!(get(usize::MAX).is_none());
}
