use xconsoler::alias;
use xconsoler::storage::{
    corrupt_store, declared_newer, declared_version, decode_b64, encode_b64, legacy_fallback, newer_store,
    set_command_key, set_wake_key, trim_history, Config, HistoryEntry, Store, MAX_HISTORY,
    SCHEMA_VERSION,
};

const DEFAULT_PATH: &str = "/home/someone/xconsoler/store.json";

#[test]
fn entry_encodes_input() {
    let e = HistoryEntry::new("browser", "https://example.com/?a=1&b='x'", 42);
    assert_eq!(e.input(), "https://example.com/?a=1&b='x'");
    assert_eq!(e.ts, 42);
    assert_eq!(e.key(), "browser\u{0}https://example.com/?a=1&b='x'");
    assert_ne!(e.input_b64, e.input());
}

#[test]
fn default_store_is_seeded_with_the_defaults() {
    let store = Store::default();
    assert_eq!(store.aliases, alias::defaults());
    assert!(store.history.is_empty());
    assert_eq!(store.version, SCHEMA_VERSION);
}

#[test]
fn default_store_has_default_wake_key() {
    assert_eq!(Store::default().config.wake_key, "alt+d");
}

#[test]
fn default_config_has_both_keys() {
    let config = Config::default();
    assert_eq!(config.wake_key, "alt+d");
    assert_eq!(config.command_key, "alt+d");
    assert_eq!(Store::default().config, config);
}

#[test]
fn set_wake_key_validates_and_normalizes() {
    let mut store = Store::default();
    assert!(set_wake_key(&mut store, "alt+J").is_ok());
    assert_eq!(store.config.wake_key, "alt+j");
    assert!(set_wake_key(&mut store, "ctrl+g").is_ok());
    assert_eq!(store.config.wake_key, "ctrl+g");
    let err = set_wake_key(&mut store, "alt+ctrl+x").unwrap_err();
    assert!(err.contains("alt+ctrl combo unsupported"));
    // rejected specs leave the previous value in place
    assert_eq!(store.config.wake_key, "ctrl+g");
}

#[test]
fn set_command_key_validates_and_normalizes() {
    let mut store = Store::default();
    assert!(set_command_key(&mut store, " ctrl+O ").is_ok());
    assert_eq!(store.config.command_key, "ctrl+o");
    assert!(set_command_key(&mut store, "alt+J").is_ok());
    assert_eq!(store.config.command_key, "alt+j");
    // command-key writes leave the wake key alone
    assert_eq!(store.config.wake_key, "alt+d");
    let err = set_command_key(&mut store, "garbage").unwrap_err();
    assert!(err.contains("expected \"alt+<c>\" or \"ctrl+<c>\""));
    assert!(set_command_key(&mut store, "alt+ctrl+x").is_err());
    // rejected specs leave the previous value in place
    assert_eq!(store.config.command_key, "alt+j");
}

#[test]
fn legacy_fallback_applies_only_to_the_default_store_path() {
    let old = "/tmp/xconsoler-legacy/store.json".to_string();
    assert_eq!(
        legacy_fallback("/tmp/isolated/store.json", DEFAULT_PATH, Some(old.clone())),
        None,
        "a custom store path never falls back"
    );
    assert_eq!(
        legacy_fallback(DEFAULT_PATH, DEFAULT_PATH, Some(old.clone())),
        Some(old.clone()),
        "the default path still falls back once"
    );
    assert_eq!(
        legacy_fallback(DEFAULT_PATH, DEFAULT_PATH, Some(DEFAULT_PATH.to_string())),
        None,
        "the default path is never its own fallback"
    );
}

#[test]
fn b64_roundtrip_and_plaintext_fallback() {
    let s = "a \"quoted\" value; with\nnewlines & unicode \u{4f60}\u{597d}";
    assert_eq!(decode_b64(&encode_b64(s)), s);
    assert_eq!(encode_b64("hi"), "aGk=");
    // not base64 at all: returned unchanged
    assert_eq!(decode_b64("not base64!"), "not base64!");
    // valid base64 but not UTF-8: returned unchanged
    assert_eq!(decode_b64("/w=="), "/w==");
}

#[test]
fn trim_history_keeps_the_newest_entries() {
    let mut h: Vec<HistoryEntry> = (0..MAX_HISTORY + 5)
        .map(|i| HistoryEntry::new("br", &format!("i{i}"), i as u64))
        .collect();
    trim_history(&mut h);
    assert_eq!(h.len(), MAX_HISTORY);
    assert_eq!(h[0].input(), "i0");
    assert_eq!(h[MAX_HISTORY - 1].input(), format!("i{}", MAX_HISTORY - 1));
}

#[test]
fn unparseable_stores_are_told_apart_by_their_declared_version() {
    assert!(declared_newer(Some(SCHEMA_VERSION + 1)));
    assert!(!declared_newer(Some(SCHEMA_VERSION)));
    assert!(!declared_newer(None));
    let newer = newer_store();
    assert!(newer.from_newer_version);
    assert_eq!(newer.aliases, alias::defaults());
    let moved = corrupt_store(true, "/x/store.json", "/x/store.json.corrupt");
    assert_eq!(
        moved.load_notice.as_deref(),
        Some("corrupt store moved to /x/store.json.corrupt")
    );
    assert!(!moved.from_newer_version);
    let kept = corrupt_store(false, "/x/store.json", "/x/store.json.corrupt");
    assert_eq!(
        kept.load_notice.as_deref(),
        Some("store could not be parsed; kept at /x/store.json")
    );
}

#[test]
fn declared_version_reads_the_top_level_member() {
    assert_eq!(declared_version(r#"{"version": 9, "aliases": 3}"#), Some(9));
    assert_eq!(declared_version(r#"{"aliases": {"version": 9}}"#), None, "only the top level counts");
    assert_eq!(declared_version(r#"{"version": "9"}"#), None, "a string is no version");
    assert_eq!(declared_version(r#"{"version": -1}"#), None);
    assert_eq!(declared_version(r#"{"version": 1.5}"#), None);
    assert_eq!(declared_version(r#"{"version": 4294967296}"#), None, "too big for a u32");
    assert_eq!(declared_version(r#"{"version": 4294967295}"#), Some(u32::MAX));
    assert_eq!(declared_version("[1, 2]"), None);
    assert_eq!(declared_version("not json"), None);
}

#[test]
fn a_newer_declared_version_is_recognised_from_the_raw_text() {
    let text = format!(r#"{{"version": {}, "aliases": "a shape this build cannot read"}}"#, SCHEMA_VERSION + 1);
    assert!(declared_newer(declared_version(&text)));
    let same = format!(r#"{{"version": {}}}"#, SCHEMA_VERSION);
    assert!(!declared_newer(declared_version(&same)));
}
