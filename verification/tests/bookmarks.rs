use xconsoler::alias;
use xconsoler::bookmarks::{merge_bookmarks, merge_into, parse, plan, profile_order, slug, Entry, MAX_IMPORT};
use xconsoler::shortcuts::ShortcutMap;

/// Chrome tree with nested folders, a duplicate URL, a blank title and
/// nodes (non-http scheme, blank URL, separator) that must be dropped.
const TREE: &str = r#"{"roots": {"bar": {"type": "folder", "name": "Bookmarks bar", "children": [
    {"type": "url", "name": "Rust", "url": "https://www.rust-lang.org/"},
    {"type": "folder", "name": "Dev Tools", "children": [
      {"type": "url", "name": "GitHub", "url": "https://github.com/"},
      {"type": "folder", "name": "Deeper", "children": [
        {"type": "url", "name": "GH Issues", "url": "https://github.com/issues"}]},
      {"type": "url", "name": "Rust", "url": "https://www.rust-lang.org/"}]},
    {"type": "url", "name": "", "url": "https://www.example.com/page"},
    {"type": "url", "name": "Bad Title!@#", "url": "https://example.org/a"},
    {"type": "url", "name": "Bad Title!@#", "url": "https://example.org/b"},
    {"type": "url", "name": "Script", "url": "javascript:alert(1)"},
    {"type": "url", "name": "No Scheme", "url": "ftp://example.net/x"},
    {"type": "url", "name": "Blank", "url": "   "},
    {"type": "separator"},
    {"type": "url", "name": "Example", "url": "https://example.net/x"}]},
  "other": {"type": "folder", "name": "Other bookmarks", "children": []}}}"#;

fn entry(title: &str, url: &str, folder: &str) -> Entry {
    Entry {
        title: title.into(),
        url: url.into(),
        folder: folder.into(),
    }
}

fn dump(fresh: &[(String, String)]) -> Vec<String> {
    fresh.iter().map(|(k, v)| format!("{k}={v}")).collect()
}

/// A shortcut table holding `pairs`.
fn table(pairs: &[(&str, &str)]) -> ShortcutMap {
    let mut m = ShortcutMap::new();
    for (k, v) in pairs {
        m.insert(k.to_string(), v.to_string());
    }
    m
}

#[test]
fn parse_walks_folders_and_filters_urls() {
    let got: Vec<String> = parse(TREE)
        .unwrap()
        .into_iter()
        .map(|e| format!("{}|{}|{}", e.title, e.url, e.folder))
        .collect();
    assert_eq!(
        got,
        [
            "Rust|https://www.rust-lang.org/|",
            "GitHub|https://github.com/|Dev Tools",
            "GH Issues|https://github.com/issues|Dev Tools/Deeper",
            "|https://www.example.com/page|",
            "Bad Title!@#|https://example.org/a|",
            "Bad Title!@#|https://example.org/b|",
            "Example|https://example.net/x|",
        ]
    );
}

#[test]
fn plan_slugs_collisions_and_existing_key_protection() {
    let fresh = plan(
        &ShortcutMap::new(),
        &[
            entry("Hello, World!", "https://a.example/1", ""),
            entry("", "https://www.example.com/page", ""),
            entry("!!!", "https://docs.rs/x", ""),
            entry("  ", "https://", ""),
        ],
    );
    assert_eq!(
        dump(&fresh),
        [
            "hello-world=https://a.example/1",
            "example.com=https://www.example.com/page",
            "docs.rs=https://docs.rs/x",
            "bookmark=https://",
        ]
    );

    // A taken plain key is qualified by the folder chain, then numbered;
    // existing keys are never returned.
    let existing = table(&[("github", "x"), ("dev-tools-github", "y")]);
    let fresh = plan(
        &existing,
        &[
            entry("GitHub", "https://github.com/a", "Dev Tools"),
            entry("GitHub", "https://github.com/b", ""),
        ],
    );
    assert_eq!(
        dump(&fresh),
        [
            "github-2=https://github.com/a",
            "github-3=https://github.com/b"
        ]
    );
    assert!(fresh.iter().all(|(k, _)| !existing.contains_key(k)));

    let one = plan(
        &table(&[("github", "x")]),
        &[entry("GitHub", "u", "Dev Tools")],
    );
    assert_eq!(dump(&one), ["dev-tools-github=u"]);

    // A bookmark whose URL is already registered under another key is done.
    let none = plan(
        &table(&[("baidu", "https://www.baidu.com")]),
        &[entry("Baidu", "https://www.baidu.com", "Search")],
    );
    assert!(none.is_empty(), "same URL, nothing to add: {none:?}");
}

#[test]
fn merge_into_never_overwrites_and_only_adds_missing_keys() {
    let mut aliases = alias::defaults();
    let fresh = [("x".to_string(), "https://x.example".to_string())];
    assert_eq!(merge_into(&mut aliases, "br", &fresh).unwrap(), 1);
    assert_eq!(aliases.len(), 3, "edited in place, no copy appears");
    let br = aliases.iter().find(|d| d.name == "br").unwrap();
    assert_eq!(
        br.linux.as_deref(),
        Some("xdg-open {input} >/dev/null 2>&1 &")
    );
    let rows: Vec<String> = br
        .shortcuts
        .keys()
        .iter()
        .map(|k| format!("{k}={}", br.shortcuts.get(k).unwrap()))
        .collect();
    assert_eq!(
        rows,
        [
            "baidu=https://www.baidu.com",
            "gm=https://mail.google.com",
            "x=https://x.example",
        ]
    );

    let overwrite = [("x".to_string(), "https://other.example".to_string())];
    assert_eq!(merge_into(&mut aliases, "br", &overwrite).unwrap(), 0);
    assert_eq!(
        aliases
            .iter()
            .find(|d| d.name == "br")
            .unwrap()
            .shortcuts
            .get("x")
            .map(String::as_str),
        Some("https://x.example")
    );
    assert_eq!(aliases.len(), 3, "existing entries stay in place");
    assert_eq!(
        merge_into(&mut aliases, "ghost", &fresh).unwrap_err(),
        "alias not found: ghost"
    );
    assert_eq!(aliases.len(), 3, "a missing target changes nothing");
}

#[test]
fn parse_and_load_edge_cases() {
    assert!(parse("{}").unwrap().is_empty());
    assert!(parse(r#"{"roots": []}"#).unwrap().is_empty());
    assert!(parse("nope").unwrap_err().starts_with("invalid bookmarks"));

    let children: Vec<String> = (0..MAX_IMPORT + 5)
        .map(|i| format!(r#"{{"type": "url", "name": "t{i}", "url": "https://e.example/{i}"}}"#))
        .collect();
    let tree = format!(
        r#"{{"roots": {{"bar": {{"type": "folder", "children": [{}]}}}}}}"#,
        children.join(",")
    );
    assert_eq!(parse(&tree).unwrap().len(), MAX_IMPORT);
}

#[test]
fn plan_and_merge_is_re_runnable() {
    let mut aliases = alias::defaults();
    assert_eq!(merge_bookmarks(&mut aliases, "br", TREE).unwrap(), 7);
    let br = aliases.iter().find(|d| d.name == "br").unwrap();
    assert_eq!(
        br.shortcuts.get("rust").map(String::as_str),
        Some("https://www.rust-lang.org/")
    );
    assert_eq!(
        br.shortcuts.get("bad-title-2").map(String::as_str),
        Some("https://example.org/b")
    );
    let after_first = br.shortcuts.len();

    assert_eq!(merge_bookmarks(&mut aliases, "br", TREE).unwrap(), 0);
    assert_eq!(
        aliases
            .iter()
            .find(|d| d.name == "br")
            .unwrap()
            .shortcuts
            .len(),
        after_first,
        "re-runs add nothing"
    );
    assert_eq!(
        merge_bookmarks(&mut aliases, "ghost", TREE).unwrap_err(),
        "alias not found: ghost"
    );
}

#[test]
fn slugs_fold_runs_and_trim_dashes() {
    assert_eq!(slug("Hello, World!"), "hello-world");
    assert_eq!(slug("--A..b__C--"), "a..b__c");
    assert_eq!(slug("x.!y"), "x.y", "no dash right after a dot");
    assert_eq!(slug("日本"), "");
}

#[test]
fn hosts_drop_user_port_and_www() {
    let fresh = plan(
        &ShortcutMap::new(),
        &[
            entry("", "https://user@www.Example.com:8080/p?q", ""),
            entry("", "http://[::1]/x", ""),
            entry("", "notaurl", ""),
        ],
    );
    assert_eq!(
        dump(&fresh),
        [
            "example.com=https://user@www.Example.com:8080/p?q",
            "bookmark=http://[::1]/x",
            "bookmark-2=notaurl",
        ]
    );
}

#[test]
fn folders_join_with_slashes_and_skip_blank_names() {
    let tree = r#"{"roots": {"a": {"children": [
        {"type": "folder", "name": " Top ", "children": [
          {"type": "folder", "name": "  ", "children": [
            {"type": "url", "name": "X", "url": " HTTPS://x.example "}]}]}]}}}"#;
    let got = parse(tree).unwrap();
    assert_eq!(got, vec![entry("X", "HTTPS://x.example", "Top")]);
}

#[test]
fn merge_into_counts_only_new_keys() {
    let mut aliases = alias::defaults();
    let fresh = [
        ("a".to_string(), "1".to_string()),
        ("a".to_string(), "2".to_string()),
        ("baidu".to_string(), "3".to_string()),
    ];
    assert_eq!(merge_into(&mut aliases, "br", &fresh).unwrap(), 1);
    let br = aliases.iter().find(|d| d.name == "br").unwrap();
    assert_eq!(br.shortcuts.get("a").map(String::as_str), Some("1"));
    assert_eq!(br.shortcuts.get("baidu").map(String::as_str), Some("https://www.baidu.com"));
}

#[test]
fn profile_order_puts_default_first_then_names() {
    let names: Vec<String> = ["Zed", "Alpha", "Default", "NoFile"]
        .iter()
        .map(|s| s.to_string())
        .collect();
    assert_eq!(profile_order(names), ["Default", "Alpha", "NoFile", "Zed"]);
    assert!(profile_order(Vec::new()).is_empty());
}
