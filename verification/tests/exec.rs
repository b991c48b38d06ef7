use xconsoler::alias::AliasDef;
use xconsoler::clipboard;
use xconsoler::exec::{backgrounds, bg_probe, resolve_shortcuts, shell_quote, uses_native_clipboard};
use xconsoler::platform::Platform;
use xconsoler::shortcuts::ShortcutMap;

fn def(name: &str, linux: &str) -> AliasDef {
    AliasDef {
        name: name.to_string(),
        triggers: vec![],
        linux: Some(linux.to_string()),
        macos: None,
        shortcuts: ShortcutMap::new(),
    }
}

fn def_both(name: &str, linux: Option<&str>, macos: Option<&str>) -> AliasDef {
    AliasDef {
        name: name.to_string(),
        triggers: vec![],
        linux: linux.map(str::to_string),
        macos: macos.map(str::to_string),
        shortcuts: ShortcutMap::new(),
    }
}

#[test]
fn quote_wraps_in_single_quotes() {
    assert_eq!(shell_quote("abc"), "'abc'");
    assert_eq!(shell_quote(""), "''");
    assert_eq!(shell_quote("it's"), "'it'\\''s'");
    assert_eq!(shell_quote("a b'c"), "'a b'\\''c'");
}

fn def_with_shortcuts(name: &str, linux: &str, args: &[(&str, &str)]) -> AliasDef {
    let mut d = def(name, linux);
    for (k, v) in args {
        d.shortcuts.insert(k.to_string(), v.to_string());
    }
    d
}

#[test]
fn resolve_shortcuts_without_args_returns_trimmed_rest() {
    let d = def("t", "printf %s {input}");
    assert_eq!(resolve_shortcuts(&d, "hello world"), "hello world");
    assert_eq!(resolve_shortcuts(&d, "  spaced  "), "spaced");
}

#[test]
fn resolve_shortcuts_replaces_matching_key() {
    let d = def_with_shortcuts(
        "br",
        "xdg-open {input}",
        &[("baidu", "https://www.baidu.com")],
    );
    assert_eq!(resolve_shortcuts(&d, "baidu"), "https://www.baidu.com");
    // surrounding whitespace is trimmed before the lookup
    assert_eq!(
        resolve_shortcuts(&d, "   baidu   "),
        "https://www.baidu.com"
    );
}

#[test]
fn resolve_shortcuts_appends_remaining_tokens_after_value() {
    let d = def_with_shortcuts(
        "br",
        "xdg-open {input}",
        &[("baidu", "https://www.baidu.com")],
    );
    assert_eq!(
        resolve_shortcuts(&d, "baidu extra tokens"),
        "https://www.baidu.com extra tokens"
    );
}

#[test]
fn resolve_shortcuts_keeps_unmatched_first_token() {
    let d = def_with_shortcuts(
        "br",
        "xdg-open {input}",
        &[("baidu", "https://www.baidu.com")],
    );
    assert_eq!(
        resolve_shortcuts(&d, "google.com search"),
        "google.com search"
    );
}

#[test]
fn resolve_shortcuts_empty_rest_stays_empty() {
    let d = def_with_shortcuts(
        "br",
        "xdg-open {input}",
        &[("baidu", "https://www.baidu.com")],
    );
    assert_eq!(resolve_shortcuts(&d, ""), "");
    assert_eq!(resolve_shortcuts(&d, "   "), "");
}

#[test]
fn resolve_shortcuts_value_may_contain_spaces() {
    let d = def_with_shortcuts("run", "sh -c {input}", &[("here", "cd /tmp && ls")]);
    assert_eq!(resolve_shortcuts(&d, "here -la"), "cd /tmp && ls -la");
    assert_eq!(resolve_shortcuts(&d, "here"), "cd /tmp && ls");
}

#[test]
fn resolve_shortcuts_ignores_whitespace_only_value() {
    // a blank mapping would silently eat the input; treat it as no match
    let d = def_with_shortcuts("t", "printf %s {input}", &[("blank", "   ")]);
    assert_eq!(resolve_shortcuts(&d, "blank tail"), "blank tail");
}

#[test]
fn uses_native_clipboard_detects_native_templates_and_fallbacks() {
    // Both platforms native.
    let both = def_both("cd", Some(clipboard::TEMPLATE), Some(clipboard::TEMPLATE));
    assert!(uses_native_clipboard(&both, Platform::Linux));
    assert!(uses_native_clipboard(&both, Platform::Macos));

    // Linux blank: the linux run falls back to the native macOS command.
    let fallback = def_both("cd", Some(""), Some(clipboard::TEMPLATE));
    assert!(uses_native_clipboard(&fallback, Platform::Linux));
    assert!(uses_native_clipboard(&fallback, Platform::Macos));
}

#[test]
fn uses_native_clipboard_is_false_for_shell_and_blank_defs() {
    let shell = def("br", "xdg-open {input}");
    assert!(!uses_native_clipboard(&shell, Platform::Linux));
    // macOS falls back to the shell command, which is not native either.
    assert!(!uses_native_clipboard(&shell, Platform::Macos));

    let both_blank = def_both("x", Some("   "), None);
    assert!(!uses_native_clipboard(&both_blank, Platform::Linux));
    assert!(!uses_native_clipboard(&both_blank, Platform::Macos));
}

#[test]
fn backgrounds_only_accepts_a_single_trailing_ampersand() {
    assert!(backgrounds("firefox {input} &"));
    assert!(backgrounds("firefox {input} >/dev/null 2>&1 &  "));
    assert!(!backgrounds("firefox {input}"));
    assert!(!backgrounds("test -n {input} && firefox"));
    assert!(!backgrounds("echo \"a &\""));
}

#[test]
fn the_probe_command_has_no_stray_whitespace() {
    let probe = bg_probe("0.5");
    let expected = [
        "p=$!; if [ -z \"$p\" ]; then exit 0; fi; ",
        "trap 'exit 125' TERM; ",
        "( sleep 0.5; kill -TERM $$ ) & w=$!; ",
        "wait \"$p\"; rc=$?; ",
        "kill -9 \"$w\" 2>/dev/null; wait \"$w\" 2>/dev/null; exit \"$rc\"",
    ]
    .concat();
    assert_eq!(probe, expected);
    assert!(!probe.contains("  "), "stray double space in {probe:?}");
}
