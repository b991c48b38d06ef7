use xconsoler::fit_tmux::{
    enable_args, option_args, outer_request, outer_rows, owns_window, parse_sizes, passthrough,
    restore_args, session, size_query_args,
};

#[test]
fn only_a_tmux_pane_is_a_session() {
    assert_eq!(session(None, Some("%3")), None, "no TMUX: not in tmux");
    assert_eq!(session(Some(""), Some("%3")), None, "empty TMUX");
    assert_eq!(session(Some("  "), Some("%3")), None);
    assert_eq!(
        session(Some("/tmp/tmux-0/default,1,0"), None),
        Some(String::new())
    );
    assert_eq!(
        session(Some("/tmp/tmux-0/default,1,0"), Some("%7")),
        Some("%7".to_string())
    );
}

#[test]
fn passthrough_doubles_escapes() {
    assert_eq!(
        passthrough("\x1b[8;4;80t"),
        "\x1bPtmux;\x1b\x1b[8;4;80t\x1b\\"
    );
    // Plain text needs no doubling, and both payload escapes must be.
    assert_eq!(passthrough("ab"), "\x1bPtmux;ab\x1b\\");
    assert_eq!(
        passthrough("\x1ba\x1b"),
        "\x1bPtmux;\x1b\x1ba\x1b\x1b\x1b\\"
    );
}

#[test]
fn sizes_parse_or_not() {
    assert_eq!(parse_sizes("24 23 23"), Some((24, 23, 23)));
    assert_eq!(parse_sizes(" 4 3 3 \n"), Some((4, 3, 3)));
    assert_eq!(parse_sizes(""), None, "detached client");
    assert_eq!(parse_sizes("24 23"), None, "missing window height");
    assert_eq!(parse_sizes("? 23 23"), None);
}

#[test]
fn only_a_full_height_pane_owns_the_window() {
    assert!(owns_window(23, 23));
    assert!(!owns_window(11, 23), "a split shares the height");
}

#[test]
fn outer_rows_adds_tmux_chrome() {
    assert_eq!(outer_rows(4, 24, 23), 5, "one status row");
    assert_eq!(outer_rows(16, 24, 23), 17);
    assert_eq!(outer_rows(4, 24, 24), 4, "status off");
    assert_eq!(outer_rows(4, 23, 24), 4, "garbage never underflows");
}

#[test]
fn sizes_parse_with_a_plus_sign_and_ignore_extra_words() {
    assert_eq!(parse_sizes("+24 23 23 extra"), Some((24, 23, 23)));
    assert_eq!(parse_sizes("70000 1 1"), None, "out of u16 range");
    assert_eq!(parse_sizes("-1 1 1"), None);
}

#[test]
fn outer_request_needs_a_full_height_pane() {
    assert_eq!(outer_request(Some((24, 23, 23)), 4), Some(5));
    assert_eq!(outer_request(Some((24, 11, 23)), 4), None, "split");
    assert_eq!(outer_request(Some((24, 0, 0)), 4), None, "empty pane");
    assert_eq!(outer_request(None, 4), None);
    assert_eq!(outer_rows(u16::MAX, 30, 1), u16::MAX, "saturates");
}

#[test]
fn tmux_argv_targets_the_pane_when_known() {
    assert_eq!(
        size_query_args("%3"),
        ["display-message", "-p", "-t", "%3", "#{client_height} #{pane_height} #{window_height}"]
            .map(str::to_string)
    );
    assert_eq!(
        option_args("", "allow-passthrough"),
        ["show-options", "-wv", "-A", "allow-passthrough"].map(str::to_string)
    );
    assert_eq!(
        enable_args("%3"),
        ["set-option", "-w", "-t", "%3", "allow-passthrough", "on"].map(str::to_string)
    );
    assert_eq!(restore_args("%3", None), None);
    assert_eq!(
        restore_args("%3", Some("")),
        Some(["set-option", "-uw", "-t", "%3", "allow-passthrough"].map(str::to_string).to_vec())
    );
    assert_eq!(
        restore_args("", Some("off")),
        Some(["set-option", "-w", "allow-passthrough", "off"].map(str::to_string).to_vec())
    );
}
