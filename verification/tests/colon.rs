use xconsoler::colon::{parse, AliasOp};

#[test]
fn parse_add_both_platforms() {
    let op = parse("add myalias,ma echo {input} // say {input}")
        .unwrap()
        .unwrap();
    match op {
        AliasOp::Add(def) => {
            assert_eq!(def.name, "myalias");
            assert_eq!(def.triggers, vec!["ma".to_string()]);
            assert_eq!(def.linux.as_deref(), Some("echo {input}"));
            assert_eq!(def.macos.as_deref(), Some("say {input}"));
        }
        other => panic!("expected Add, got {other:?}"),
    }
}

#[test]
fn parse_add_linux_only_and_dash_skip() {
    match parse("add only-one xdg-open {input}").unwrap().unwrap() {
        AliasOp::Add(d) => {
            assert_eq!(d.linux.as_deref(), Some("xdg-open {input}"));
            assert_eq!(d.macos, None);
        }
        other => panic!("expected Add, got {other:?}"),
    }
    match parse("add skip - // open {input}").unwrap().unwrap() {
        AliasOp::Add(d) => {
            assert_eq!(d.linux, None);
            assert_eq!(d.macos.as_deref(), Some("open {input}"));
        }
        other => panic!("expected Add, got {other:?}"),
    }
}

#[test]
fn parse_del() {
    match parse("del t").unwrap().unwrap() {
        AliasOp::Remove(name) => assert_eq!(name, "t"),
        other => panic!("expected Remove, got {other:?}"),
    }
    assert!(parse("del").is_err());
    assert!(parse("del a b").is_err());
}

#[test]
fn parse_help_and_unknown_return_none() {
    assert_eq!(parse("help").unwrap(), None);
    assert_eq!(parse("").unwrap(), None);
    assert_eq!(parse("   ").unwrap(), None);
    assert_eq!(parse("frobnicate x y").unwrap(), None);
}

#[test]
fn parse_shortcut_keeps_value_spacing() {
    match parse("arg br baidu https://www.baidu.com")
        .unwrap()
        .unwrap()
    {
        AliasOp::SetShortcut { name, key, value } => {
            assert_eq!(name, "br");
            assert_eq!(key, "baidu");
            assert_eq!(value, "https://www.baidu.com");
        }
        other => panic!("expected SetShortcut, got {other:?}"),
    }
    // the value is the raw remainder: internal spacing survives
    match parse("arg  t   here   cd /tmp  &&   ls ").unwrap().unwrap() {
        AliasOp::SetShortcut { value, .. } => assert_eq!(value, "cd /tmp  &&   ls"),
        other => panic!("expected SetShortcut, got {other:?}"),
    }
}

#[test]
fn parse_shortcut_requires_three_parts() {
    assert!(parse("arg").is_err());
    assert!(parse("arg br").is_err());
    assert!(parse("arg br baidu").is_err());
}

#[test]
fn parse_unshortcut() {
    match parse("unarg br baidu").unwrap().unwrap() {
        AliasOp::DelShortcut { name, key } => {
            assert_eq!(name, "br");
            assert_eq!(key, "baidu");
        }
        other => panic!("expected DelShortcut, got {other:?}"),
    }
    assert!(parse("unarg br").is_err());
    assert!(parse("unarg a b c").is_err());
}

#[test]
fn parse_shortcut_synonyms_map_to_the_same_ops() {
    let cmd = |line: &str| parse(line).unwrap();
    assert_eq!(cmd("shortcut t tt value"), cmd("arg t tt value"));
    assert_eq!(cmd("unshortcut t tt"), cmd("unarg t tt"));
}

#[test]
fn parse_add_errors() {
    assert!(parse("add").is_err()); // no arguments at all
    assert!(parse("add bad!name echo").is_err()); // invalid name char
    assert!(parse("add x,b@d! echo").is_err()); // invalid shortcut char
    assert!(parse("add ,x echo").is_err()); // empty name
    assert!(parse("add x - // -").is_err()); // both sides skipped
    assert!(parse("add x").is_err()); // no command at all
    assert!(parse("add x a // b // c").is_err()); // too many separators
}

#[test]
fn parse_import_chrome_default_and_target() {
    assert_eq!(
        parse("import-chrome").unwrap(),
        Some(AliasOp::ImportChrome { target: None })
    );
    assert_eq!(
        parse("import-chrome browser").unwrap(),
        Some(AliasOp::ImportChrome {
            target: Some("browser".to_string())
        })
    );
}

#[test]
fn parse_import_chrome_rejects_bad_targets() {
    assert_eq!(
        parse("import-chrome bad!name").unwrap_err(),
        "invalid alias name: bad!name"
    );
    assert_eq!(
        parse("import-chrome a b").unwrap_err(),
        "usage: import-chrome [alias]"
    );
}

#[test]
fn sub_commands_are_case_insensitive() {
    assert_eq!(parse("DEL t").unwrap(), Some(AliasOp::Remove("t".to_string())));
    assert_eq!(
        parse("  Unarg br gm ").unwrap(),
        Some(AliasOp::DelShortcut { name: "br".to_string(), key: "gm".to_string() })
    );
}

#[test]
fn add_error_messages_name_the_problem() {
    assert_eq!(
        parse("add").unwrap_err(),
        "usage: add <name>[,<trigger>...] <linux-cmd> // <macos-cmd>"
    );
    assert_eq!(parse("add bad!name echo").unwrap_err(), "invalid alias name: bad!name");
    assert_eq!(parse("add x,,y echo").unwrap_err(), "invalid trigger: ");
    assert_eq!(parse("add ,x echo").unwrap_err(), "alias name cannot be empty");
    assert_eq!(parse("add x a // b // c").unwrap_err(), "too many // separators");
    assert_eq!(
        parse("add x - // -").unwrap_err(),
        "no command given ('-' skips one platform, not both)"
    );
}

#[test]
fn add_rejoins_command_words_with_single_spaces() {
    match parse("add  t,u,v   echo    {input}   //   say  hi ").unwrap().unwrap() {
        AliasOp::Add(d) => {
            assert_eq!(d.triggers, vec!["u".to_string(), "v".to_string()]);
            assert_eq!(d.linux.as_deref(), Some("echo {input}"));
            assert_eq!(d.macos.as_deref(), Some("say hi"));
            assert!(d.shortcuts.is_empty());
        }
        other => panic!("expected Add, got {other:?}"),
    }
}

#[test]
fn arg_after_a_wide_space_finds_no_value() {
    // the word after `arg` is dropped by byte length: a multi-byte space
    // right after it leaves nothing to parse
    assert_eq!(
        parse("arg\u{3000}br k v").unwrap_err(),
        "usage: arg <name> <key> <value...>"
    );
    // an ASCII tab works like a space
    assert_eq!(
        parse("arg\tbr k v  w").unwrap(),
        Some(AliasOp::SetShortcut {
            name: "br".to_string(),
            key: "k".to_string(),
            value: "v  w".to_string()
        })
    );
}
