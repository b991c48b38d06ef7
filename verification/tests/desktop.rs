use xconsoler::launch::desktop::{
    best, field, flag, keys, launchable, normalize_locale, parse_with_locale, score, Entry,
};

/// A small reading table: each group lists the characters with a reading
/// that starts with its letter.
const TABLE: &[(char, &str)] = &[
    ('b', "备"),
    ('c', "窗"),
    ('d', "调"),
    ('g', "管"),
    ('j', "件"),
    ('k', "口"),
    ('l', "录理"),
    ('q', "器"),
    ('t', "调"),
    ('w', "微文忘"),
    ('x', "小信詳細"),
];

/// One entry with an explicit names list: the first name is the label.
fn entry(id: &str, names: &[&str], exec: &str, keywords: &[&str]) -> Entry {
    Entry {
        id: id.to_string(),
        path: format!("/apps/{id}.desktop"),
        name: names.first().copied().unwrap_or(id).to_string(),
        names: names.iter().map(|name| name.to_string()).collect(),
        command: Some(exec.to_string()),
        keywords: keywords.iter().map(|k| k.to_string()).collect(),
        no_display: false,
    }
}

fn has(keys: &[String], key: &str) -> bool {
    keys.iter().any(|k| k == key)
}

const WECHAT: &str = "\
[Desktop Entry]
Name=WeChat
Name[zh_CN]=微信
Comment=chat
Exec=/opt/wechat/wechat %U
Keywords=IM;Chat;
NoDisplay=false
";

#[test]
fn parse_reads_the_main_group_and_localized_names() {
    let path = "/usr/share/applications/wechat.desktop";
    let e = parse_with_locale(WECHAT, "wechat", path, Some("zh_CN"));
    assert_eq!(e.id, "wechat");
    assert_eq!(e.path, path);
    assert_eq!(e.name, "微信", "the locale-specific name is the label");
    assert_eq!(
        e.names,
        vec!["微信".to_string(), "WeChat".to_string()],
        "the label comes first, then the plain name"
    );
    assert_eq!(e.command.as_deref(), Some("/opt/wechat/wechat %U"));
    assert_eq!(e.keywords, vec!["IM".to_string(), "Chat".to_string()]);
    assert!(!e.no_display);
}

#[test]
fn parse_accepts_a_language_only_translation() {
    let text = "[Desktop Entry]\nName=WeChat\nName[zh]=微信\nExec=wechat\n";
    let e = parse_with_locale(text, "wechat", "/w.desktop", Some("zh_CN"));
    assert_eq!(
        e.name, "微信",
        "zh_CN falls back to the bare zh translation"
    );
    assert_eq!(e.names, vec!["微信".to_string(), "WeChat".to_string()]);
    let plain = parse_with_locale(text, "wechat", "/w.desktop", Some("de_DE"));
    assert_eq!(
        plain.name, "WeChat",
        "an unrelated locale keeps the plain name"
    );
    assert_eq!(plain.names, vec!["WeChat".to_string()]);
}

#[test]
fn parse_falls_back_to_the_plain_name_then_the_id() {
    let path = "/x.desktop";
    assert_eq!(
        parse_with_locale(WECHAT, "wechat", path, None).name,
        "WeChat"
    );
    assert_eq!(
        parse_with_locale(WECHAT, "wechat", path, Some("de_DE")).name,
        "WeChat",
        "an untranslated locale keeps the plain name"
    );
    let no_name = "[Desktop Entry]\nExec=app %F\n";
    assert_eq!(parse_with_locale(no_name, "app-id", path, None).name, "app-id");
}

#[test]
fn parse_flags_hidden_and_no_display_and_keeps_field_codes_raw() {
    let hidden = "[Desktop Entry]\nName=X\nExec=x\nHidden=true\nNoDisplay=false\n";
    assert!(parse_with_locale(hidden, "x", "/x.desktop", None).no_display);
    let menu_hidden = "[Desktop Entry]\nName=X\nExec=x\nNoDisplay=True\n";
    assert!(parse_with_locale(menu_hidden, "x", "/x.desktop", None).no_display);
    let visible = parse_with_locale(WECHAT, "wechat", "/w.desktop", None);
    assert!(
        visible.command.unwrap().contains("%U"),
        "field codes stay for the launcher to strip"
    );
}

#[test]
fn parse_ignores_desktop_action_groups() {
    let text = "\
[Desktop Entry]
Name=Main
Exec=main
[Desktop Action new]
Name=New Window
Exec=main --new
";
    let e = parse_with_locale(text, "main", "/m.desktop", None);
    assert_eq!(e.names, vec!["Main".to_string()]);
    assert_eq!(e.command.as_deref(), Some("main"));
}

#[test]
fn normalize_locale_strips_codeset_and_modifier() {
    assert_eq!(normalize_locale("zh_CN.UTF-8"), Some("zh_CN".to_string()));
    assert_eq!(normalize_locale("de_DE@euro"), Some("de_DE".to_string()));
    assert_eq!(normalize_locale(" en_US "), Some("en_US".to_string()));
    assert_eq!(normalize_locale("C"), None);
    assert_eq!(normalize_locale("POSIX"), None);
    assert_eq!(normalize_locale(""), None);
}

#[test]
fn field_flag_and_launchable_read_the_main_group_only() {
    let text = "# comment\n[Desktop Entry]\nName = Main \nExec=\nDBusActivatable=TRUE\n[Desktop Action x]\nExec=other\n";
    assert_eq!(field(text, "Name").as_deref(), Some("Main"));
    assert_eq!(field(text, "Exec").as_deref(), Some(""));
    assert!(flag(text, "DBusActivatable"));
    assert!(launchable(text), "dbus activation is enough");
    let dead = "[Desktop Entry]\nName=Dead\nExec=  \n";
    assert!(!launchable(dead));
    assert!(launchable("[Desktop Entry]\nExec=run\n"));
}

#[test]
fn keywords_follow_the_locale_and_skip_empty_words() {
    let text = "[Desktop Entry]\nName=X\nKeywords= a ; ;b;\nKeywords[de]=nein;\nKeywords[zh]=是;\n";
    let e = parse_with_locale(text, "x", "/x.desktop", Some("zh_CN"));
    assert_eq!(e.keywords, vec!["a".to_string(), "b".to_string(), "是".to_string()]);
    assert_eq!(e.names, vec!["X".to_string()]);
}

#[test]
fn parse_keeps_only_the_users_own_translations() {
    let text = "\
[Desktop Entry]
Name=Window Manager Tweaks
Name[de]=Feineinstellungen der Fensterverwaltung
Name[ja]=ウィンドウマネージャー (詳細)
Name[zh_CN]=窗口管理器微调
Keywords[de]=fenster;
Keywords[ja]=ウィンドウ;
Keywords[zh_CN]=窗口;行为;
Exec=xfwm4-tweaks-settings
";
    let e = parse_with_locale(text, "xfce-wmtweaks-settings", "/x.desktop", Some("zh_CN"));
    assert_eq!(e.name, "窗口管理器微调");
    assert_eq!(
        e.names,
        vec!["窗口管理器微调".to_string(), "Window Manager Tweaks".to_string()]
    );
    assert_eq!(e.keywords, vec!["窗口".to_string(), "行为".to_string()]);
    let keys = keys(TABLE, &e);
    assert!(
        !has(&keys, "xx"),
        "the Japanese 詳細 would spell xx and hide 小小备忘录: {keys:?}"
    );
    assert!(!has(&keys, "feineinstellungenderfensterverwaltung"));
    assert!(has(&keys, "ckglqwd"), "窗口管理器微调 still spells itself");
}

#[test]
fn keys_cover_names_words_acronyms_keywords_and_the_executable() {
    let wechat = entry("wechat", &["WeChat", "微信"], "/opt/wechat/wechat %U", &["IM", "Chat"]);
    let keys = keys(TABLE, &wechat);
    for key in ["wechat", "微信", "wx", "im", "chat"] {
        assert!(has(&keys, key), "missing key {key:?} in {keys:?}");
    }
    assert_eq!(
        keys.iter().filter(|k| *k == "wechat").count(),
        1,
        "id, name and exec base name collapse into one key"
    );
}

#[test]
fn keys_split_names_on_punctuation_and_remove_separators() {
    let chrome = entry("google-chrome", &["Google Chrome"], "/usr/bin/google-chrome-stable %U", &[]);
    let keys = keys(TABLE, &chrome);
    for key in ["google chrome", "googlechrome", "google", "chrome"] {
        assert!(has(&keys, key), "missing key {key:?} in {keys:?}");
    }
    assert!(
        has(&keys, "google-chrome-stable"),
        "the executable's base name is a key: {keys:?}"
    );
}

#[test]
fn keys_keep_vendor_ids_and_their_segments() {
    let files = entry("org.gnome.Nautilus", &["Files"], "/usr/bin/nautilus %U", &[]);
    let keys = keys(TABLE, &files);
    for key in ["org.gnome.nautilus", "org", "gnome", "nautilus", "files"] {
        assert!(has(&keys, key), "missing key {key:?} in {keys:?}");
    }
}

#[test]
fn keys_come_in_the_order_they_are_offered() {
    let files = entry("org.gnome.Nautilus", &["Files"], "/usr/bin/nautilus %U", &["File;Manager"]);
    let got = keys(TABLE, &files);
    let want: Vec<String> = [
        "org.gnome.nautilus",
        "org",
        "gnome",
        "nautilus",
        "files",
        "file;manager",
        "file",
        "manager",
    ]
    .iter()
    .map(|k| k.to_string())
    .collect();
    assert_eq!(got, want);
}

#[test]
fn score_ranks_exact_over_prefix_over_substring() {
    let chrome = entry("google-chrome", &["Google Chrome"], "/usr/bin/google-chrome-stable %U", &[]);
    assert_eq!(score(TABLE, &chrome, "chrome"), 4, "a whole name word is exact");
    assert_eq!(score(TABLE, &chrome, "googl"), 3, "prefix of google");
    assert_eq!(score(TABLE, &chrome, "goo"), 3, "two-letter tokens may prefix");
    assert_eq!(score(TABLE, &chrome, "chrom"), 3);
    assert_eq!(score(TABLE, &chrome, "oogle"), 2, "substring, not a prefix");
    assert_eq!(score(TABLE, &chrome, "g"), 0, "one-letter keys never match");
    assert_eq!(score(TABLE, &chrome, "zzz"), 0);
}

#[test]
fn score_reaches_pinyin_initials() {
    let files = entry("dolphin", &["文件管理器"], "/usr/bin/dolphin %U", &[]);
    assert_eq!(score(TABLE, &files, "wjglq"), 4, "the acronym is a key of its own");
    assert_eq!(score(TABLE, &files, "wjg"), 3, "a partial acronym still prefixes");
    let memo = entry("electron-memo", &["小小备忘录"], "/usr/bin/electron-memo %U", &[]);
    assert_eq!(score(TABLE, &memo, "xx"), 3, "prefix of the xxbwl acronym");
    assert_eq!(score(TABLE, &memo, "xxbwl"), 4);
    assert_eq!(score(TABLE, &memo, "memo"), 2, "the id's tail is a substring");
}

#[test]
fn score_folds_case_and_whitespace_runs() {
    let chrome = entry("google-chrome", &["Google Chrome"], "/usr/bin/google-chrome-stable %U", &[]);
    assert_eq!(score(TABLE, &chrome, "  GOOGLE   chrome "), 5);
    assert_eq!(score(TABLE, &chrome, "zzqq"), 0, "no key carries that");
    assert_eq!(score(TABLE, &chrome, ""), 0);
}

#[test]
fn score_of_a_long_key_prefixing_the_token() {
    let chrome = entry("google-chrome", &["Google Chrome"], "/usr/bin/google-chrome-stable %U", &[]);
    assert_eq!(score(TABLE, &chrome, "googles"), 3, "the key google prefixes the token");
}

#[test]
fn best_returns_the_top_scoring_group_with_visible_entries_first() {
    let mut hidden = entry("dash", &["Chrome"], "/dash", &[]);
    hidden.no_display = true;
    let visible = entry("chrome", &["Chrome"], "/chrome", &[]);
    let entries = vec![hidden, visible];

    let top = best(TABLE, &entries, "chrome");
    assert_eq!(top.len(), 2, "both match equally well");
    assert_eq!(top[0].id, "chrome", "the visible entry leads");
    assert_eq!(top[1].id, "dash", "a NoDisplay entry is still launchable");
    assert!(best(TABLE, &entries, "ff").is_empty(), "nothing scores, nothing out");
    assert!(best(TABLE, &entries, "  ").is_empty(), "empty input matches nothing");
}

#[test]
fn best_lets_a_whole_name_outrank_an_acronym() {
    let by_name = entry("wx", &["Wx"], "/wx", &[]);
    let by_pinyin = entry("wechat", &["微信"], "/wechat", &[]);
    let entries = vec![by_name, by_pinyin];
    assert_eq!(score(TABLE, &entries[0], "wx"), 5);
    assert_eq!(score(TABLE, &entries[1], "wx"), 4);
    let top = best(TABLE, &entries, "wx");
    assert_eq!(top.len(), 1);
    assert_eq!(top[0].id, "wx");
}

#[test]
fn best_keeps_ties_from_different_key_sources_in_one_group() {
    let one = entry("one", &["Wx One"], "/one", &[]);
    let two = entry("two", &["Wx Two"], "/two", &[]);
    let entries = vec![one, two];
    let top = best(TABLE, &entries, "wx");
    assert_eq!(top.len(), 2, "both answer wx exactly; the caller decides");
}

#[test]
fn best_sorts_by_label_then_id() {
    let all = vec![
        entry("zeta", &["Same"], "/z", &[]),
        entry("alpha", &["same"], "/a", &[]),
        entry("mid", &["Other"], "/m", &[]),
    ];
    let ids: Vec<&str> = best(TABLE, &all, "same").iter().map(|e| e.id.as_str()).collect();
    assert_eq!(ids, vec!["alpha", "zeta"], "equal labels fall back to the id");
}
