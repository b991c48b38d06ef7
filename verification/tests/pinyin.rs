use xconsoler::launch::pinyin::{acronyms, initial_mask, initials, MAX_VARIANTS};

/// A small reading table: each group lists the characters with a reading
/// that starts with its letter.
const TABLE: &[(char, &str)] = &[
    ('a', "安"),
    ('b', "备備板百"),
    ('c', "词重除"),
    ('d', "度"),
    ('e', "二"),
    ('g', "管"),
    ('j', "件剪"),
    ('l', "录錄理乐"),
    ('m', "媒"),
    ('p', "盘"),
    ('q', "器庆"),
    ('s', "示式"),
    ('t', "贴體"),
    ('w', "微文忘网"),
    ('x', "迅小顯信"),
    ('y', "音乐移與"),
    ('z', "重裝置字"),
];

fn has(name: &str, acronym: &str) -> bool {
    acronyms(TABLE, name).iter().any(|variant| variant == acronym)
}

#[test]
fn ascii_passes_through_and_punctuation_adds_nothing() {
    assert_eq!(initials(TABLE, 'Q'), vec!['q']);
    assert_eq!(initials(TABLE, '7'), vec!['7']);
    assert!(initials(TABLE, ' ').is_empty());
    assert!(initials(TABLE, '★').is_empty());
    assert!(initials(TABLE, '€').is_empty());
}

#[test]
fn known_hanzi_carry_their_reading() {
    assert!(initials(TABLE, '微').contains(&'w'));
    assert!(initials(TABLE, '迅').contains(&'x'));
    assert!(initials(TABLE, '安').contains(&'a'));
    assert!(initials(TABLE, '二').contains(&'e'));
    assert!(initials(TABLE, '词').contains(&'c'));
}

#[test]
fn acronyms_spell_pinyin_initials() {
    assert!(has("小小备忘录", "xxbwl"), "{:?}", acronyms(TABLE, "小小备忘录"));
    assert!(has("文件管理器", "wjglq"), "{:?}", acronyms(TABLE, "文件管理器"));
    assert!(has("剪贴板管理器", "jtbglq"));
    assert!(has("百度网盘", "bdwp"));
}

#[test]
fn heteronyms_keep_every_reading() {
    let music = acronyms(TABLE, "音乐");
    assert!(music.contains(&"yl".to_string()), "{music:?}");
    assert!(music.contains(&"yy".to_string()), "{music:?}");
    let chongqing = acronyms(TABLE, "重庆");
    assert!(chongqing.contains(&"zq".to_string()), "{chongqing:?}");
    assert!(chongqing.contains(&"cq".to_string()), "{chongqing:?}");
}

#[test]
fn traditional_names_keep_every_character() {
    assert!(has("小小備忘錄", "xxbwl"), "{:?}", acronyms(TABLE, "小小備忘錄"));
    assert_eq!(acronyms(TABLE, "顯示器"), vec!["xsq".to_string()]);
    assert_eq!(acronyms(TABLE, "移除式裝置與媒體"), vec!["ycszzymt".to_string()]);
}

#[test]
fn spaces_split_nothing_and_ascii_mixes_in() {
    assert!(has("小小 备忘录", "xxbwl"));
    assert!(has("QQ音乐", "qqyl"));
    assert!(has("WPS 文字", "wpswz"));
}

#[test]
fn a_name_can_answer_to_several_spellings() {
    let wechat = acronyms(TABLE, "微信");
    assert!(wechat.contains(&"wx".to_string()), "{wechat:?}");
    assert!(wechat.len() < MAX_VARIANTS);
}

#[test]
fn variants_are_bounded_and_unique() {
    let ambiguous = "乐".repeat(40);
    let variants = acronyms(TABLE, &ambiguous);
    assert!(variants.len() <= MAX_VARIANTS, "{}", variants.len());
    let mut sorted = variants.clone();
    sorted.sort();
    sorted.dedup();
    assert_eq!(sorted.len(), variants.len(), "duplicates in {variants:?}");
}

#[test]
fn letters_are_dropped_for_unknown_characters() {
    assert!(acronyms(TABLE, "★☆").is_empty());
    assert_eq!(acronyms(TABLE, "海"), Vec::<String>::new());
}

#[test]
fn the_mask_sets_one_bit_per_reading() {
    assert_eq!(initial_mask(TABLE, '乐'), (1 << 11) | (1 << 24));
    assert_eq!(initial_mask(TABLE, '海'), 0);
    assert_eq!(initial_mask(&[], '乐'), 0);
}

#[test]
fn heteronym_letters_come_in_alphabetical_order() {
    assert_eq!(initials(TABLE, '重'), vec!['c', 'z']);
    assert_eq!(acronyms(TABLE, "重庆"), vec!["cq".to_string(), "zq".to_string()]);
}

#[test]
fn one_letter_variants_are_dropped() {
    assert_eq!(acronyms(TABLE, "微"), Vec::<String>::new());
    assert_eq!(acronyms(TABLE, "Ab"), vec!["ab".to_string()]);
}

#[test]
fn variants_stop_at_the_cap() {
    // Seven two-reading characters make 128 variants; an eighth would make
    // 256, of which only the first 128 are kept.
    let eight = "乐".repeat(8);
    let variants = acronyms(TABLE, &eight);
    assert_eq!(variants.len(), MAX_VARIANTS);
    assert_eq!(variants[0], "llllllll");
}
