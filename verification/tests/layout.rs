use xconsoler::layout::{footer_height, table_height, table_offset};
use xconsoler::alias::{self, AliasDef};
use xconsoler::layout::{
    alias_cells, column_widths, form_prompt, form_title, header, hidden_hint, hint_lines,
    hint_segments, keys_hint, pad, panel_rows, segments_line, shortcut_row, status_mark,
    trigger_row, truncate,
};
use xconsoler::platform::Platform;
use xconsoler::settings_form::{new_alias, new_edit_command, new_edit_shortcut, new_shortcut};
use xconsoler::shortcuts::ShortcutMap;

#[test]
fn panel_rows_frames_only_when_border_and_a_row_fit() {
    // Roomy terminal: the whole panel, hint or status row below.
    assert_eq!(panel_rows(14, 3, 5, false), (true, 5));
    assert_eq!(panel_rows(14, 3, 5, true), (true, 5));
    // Framed layouts keep the hint row: rows = room - border - hint.
    assert_eq!(panel_rows(11, 3, 9, true), (true, 4));
    // Exactly border + one row + the message row.
    assert_eq!(panel_rows(7, 3, 9, true), (true, 1));
    // Three rows below: border + one row, the hint row drops.
    assert_eq!(panel_rows(6, 3, 9, false), (true, 1));
    // Two rows left: bare rows take both, hint row included.
    assert_eq!(panel_rows(5, 3, 9, false), (false, 2));
    assert_eq!(panel_rows(4, 3, 9, false), (false, 1));
    // A status message always keeps its row.
    assert_eq!(panel_rows(4, 3, 9, true), (false, 0));
    assert_eq!(panel_rows(3, 3, 9, false), (false, 0));
}

#[test]
fn key_hints_drop_whole_segments_on_a_narrow_bar() {
    // 52 cells: the quarter-width bar on a 1920px screen.
    let narrow = keys_hint("alt+d", 52);
    assert!(narrow.contains("alt+d hide"), "{narrow}");
    assert!(narrow.contains("Enter run"), "{narrow}");
    assert!(narrow.contains("↑↓/Tab select"), "{narrow}");
    assert!(!narrow.contains("Ctrl+C/D quit"), "{narrow}");
    assert!(narrow.chars().count() <= 52, "overflows: {narrow}");
}

#[test]
fn key_hints_keep_every_segment_on_a_wide_bar() {
    let wide = keys_hint("alt+d", 140);
    assert!(wide.contains("Ctrl+W/U edit"), "{wide}");
    assert!(wide.contains("Ctrl+C/D quit"), "{wide}");
}

#[test]
fn key_hints_never_shrink_past_the_wake_hint() {
    assert_eq!(keys_hint("alt+d", 4), " alt+d hide ");
}

#[test]
fn hidden_hint_names_the_wake_key() {
    assert_eq!(hidden_hint("ctrl+g"), " xconsoler hidden — ctrl+g wake · Ctrl+C/D quit ");
}

#[test]
fn hint_lines_pack_segments_to_the_width() {
    let segs = hint_segments();
    // narrow bar: three lines; the real window: a single line
    assert_eq!(hint_lines(52).len(), 3);
    assert_eq!(hint_lines(140).len(), 1);
    // degenerate widths still yield lines and never panic
    assert!(!hint_lines(0).is_empty());
    assert!(!hint_lines(1).is_empty());
    for width in [0usize, 1, 16, 50, 52, 78, 138, 300] {
        let lines = hint_lines(width);
        let joined = lines.join("");
        for seg in &segs {
            assert!(joined.contains(seg.as_str()), "width {width} drops {seg}");
            // no segment is ever split mid-word across two lines
            assert!(
                lines.iter().any(|l| l.contains(seg.as_str())),
                "width {width} splits {seg}"
            );
        }
        if width >= 16 {
            // 16 is the widest single segment plus its two padding spaces,
            // so every line fits; below that the widget has to clip.
            for line in &lines {
                assert!(
                    line.chars().count() <= width,
                    "width {width} renders an over-wide line: {line}"
                );
            }
        }
    }
}

#[test]
fn truncate_and_pad_helpers() {
    assert_eq!(truncate("abcdef", 4), "abc…");
    assert_eq!(truncate("abc", 8), "abc");
    assert_eq!(pad("ab", 4), "ab  ");
    assert_eq!(truncate("abc", 0), "…");
    assert_eq!(pad("abcdef", 2), "abcdef");
}

#[test]
fn wizard_titles_and_prompts() {
    let f = new_alias(Platform::Macos);
    assert_eq!(form_title(&f), "new alias (1/3)");
    assert_eq!(form_prompt(&f), "name");
    let f = new_edit_command("br", Platform::Linux, Some("xdg-open {input}"));
    assert_eq!(form_title(&f), "edit command for 'br' (1/1)");
    assert_eq!(form_prompt(&f), "linux command — use {input} where the input goes");
    let f = new_shortcut("br");
    assert_eq!(form_title(&f), "new shortcut (1/2)");
    assert_eq!(form_prompt(&f), "shortcut key for 'br' (one word)");
    let f = new_edit_shortcut("br", "gm", "https://mail.google.com");
    assert_eq!(form_title(&f), "edit shortcut br.gm (1/2)");
}

#[test]
fn table_cells_line_up_with_the_header() {
    let aliases = alias::defaults();
    let (nw, sw) = column_widths(&aliases, 80);
    assert_eq!((nw, sw), (4, 9));
    let head = header(nw, sw, 20, Platform::Linux);
    assert_eq!(head, "name  triggers   linux                 shortcuts");
    let (name, trig, cmd, count) = alias_cells(&aliases[0], nw, sw, 20, Platform::Linux);
    assert_eq!(name, "br  ");
    assert_eq!(trig, "         ");
    assert_eq!(cmd, "xdg-open {input} >/…");
    assert_eq!(count, "2");
    let (nw, sw) = column_widths(&aliases, 9);
    assert_eq!((nw, sw), (3, 2));
}

#[test]
fn a_platform_without_a_command_shows_a_dash() {
    let def = AliasDef {
        name: "m".to_string(),
        triggers: vec!["mm".to_string(), "m2".to_string()],
        linux: None,
        macos: Some("open {input}".to_string()),
        shortcuts: ShortcutMap::new(),
    };
    let (_, trig, cmd, count) = alias_cells(&def, 4, 9, 6, Platform::Linux);
    assert_eq!(trig, "mm,m2    ");
    assert_eq!(cmd, "—     ");
    assert_eq!(count, "0");
}

#[test]
fn entry_rows_fall_back_to_an_ellipsis() {
    let aliases = alias::defaults();
    assert_eq!(shortcut_row(&aliases, 0, "gm", 80), "  gm → https://mail.google.com");
    assert_eq!(shortcut_row(&aliases, 0, "nope", 80), "  nope → …");
    assert_eq!(shortcut_row(&aliases, 0, "gm", 8), "  gm → …");
    assert_eq!(trigger_row(&aliases, 9, 0, 80), "  ↳ trigger: …");
    assert_eq!(status_mark(true), "✓ ");
    assert_eq!(status_mark(false), "✗ ");
}

#[test]
fn segments_are_cut_to_the_row_and_selection_pads_it() {
    let segs = vec![("abc".to_string(), 1u8), ("defg".to_string(), 2u8)];
    assert_eq!(
        segments_line(segs.clone(), 5, false, 9),
        vec![("abc".to_string(), 1), ("de".to_string(), 2)]
    );
    assert_eq!(
        segments_line(segs.clone(), 9, true, 9),
        vec![("abc".to_string(), 9), ("defg".to_string(), 9), ("  ".to_string(), 9)]
    );
    assert_eq!(segments_line(segs, 3, false, 9), vec![("abc".to_string(), 1)]);
}

#[test]
fn settings_footer_and_table_heights() {
    assert_eq!(footer_height(true, 7), 4, "the wizard box has a fixed height");
    assert_eq!(footer_height(false, 2), 3, "status line plus two hint lines");
    assert_eq!(table_height(20, 3), 16, "header and footer come off");
    assert_eq!(table_height(3, 3), 0, "no room left");
}

#[test]
fn table_offset_keeps_the_cursor_in_view() {
    assert_eq!(table_offset(0, 30, 10), 0);
    assert_eq!(table_offset(9, 30, 10), 0, "the last visible row needs no scroll");
    assert_eq!(table_offset(10, 30, 10), 1);
    assert_eq!(table_offset(29, 30, 10), 20);
    assert_eq!(table_offset(99, 30, 10), 20, "never past the last screenful");
    assert_eq!(table_offset(5, 3, 10), 0, "a short table never scrolls");
    assert_eq!(table_offset(5, 30, 0), 0);
    for cursor in 0..30 {
        let off = table_offset(cursor, 30, 7);
        assert!(off <= cursor && cursor < off + 7);
    }
}
