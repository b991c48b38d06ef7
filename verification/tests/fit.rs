use xconsoler::fit::{after_ask, pace, Pacing};
use xconsoler::fit::{
    enabled, parent_pid_in, pid_in_ancestry, resize_escape, wm_resize_applies, wm_resize_argv,
    MAX_TRIES,
};
use std::collections::HashMap;
use xconsoler::alias::{self, AliasDef};
use xconsoler::commands;
use xconsoler::fit::{desired_rows, SETTINGS_ROWS};
use xconsoler::platform::Platform;
use xconsoler::settings;
use xconsoler::state::{self, App, Mode, Visibility};
use xconsoler::storage::{HistoryEntry, Store};

#[test]
#[allow(clippy::assertions_on_constants)]
fn tries_are_bounded() {
    assert!(MAX_TRIES > 1, "one shot loses the WM activation race");
    assert!(MAX_TRIES < 10, "an ignoring terminal must not be spammed");
}

#[test]
fn escape_carries_rows_and_keeps_the_width() {
    assert_eq!(resize_escape(9, 52), "\x1b[8;9;52t");
}

#[test]
fn only_an_unpinned_summoned_bar_may_resize() {
    assert!(enabled(true, None, None));
    assert!(!enabled(false, None, None), "a plain run is a guest");
    assert!(!enabled(true, Some("9"), None), "XC_ROWS wins");
    assert!(enabled(true, Some("  "), None), "an empty pin is no pin");
    assert!(!enabled(true, None, Some("1")), "XC_NO_FIT=1");
    assert!(!enabled(true, None, Some("yes")));
    assert!(
        enabled(true, None, Some("0")),
        "XC_NO_FIT=0 is not an opt-out"
    );
    assert!(enabled(true, None, Some("")));
}

#[test]
fn x11_fallback_needs_xdotool_display_and_no_wayland() {
    assert!(wm_resize_applies(Some(":0"), None, true));
    assert!(!wm_resize_applies(Some(":0"), None, false), "no xdotool");
    assert!(!wm_resize_applies(None, None, true), "headless");
    assert!(
        !wm_resize_applies(Some(":0"), Some("wayland-0"), true),
        "Wayland owns its windows"
    );
}

#[test]
fn pid_ancestry_accepts_self_parent_and_grandparent() {
    // The bar (300) runs inside a terminal (200) that was started from a
    // session leader (100): both are above us on the parent chain.
    let parents: HashMap<u32, u32> = [(300, 200), (200, 100)].into_iter().collect();
    let parent_of = |pid| parents.get(&pid).copied();
    assert!(pid_in_ancestry(300, 300, parent_of), "self");
    assert!(pid_in_ancestry(200, 300, parent_of), "direct parent");
    assert!(pid_in_ancestry(100, 300, parent_of), "grandparent");
    assert!(!pid_in_ancestry(400, 300, parent_of), "stranger");
    assert!(
        !pid_in_ancestry(200, 100, parent_of),
        "children are not ancestors"
    );
}

#[test]
fn pid_ancestry_survives_cycles_and_missing_parents() {
    let cycle: HashMap<u32, u32> = [(1, 2), (2, 1)].into_iter().collect();
    let parent_of = |pid| cycle.get(&pid).copied();
    assert!(
        !pid_in_ancestry(99, 1, parent_of),
        "cycle never reaches the target"
    );
    assert!(
        !pid_in_ancestry(99, 7, |_| None),
        "missing parent stops at once"
    );
    assert!(!pid_in_ancestry(99, 7, |_| Some(7)), "self-loop terminates");
}

#[test]
fn pid_ancestry_caps_the_walk_at_eight_links() {
    // parent(i) = i - 1: target 0 needs exactly 8 links from self 8.
    let parent_of = |pid: u32| if pid == 0 { None } else { Some(pid - 1) };
    assert!(
        pid_in_ancestry(0, 8, parent_of),
        "8 links are within the cap"
    );
    assert!(!pid_in_ancestry(0, 9, parent_of), "9 links are too far");
}

#[test]
fn wm_argv_resizes_in_character_cells() {
    assert_eq!(
        wm_resize_argv(9, 52),
        [
            "xdotool",
            "getactivewindow",
            "windowsize",
            "--usehints",
            "52",
            "9"
        ]
        .map(str::to_string)
    );
}

#[test]
fn parent_pid_is_read_from_the_ppid_line() {
    let status = "Name:\tbash\nState:\tS (sleeping)\nPPid:\t 4242 \nTracerPid:\t0\n";
    assert_eq!(parent_pid_in(status), Some(4242));
    assert_eq!(parent_pid_in("Name:\tx\r\nPPid:\t7\r\n"), Some(7));
    assert_eq!(parent_pid_in("Name:\tx\n"), None, "no PPid line");
    assert_eq!(parent_pid_in("PPid:\tabc\n"), None, "malformed value");
    assert_eq!(parent_pid_in("PPid:\t99999999999\n"), None, "out of range");
}

fn app(history: usize) -> App {
    let store = Store {
        aliases: with_shortcuts(),
        history: (0..history)
            .map(|i| HistoryEntry::new("br", &format!("baidu {i}"), 1_700 + i as u64))
            .collect(),
        ..Store::default()
    };
    let mut app = state::new(store, true);
    app.aliases = with_shortcuts();
    app
}

fn with_shortcuts() -> Vec<AliasDef> {
    let mut def = alias::defaults().remove(0); // br (builtin)
    def.shortcuts.clear();
    def.shortcuts
        .insert("baidu".to_string(), "https://www.baidu.com".to_string());
    def.shortcuts
        .insert("bing".to_string(), "https://www.bing.com".to_string());
    vec![def]
}

#[test]
fn rows_follow_the_history_on_an_empty_bar() {
    assert_eq!(desired_rows(&app(0)), 4, "box + status");
    assert_eq!(desired_rows(&app(1)), 7, "+ list frame + 1 row");
    assert_eq!(desired_rows(&app(3)), 9);
    assert_eq!(desired_rows(&app(10)), state::MAX_BAR_ROWS);
    // Same rule as the launch geometry: --print-rows and the fitted
    // height agree by construction.
    assert_eq!(desired_rows(&app(3)), state::bar_rows(3));
}

#[test]
fn rows_follow_the_typed_candidates() {
    let mut a = app(1); // history: `br baidu 0`
    a.input = "br b".to_string();
    // History first, then the alias's `baidu`/`bing` rows.
    assert_eq!(state::candidates(&a).len(), 3);
    assert_eq!(desired_rows(&a), 9);
    a.input = "zzz".to_string();
    assert_eq!(state::candidates(&a).len(), 0);
    assert_eq!(desired_rows(&a), 4, "no matches: back to the bare box");
}

#[test]
fn palette_and_settings_get_their_own_heights() {
    let mut a = app(0);
    a.palette = Some(0);
    assert_eq!(desired_rows(&a), state::bar_rows(commands::len()));
    assert!(desired_rows(&a) > 4);
    a.palette = None;
    a.mode = Mode::Settings(Box::new(settings::new_for(Platform::Linux)));
    assert_eq!(desired_rows(&a), SETTINGS_ROWS);
}

#[test]
fn hidden_bar_keeps_the_bare_box() {
    let mut a = app(3);
    a.visibility = Visibility::Hidden;
    assert_eq!(desired_rows(&a), 4);
}

#[test]
fn pacing_asks_at_most_max_tries_times_per_height() {
    let mut p = Pacing { asked: None, tries: 0 };
    let mut asks = 0;
    for _ in 0..10 {
        let (next, ask) = pace(p, 12, Some((80, 30)));
        p = next;
        if ask {
            asks += 1;
            p = after_ask(p, true);
        }
    }
    assert_eq!(asks, MAX_TRIES as usize);
    let (p2, ask) = pace(p, 14, Some((80, 30)));
    assert!(ask, "a new height starts a fresh count");
    assert_eq!(p2, Pacing { asked: Some(14), tries: 0 });
}

#[test]
fn pacing_stops_when_the_terminal_has_the_height_or_cannot_be_asked() {
    let p = Pacing { asked: None, tries: 0 };
    let (p1, ask) = pace(p, 12, Some((80, 12)));
    assert!(!ask);
    assert_eq!(p1.tries, MAX_TRIES, "already the wanted height");
    let (p2, ask) = pace(p, 12, None);
    assert!(!ask && p2.tries == 0, "unknown size: try again later");
    let (p3, ask) = pace(p, 12, Some((0, 30)));
    assert!(!ask && p3.tries == 0);
    assert_eq!(after_ask(Pacing { asked: Some(12), tries: 1 }, false).tries, MAX_TRIES);
}
