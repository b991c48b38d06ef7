//! Window auto-fit: once the bar is open, the terminal window follows the
//! candidate set: the history rows on an empty bar, the ranked candidates
//! while typing, the command palette while it is open, a full screen for
//! `/settings`.
//!
//! Two mechanisms, both best effort and both fired at most once per height
//! change:
//!
//! * [`resize_escape`]: xterm's `CSI 8 ; rows ; cols t`. Honouring it is a
//!   terminal policy: xterm needs `allowWindowOps`, kitty/wezterm/contour do
//!   it out of the box, VTE (gnome-terminal) and alacritty ignore window ops
//!   altogether.
//! * [`wm_resize_argv`]: on X11 with `xdotool` around, resize the focused
//!   window in *character cells*. "The focused window" is not necessarily
//!   ours though, so this path is guarded: [`pid_in_ancestry`] must prove the
//!   focused window's pid sits above us on the parent chain before `xdotool`
//!   is allowed to touch it.
//!
//! Only a summoned bar resizes anything: a plain `xconsoler` run is a guest
//! in whatever terminal the user started it from. `XC_ROWS` (a pinned
//! height) and `XC_NO_FIT` turn the whole thing off.

use vstd::prelude::*;

use crate::decimal::{parse_unsigned, unsigned_of};
use crate::keyspec::has_prefix;
use crate::search::{first_where, lemma_first_found, lemma_first_none};
use crate::text::{blank, cat5, opt_str, chars_of, eq_str, is_blank, owned, trim, trim_seq, u64_to_string, views, decimal};
use crate::words::{split_char, split_on};
use crate::fuzzy::MAX_NEEDLE;
use crate::matcher::picks;
use crate::state::{bar_rows, candidates, listed, rows_for, App, Mode, Visibility};
use crate::storage::entry_views;

verus! {

/// How many event-loop ticks a height request is repeated. Terminals apply
/// the request asynchronously and a window manager may not have activated the
/// window on the very first frame, so one shot is not enough; a terminal that
/// ignores both mechanisms stops being asked after this many tries.
pub const MAX_TRIES: u8 = 3;

/// How often the fit has asked the terminal for the height it wants: the
/// height last asked for, and the attempts spent on it.
#[derive(Debug, Clone, Copy, PartialEq, Eq)]
pub struct Pacing {
    pub asked: Option<u16>,
    pub tries: u8,
}

/// The pacing after one look at the terminal, and whether to ask now. A new
/// wanted height starts a fresh count; once [`MAX_TRIES`] attempts are
/// spent, or the terminal already has the height, nothing more is asked; an
/// unknown size or a zero width asks nothing this time.
pub open spec fn paced(p: Pacing, want: u16, size: Option<(u16, u16)>) -> (Pacing, bool) {
    let p1 = if p.asked != Some(want) {
        Pacing { asked: Some(want), tries: 0 }
    } else {
        p
    };
    if p1.tries >= MAX_TRIES {
        (p1, false)
    } else {
        match size {
            None => (p1, false),
            Some((cols, rows)) => if cols == 0 {
                (p1, false)
            } else if rows == want {
                (Pacing { tries: MAX_TRIES, ..p1 }, false)
            } else {
                (p1, true)
            },
        }
    }
}

/// One look at the terminal: `size` is its `(cols, rows)` when known. An
/// ask is only ever allowed with attempts left.
pub fn pace(p: Pacing, want: u16, size: Option<(u16, u16)>) -> (r: (Pacing, bool))
    ensures
        r == paced(p, want, size),
        r.1 ==> r.0.tries < MAX_TRIES,
        p.tries <= MAX_TRIES ==> r.0.tries <= MAX_TRIES,
        r.0.asked == Some(want),
{
    let p1 = if p.asked != Some(want) {
        Pacing { asked: Some(want), tries: 0 }
    } else {
        p
    };
    if p1.tries >= MAX_TRIES {
        return (p1, false);
    }
    match size {
        None => (p1, false),
        Some((cols, rows)) => if cols == 0 {
            (p1, false)
        } else if rows == want {
            (Pacing { tries: MAX_TRIES, ..p1 }, false)
        } else {
            (p1, true)
        },
    }
}

/// After an ask: an answered ask spends one attempt; an ask that could not
/// be sent ends the attempts for this height.
pub fn after_ask(p: Pacing, answered: bool) -> (r: Pacing)
    requires
        p.tries < MAX_TRIES,
    ensures
        r.asked == p.asked,
        r.tries == if answered {
            p.tries + 1
        } else {
            MAX_TRIES as int
        },
        r.tries <= MAX_TRIES,
{
    if answered {
        Pacing { tries: p.tries + 1, ..p }
    } else {
        Pacing { tries: MAX_TRIES, ..p }
    }
}

/// Rows the `/settings` page asks for. It is a form, not a bar, so it gets a
/// fixed comfortable height instead of one derived from a candidate count.
pub const SETTINGS_ROWS: u16 = 24;

/// Rows the window should have for `app` right now: the settings page's
/// fixed height, the bare box for a hidden bar, else the bar's rows for the
/// palette's commands while it is open or for the listed candidates.
pub open spec fn desired_of(app: App) -> int {
    if app.mode is Settings {
        SETTINGS_ROWS as int
    } else if app.visibility != Visibility::Shown {
        rows_for(0)
    } else {
        rows_for(
            match app.palette {
                Some(_) => crate::commands::COUNT as int,
                None => listed(app.aliases@, entry_views(app.store.history@), app.input@).len() as int,
            },
        )
    }
}

/// Rows the window should have for `app` right now.
///
/// The launcher reuses [`bar_rows`] (box, list frame, one row per entry,
/// status row, capped by [`crate::state::MAX_BAR_ROWS`]) so the summoned
/// height and the fitted height can never disagree about the geometry.
pub fn desired_rows(app: &App) -> (r: u16)
    requires
        app.input@.len() <= MAX_NEEDLE,
    ensures
        r == desired_of(*app),
{
    if let Mode::Settings(_) = &app.mode {
        return SETTINGS_ROWS;
    }
    if app.visibility != Visibility::Shown {
        // A hidden bar is just the bare box; leave the window alone.
        return bar_rows(0);
    }
    // While the palette is open it replaces the candidate list, so its
    // commands are what need room.
    let items = match app.palette {
        Some(_) => crate::commands::len(),
        None => candidates(app).len(),
    };
    bar_rows(items)
}

/// A set value that is not an explicit "off" (`0`, `false`, `no`), after
/// trimming.
pub open spec fn truthy_of(value: Option<Seq<char>>) -> bool {
    match value {
        None => false,
        Some(v) => {
            let t = trim_seq(v);
            t.len() != 0 && t != "0"@ && t != "false"@ && t != "no"@
        },
    }
}

/// A non-empty value that is not an explicit "off" (`0`, `false`, `no`).
pub fn truthy(value: Option<&str>) -> (r: bool)
    ensures
        r == truthy_of(opt_str(value)),
{
    match value {
        None => false,
        Some(v) => {
            let t = trim(v);
            let s = t.as_str();
            !(s.is_empty() || eq_str(s, "0") || eq_str(s, "false") || eq_str(s, "no"))
        },
    }
}

/// Whether this run may resize its own window: summoned (it owns that
/// window), no `XC_ROWS` pin to respect, and not opted out via `XC_NO_FIT`.
pub fn enabled(summon: bool, rows_pin: Option<&str>, no_fit: Option<&str>) -> (r: bool)
    ensures
        r == (summon && (match rows_pin {
            None => true,
            Some(p) => blank(p@),
        }) && !truthy_of(opt_str(no_fit))),
{
    let unpinned = match rows_pin {
        None => true,
        Some(p) => is_blank(p),
    };
    summon && unpinned && !truthy(no_fit)
}

/// Whether the X11 fallback applies: `xdotool` on `PATH`, an X display, and
/// no Wayland session (where the fallback would hit the wrong window at
/// best, and there is no active-window concept at worst).
pub fn wm_resize_applies(display: Option<&str>, wayland: Option<&str>, xdotool: bool) -> (r: bool)
    ensures
        r == (xdotool && truthy_of(opt_str(display)) && !truthy_of(opt_str(wayland))),
{
    xdotool && truthy(display) && !truthy(wayland)
}

/// Line `i` of a status text starts with `PPid:`.
pub open spec fn ppid_line_at(lines: Seq<Seq<char>>) -> spec_fn(int) -> bool {
    |i: int| has_prefix(lines[i], "PPid:"@)
}

/// The parent pid a `/proc/<pid>/status` text names: the trimmed rest of
/// its first `PPid:` line, read as a `u32`.
pub open spec fn ppid_of(status: Seq<char>) -> Option<u32> {
    let lines = split_on(status, '\n');
    match first_where(lines.len() as int, ppid_line_at(lines)) {
        Some(i) => match unsigned_of(trim_seq(lines[i].skip(5)), u32::MAX as nat) {
            Some(v) => Some(v as u32),
            None => None,
        },
        None => None,
    }
}

/// The parent pid named by the `PPid:` line of a `/proc/<pid>/status` text.
/// `None` when there is no such line or its value is malformed, which the
/// ownership guard treats as "not provable".
pub fn parent_pid_in(status: &str) -> (r: Option<u32>)
    ensures
        r == ppid_of(status@),
{
    let lines = split_char(status, '\n');
    let ghost ls = split_on(status@, '\n');
    let n = lines.len();
    let mut i: usize = 0;
    while i < n
        invariant
            n == lines.len(),
            views(lines@) == ls,
            ls == split_on(status@, '\n'),
            i <= n,
            forall|j: int| 0 <= j < i ==> !#[trigger] ppid_line_at(ls)(j),
        decreases n - i,
    {
        let line = chars_of(lines[i].as_str());
        assert(ls[i as int] == lines@[i as int]@);
        if line.len() >= 5 && line[0] == 'P' && line[1] == 'P' && line[2] == 'i' && line[3] == 'd'
            && line[4] == ':' {
            proof {
                reveal_strlit("PPid:");
                assert(line@.subrange(0, 5) =~= "PPid:"@);
                lemma_first_found(n as int, ppid_line_at(ls), i as int);
            }
            let rest = crate::text::string_of(&line, 5, line.len());
            assert(rest@ =~= ls[i as int].skip(5));
            let value = trim(rest.as_str());
            return match parse_unsigned(value.as_str(), 0xFFFF_FFFF) {
                Some(v) => Some(v as u32),
                None => None,
            };
        }
        proof {
            reveal_strlit("PPid:");
            if has_prefix(ls[i as int], "PPid:"@) {
                assert(line@.subrange(0, 5)[0] == 'P');
                assert(line@.subrange(0, 5)[1] == 'P');
                assert(line@.subrange(0, 5)[2] == 'i');
                assert(line@.subrange(0, 5)[3] == 'd');
                assert(line@.subrange(0, 5)[4] == ':');
            }
        }
        i += 1;
    }
    proof {
        lemma_first_none(n as int, ppid_line_at(ls));
    }
    None
}

/// `chain` walks from `self_pid` up the parents `parent_of` may report,
/// within eight links, and ends at `target`.
pub open spec fn ancestry_chain<F: Fn(u32) -> Option<u32>>(
    chain: Seq<u32>,
    self_pid: u32,
    target: u32,
    parent_of: F,
) -> bool {
    &&& 1 <= chain.len() <= 9
    &&& chain[0] == self_pid
    &&& chain.last() == target
    &&& forall|i: int|
        0 <= i < chain.len() - 1 ==> parent_of.ensures((chain[i],), Some(#[trigger] chain[i + 1]))
}

/// The walk the guard takes: from `self_pid` up the parents `parent_of`
/// reported, stopping at the first pid equal to `target`, at a pid whose
/// parent was reported missing, or after eight links. It answers whether
/// it stopped on `target`.
pub open spec fn ancestry_walk<F: Fn(u32) -> Option<u32>>(
    chain: Seq<u32>,
    self_pid: u32,
    target: u32,
    parent_of: F,
    found: bool,
) -> bool {
    &&& 1 <= chain.len() <= 9
    &&& chain[0] == self_pid
    &&& forall|i: int|
        0 <= i < chain.len() - 1 ==> parent_of.ensures((chain[i],), Some(#[trigger] chain[i + 1]))
    &&& forall|i: int| 0 <= i < chain.len() - 1 ==> #[trigger] chain[i] != target
    &&& found == (chain.last() == target)
    &&& !found ==> chain.len() == 9 || parent_of.ensures((chain.last(),), None)
}

/// Whether `target` is `self_pid` or one of its ancestors, asked through
/// `parent_of`: the walk starts at `self_pid` and climbs, because a window
/// owned by the hosting terminal is our *parent*, not our child. Capped at
/// eight links and stopped by a missing parent, so cycles or a garbage chain
/// cannot hang the caller; a target not reached within the cap counts as not
/// ours. Pure: the only I/O is whatever `parent_of` does, so the answer is
/// stated over the walk through the parents it reported.
pub fn pid_in_ancestry<F: Fn(u32) -> Option<u32>>(target: u32, self_pid: u32, parent_of: F) -> (r: bool)
    requires
        forall|p: u32| parent_of.requires((p,)),
    ensures
        self_pid == target ==> r,
        r ==> exists|chain: Seq<u32>| ancestry_chain(chain, self_pid, target, parent_of),
        exists|chain: Seq<u32>| ancestry_walk(chain, self_pid, target, parent_of, r),
{
    let mut current = self_pid;
    let ghost mut chain: Seq<u32> = seq![self_pid];
    let mut links: u8 = 0;
    while links < 8
        invariant
            forall|p: u32| parent_of.requires((p,)),
            links <= 8,
            links > 0 ==> self_pid != target,
            chain.len() == links + 1,
            chain[0] == self_pid,
            chain.last() == current,
            forall|i: int|
                0 <= i < chain.len() - 1 ==> parent_of.ensures((chain[i],), Some(#[trigger] chain[i + 1])),
            forall|i: int| 0 <= i < chain.len() - 1 ==> #[trigger] chain[i] != target,
        decreases 8 - links,
    {
        if current == target {
            assert(ancestry_chain(chain, self_pid, target, parent_of));
            assert(ancestry_walk(chain, self_pid, target, parent_of, true));
            return true;
        }
        match parent_of(current) {
            Some(parent) => {
                proof {
                    let old_chain = chain;
                    chain = chain.push(parent);
                    assert forall|i: int| 0 <= i < chain.len() - 1 implies parent_of.ensures(
                        (chain[i],),
                        Some(#[trigger] chain[i + 1]),
                    ) by {
                        if i < old_chain.len() - 1 {
                            assert(chain[i] == old_chain[i] && chain[i + 1] == old_chain[i + 1]);
                        }
                    }
                    assert forall|i: int| 0 <= i < chain.len() - 1 implies #[trigger] chain[i]
                        != target by {
                        if i < old_chain.len() - 1 {
                            assert(chain[i] == old_chain[i]);
                        }
                    }
                }
                current = parent;
            },
            None => {
                assert(ancestry_walk(chain, self_pid, target, parent_of, false));
                return false;
            },
        }
        links += 1;
    }
    if current == target {
        assert(ancestry_chain(chain, self_pid, target, parent_of));
        assert(ancestry_walk(chain, self_pid, target, parent_of, true));
        true
    } else {
        assert(ancestry_walk(chain, self_pid, target, parent_of, false));
        false
    }
}

/// xterm's resize-window text for `rows` x `cols`.
pub open spec fn escape_of(rows: u16, cols: u16) -> Seq<char> {
    "\x1b[8;"@ + decimal(rows as nat) + ";"@ + decimal(cols as nat) + "t"@
}

/// xterm's resize-window sequence, keeping the current width: only the
/// height is the bar's business.
pub fn resize_escape(rows: u16, cols: u16) -> (r: String)
    ensures
        r@ == escape_of(rows, cols),
{
    let r = u64_to_string(rows as u64);
    let c = u64_to_string(cols as u64);
    cat5("\x1b[8;", r.as_str(), ";", c.as_str(), "t")
}

/// argv for the X11 fallback: resize the focused window to `cols` x `rows`
/// character cells. `argv[0]` is the program to spawn.
pub fn wm_resize_argv(rows: u16, cols: u16) -> (r: Vec<String>)
    ensures
        views(r@) == seq![
            "xdotool"@,
            "getactivewindow"@,
            "windowsize"@,
            "--usehints"@,
            decimal(cols as nat),
            decimal(rows as nat),
        ],
{
    let mut v: Vec<String> = Vec::new();
    v.push(owned("xdotool"));
    v.push(owned("getactivewindow"));
    v.push(owned("windowsize"));
    v.push(owned("--usehints"));
    v.push(u64_to_string(cols as u64));
    v.push(u64_to_string(rows as u64));
    assert(views(v@) =~= seq![
        "xdotool"@,
        "getactivewindow"@,
        "windowsize"@,
        "--usehints"@,
        decimal(cols as nat),
        decimal(rows as nat),
    ]);
    v
}

} // verus!
