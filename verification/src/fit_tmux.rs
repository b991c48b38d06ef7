//! tmux half of the window fit: getting a resize request *through* tmux.
//!
//! Inside a pane tmux eats the resize escape (`CSI 8 ; rows ; cols t`): it
//! resizes nothing and the sequence never reaches the terminal that owns the
//! window. The pane's DCS passthrough is the channel that gets out: tmux
//! forwards `ESC P tmux ; <payload> ESC \` verbatim to the outer terminal
//! ([`passthrough`]; every `ESC` in the payload is doubled). tmux 3.3 and
//! newer only forward it while the window option `allow-passthrough` is on,
//! so the binary switches it on for this window ([`enable_args`]) and puts
//! the previous value back at exit ([`restore_args`]).
//!
//! The outer terminal also carries tmux's own chrome (the status line), so
//! asking it for `rows` leaves the pane at `rows - chrome`. [`parse_sizes`]
//! reads the sizes tmux reports for this pane and [`outer_rows`] adds the
//! chrome back. Only a pane that fills its window is fitted at all
//! ([`owns_window`]): in a split the other panes' share must not be traded for
//! a shorter bar. Running tmux itself is the binary's job.

use vstd::prelude::*;

use crate::decimal::{parse_unsigned, unsigned_of};
use crate::text::{blank, chars_of, is_blank, owned, push_char, views};
use crate::words::{words, words_of};

verus! {

/// What tmux reports for the pane: `(client_height, pane_height,
/// window_height)`: outer terminal rows, our rows, the window's content rows
/// (all panes, no status line).
pub const SIZE_FORMAT: &'static str = "#{client_height} #{pane_height} #{window_height}";

/// The pane the bar runs in, when it runs inside tmux: `TMUX` is what tmux
/// exports to every process in a pane, `TMUX_PANE` names ours (missing only in
/// odd setups, where tmux's current pane is a fine default).
pub fn session(tmux: Option<&str>, pane: Option<&str>) -> (r: Option<String>)
    ensures
        match tmux {
            None => r is None,
            Some(t) => if blank(t@) {
                r is None
            } else {
                r matches Some(p) && p@ == (match pane {
                    Some(q) => q@,
                    None => Seq::empty(),
                })
            },
        },
{
    match tmux {
        None => None,
        Some(t) => {
            if is_blank(t) {
                return None;
            }
            match pane {
                Some(q) => Some(owned(q)),
                None => Some(String::new()),
            }
        },
    }
}

/// `s` with every `ESC` doubled.
pub open spec fn esc_doubled(s: Seq<char>) -> Seq<char>
    decreases s.len(),
{
    if s.len() == 0 {
        s
    } else {
        esc_doubled(s.drop_last()) + if s.last() == '\x1b' {
            seq!['\x1b', '\x1b']
        } else {
            seq![s.last()]
        }
    }
}

/// The tmux DCS passthrough envelope around `payload`, every `ESC` doubled as
/// tmux requires. The caller writes the result to the pane.
pub fn passthrough(payload: &str) -> (r: String)
    ensures
        r@ == "\x1bPtmux;"@ + esc_doubled(payload@) + "\x1b\\"@,
{
    let v = chars_of(payload);
    let mut out = owned("\x1bPtmux;");
    let ghost head = out@;
    let n = v.len();
    for i in 0..n
        invariant
            n == v.len(),
            v@ == payload@,
            head == "\x1bPtmux;"@,
            out@ == head + esc_doubled(v@.take(i as int)),
    {
        let ch = v[i];
        assert(v@.take(i + 1).drop_last() =~= v@.take(i as int));
        if ch == '\x1b' {
            push_char(&mut out, '\x1b');
        }
        push_char(&mut out, ch);
        assert(out@ =~= head + esc_doubled(v@.take(i + 1)));
    }
    assert(v@.take(n as int) =~= v@);
    out.append("\x1b\\");
    out
}

/// The sizes tmux printed: the first three words, each a `u16`.
pub open spec fn sizes_of(out: Seq<char>) -> Option<(u16, u16, u16)> {
    let ws = words(out);
    if ws.len() < 3 {
        None
    } else {
        match (unsigned_of(ws[0], 65535), unsigned_of(ws[1], 65535), unsigned_of(ws[2], 65535)) {
            (Some(c), Some(p), Some(w)) => Some((c as u16, p as u16, w as u16)),
            _ => None,
        }
    }
}

/// One word as a `u16`.
fn parse_u16(s: &str) -> (r: Option<u16>)
    ensures
        match unsigned_of(s@, 65535) {
            Some(v) => r == Some(v as u16),
            None => r is None,
        },
{
    match parse_unsigned(s, 65535) {
        Some(v) => Some(v as u16),
        None => None,
    }
}

/// Parse `#{client_height} #{pane_height} #{window_height}`. `None` when tmux
/// printed anything else (a missing value, a detached client, ...).
pub fn parse_sizes(out: &str) -> (r: Option<(u16, u16, u16)>)
    ensures
        r == sizes_of(out@),
{
    let ws = words_of(out);
    if ws.len() < 3 {
        return None;
    }
    assert(views(ws@)[0] == ws@[0]@ && views(ws@)[1] == ws@[1]@ && views(ws@)[2] == ws@[2]@);
    let client = match parse_u16(ws[0].as_str()) {
        Some(v) => v,
        None => {
            return None;
        },
    };
    let pane = match parse_u16(ws[1].as_str()) {
        Some(v) => v,
        None => {
            return None;
        },
    };
    let window = match parse_u16(ws[2].as_str()) {
        Some(v) => v,
        None => {
            return None;
        },
    };
    Some((client, pane, window))
}

/// Whether our pane fills the window, so resizing the window resizes the bar.
/// In a split it does not: the fit leaves the window alone rather than
/// shrinking everybody's share.
pub fn owns_window(pane: u16, window: u16) -> (r: bool)
    ensures
        r == (pane >= window),
{
    pane >= window
}

/// `want` plus tmux's chrome, saturating at both steps.
pub open spec fn outer_of(want: u16, client: u16, pane: u16) -> u16 {
    let chrome: int = if client >= pane {
        client - pane
    } else {
        0
    };
    if want + chrome > u16::MAX {
        u16::MAX
    } else {
        (want + chrome) as u16
    }
}

/// Rows to ask the outer terminal for so that our pane ends up `want` rows
/// tall: the window is the pane plus tmux's chrome (the status line).
pub fn outer_rows(want: u16, client: u16, pane: u16) -> (r: u16)
    ensures
        r == outer_of(want, client, pane),
{
    want.saturating_add(client.saturating_sub(pane))
}

/// The outer window height that leaves our pane at `want` rows, given what
/// tmux reported; `None` when this pane must not be fitted: no sizes, an
/// empty pane, or a split sharing the window height with other panes.
pub fn outer_request(sizes: Option<(u16, u16, u16)>, want: u16) -> (r: Option<u16>)
    ensures
        r == (match sizes {
            Some((c, p, w)) => if p > 0 && p >= w {
                Some(outer_of(want, c, p))
            } else {
                None
            },
            None => None,
        }),
{
    match sizes {
        Some((client, pane_rows, window)) => {
            if pane_rows > 0 && owns_window(pane_rows, window) {
                Some(outer_rows(want, client, pane_rows))
            } else {
                None
            }
        },
        None => None,
    }
}

/// `-t <pane>`, or nothing when the pane id is unknown (tmux then means "the
/// current pane", which is exactly right inside our own pane).
pub open spec fn target_of(pane: Seq<char>) -> Seq<Seq<char>> {
    if pane.len() == 0 {
        Seq::empty()
    } else {
        seq!["-t"@, pane]
    }
}

/// Push owned copies of `items` onto `out`.
fn push_all(out: &mut Vec<String>, items: &Vec<String>)
    ensures
        views(final(out)@) == views(old(out)@) + views(items@),
{
    let n = items.len();
    for i in 0..n
        invariant
            n == items.len(),
            views(out@) == views(old(out)@) + views(items@).take(i as int),
    {
        let ghost before = out@;
        out.push(items[i].clone());
        assert(views(out@) =~= views(before).push(items@[i as int]@));
        assert(views(items@).take(i + 1) =~= views(items@).take(i as int).push(items@[i as int]@));
    }
    assert(views(items@).take(n as int) =~= views(items@));
}

/// `-t <pane>`, or nothing for an unknown pane.
pub fn target_args(pane: &str) -> (r: Vec<String>)
    ensures
        views(r@) == target_of(pane@),
{
    let mut r: Vec<String> = Vec::new();
    if !pane.is_empty() {
        r.push(owned("-t"));
        r.push(owned(pane));
    }
    assert(views(r@) =~= target_of(pane@));
    r
}

/// `set-option` argv for the flags, pane target and option/value tail.
pub fn set_args(flags: &str, pane: &str, tail: &Vec<String>) -> (r: Vec<String>)
    ensures
        views(r@) == seq!["set-option"@, flags@] + target_of(pane@) + views(tail@),
{
    let mut args: Vec<String> = Vec::new();
    args.push(owned("set-option"));
    args.push(owned(flags));
    assert(views(args@) =~= seq!["set-option"@, flags@]);
    let t = target_args(pane);
    push_all(&mut args, &t);
    push_all(&mut args, tail);
    args
}

/// argv for tmux to print this pane's sizes in [`SIZE_FORMAT`].
pub fn size_query_args(pane: &str) -> (r: Vec<String>)
    ensures
        views(r@) == seq!["display-message"@, "-p"@] + target_of(pane@) + seq![SIZE_FORMAT@],
{
    let mut args: Vec<String> = Vec::new();
    args.push(owned("display-message"));
    args.push(owned("-p"));
    assert(views(args@) =~= seq!["display-message"@, "-p"@]);
    let t = target_args(pane);
    push_all(&mut args, &t);
    let ghost before = args@;
    args.push(owned(SIZE_FORMAT));
    assert(views(args@) =~= views(before).push(SIZE_FORMAT@));
    args
}

/// argv for tmux to print the window option `name` as it resolves for
/// `pane`, inherited global value included.
pub fn option_args(pane: &str, name: &str) -> (r: Vec<String>)
    ensures
        views(r@) == seq!["show-options"@, "-wv"@, "-A"@] + target_of(pane@) + seq![name@],
{
    let mut args: Vec<String> = Vec::new();
    args.push(owned("show-options"));
    args.push(owned("-wv"));
    args.push(owned("-A"));
    assert(views(args@) =~= seq!["show-options"@, "-wv"@, "-A"@]);
    let t = target_args(pane);
    push_all(&mut args, &t);
    let ghost before = args@;
    args.push(owned(name));
    assert(views(args@) =~= views(before).push(name@));
    args
}

/// Whether the passthrough option must be switched on: it is not already.
pub fn needs_enable(previous: &str) -> (r: bool)
    ensures
        r == (previous@ != "on"@),
{
    !crate::text::eq_str(previous, "on")
}

/// argv switching `allow-passthrough` on for the window of `pane`.
pub fn enable_args(pane: &str) -> (r: Vec<String>)
    ensures
        views(r@) == seq!["set-option"@, "-w"@] + target_of(pane@) + seq![
            "allow-passthrough"@,
            "on"@,
        ],
{
    let mut tail: Vec<String> = Vec::new();
    tail.push(owned("allow-passthrough"));
    tail.push(owned("on"));
    assert(views(tail@) =~= seq!["allow-passthrough"@, "on"@]);
    set_args("-w", pane, &tail)
}

/// argv putting back the `allow-passthrough` value found before the bar
/// switched it on: an explicit value is set again, an empty one unsets the
/// window option, and `None` (no such option) needs nothing.
pub fn restore_args(pane: &str, previous: Option<&str>) -> (r: Option<Vec<String>>)
    ensures
        match previous {
            None => r is None,
            Some(p) => r matches Some(a) && views(a@) == if p@.len() == 0 {
                seq!["set-option"@, "-uw"@] + target_of(pane@) + seq!["allow-passthrough"@]
            } else {
                seq!["set-option"@, "-w"@] + target_of(pane@) + seq!["allow-passthrough"@, p@]
            },
        },
{
    match previous {
        None => None,
        Some(p) => {
            let mut tail: Vec<String> = Vec::new();
            tail.push(owned("allow-passthrough"));
            if p.is_empty() {
                assert(views(tail@) =~= seq!["allow-passthrough"@]);
                Some(set_args("-uw", pane, &tail))
            } else {
                tail.push(owned(p));
                assert(views(tail@) =~= seq!["allow-passthrough"@, p@]);
                Some(set_args("-w", pane, &tail))
            }
        },
    }
}

} // verus!
