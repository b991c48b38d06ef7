//! TUI state: the [`App`] snapshot plus candidate-list helpers.
//!
//! The App is a plain data structure; all behaviour lives in free
//! functions: the binary maps keys and draws, this library decides.

use vstd::prelude::*;

use crate::alias::{alias_views, resolve_index, resolved, AliasDef, AliasView};
use crate::fuzzy::MAX_NEEDLE;
use crate::keyspec::{default_command_key, default_key, parse, parsed, KeySpec};
use crate::matcher::{
    capped, candidates as ranked, dup_candidate, history_hits, history_matches, history_picks,
    lemma_candidates_shape, lemma_history_hits, lemma_shortcut_picks_are_shortcuts, picks, ranked_candidates,
    recent, shortcut_candidates, shortcut_picks, Candidate, Pick,
};
use crate::settings::Settings;
use crate::storage::{decoded_text, entry_view, entry_views, merge_aliases, merged, EntryView, Store};
use crate::text::{chars_of, trim, trim_seq};

verus! {

/// Max history rows on the empty bar (most recent successful runs first).
pub const RECENT_LIMIT: usize = 10;

/// Max candidates ranked once the input is non-empty.
pub const CANDIDATE_LIMIT: usize = 5;

/// Most rows a summoned bar asks for.
pub const MAX_BAR_ROWS: u16 = 16;

/// Whether the launcher bar is on screen. New apps start [`Visibility::Shown`]:
/// a fresh launch must be visible, not look like it exited instantly.
#[derive(Debug, Clone, Copy, PartialEq, Eq, Structural)]
pub enum Visibility {
    Hidden,
    Shown,
}

/// Which page owns the event loop: the launcher bar or the `/settings`
/// screen (whose state lives in [`crate::settings`]).
#[derive(Debug, Clone)]
pub enum Mode {
    Normal,
    Settings(Box<Settings>),
}

/// Whole TUI state. `store` is the persisted part; `aliases` is the derived
/// merged view used for resolution and rendering.
#[derive(Debug)]
pub struct App {
    pub store: Store,
    pub aliases: Vec<AliasDef>,
    pub input: String,
    /// Char index of the text caret inside `input`.
    pub caret: usize,
    /// Selected index into [`candidates`].
    pub cursor: usize,
    pub visibility: Visibility,
    /// Transient message: `(ok?, text)`. Reset by most input changes.
    pub status: Option<(bool, String)>,
    pub quit: bool,
    /// The wake/sleep key, parsed from `store.config.wake_key`.
    pub wake: KeySpec,
    /// The command-palette key, parsed from `store.config.command_key`.
    pub command: KeySpec,
    /// Summon mode (started from a shell keybind): the wake key / Esc quit
    /// back to the prompt instead of hiding the bar.
    pub summon: bool,
    /// Which page owns keys/rendering: launcher bar or the settings screen.
    pub mode: Mode,
    /// Command palette: `Some(selected row)` while it is open. Only ever set
    /// while the bar is shown; `None` means closed.
    pub palette: Option<usize>,
}

/// The key a stored spec names, or `fallback` when it does not parse.
pub open spec fn key_or(spec: Seq<char>, fallback: KeySpec) -> KeySpec {
    match parsed(spec) {
        Ok(k) => k,
        Err(_) => fallback,
    }
}

/// The default key `alt+d`.
pub open spec fn alt_d() -> KeySpec {
    KeySpec { alt: true, ctrl: false, ch: 'd' }
}

/// Build an app from a loaded store: **shown**, empty input, merged aliases.
/// An unparsable stored wake key falls back to the default; an unparsable
/// command-palette key to the default palette key.
pub fn new(store: Store, summon: bool) -> (app: App)
    ensures
        alias_views(app.aliases@) == merged(alias_views(store.aliases@)),
        app.wake == key_or(store.config.wake_key@, alt_d()),
        app.command == key_or(store.config.command_key@, alt_d()),
        app.input@.len() == 0,
        app.caret == 0,
        app.cursor == 0,
        app.visibility == Visibility::Shown,
        app.status is None,
        !app.quit,
        app.summon == summon,
        app.mode is Normal,
        app.palette is None,
        app.store == store,
{
    let aliases = merge_aliases(store.aliases.as_slice());
    let wake = match parse(store.config.wake_key.as_str()) {
        Ok(k) => k,
        Err(_) => default_key(),
    };
    let command = match parse(store.config.command_key.as_str()) {
        Ok(k) => k,
        Err(_) => default_command_key(),
    };
    App {
        store,
        aliases,
        input: String::new(),
        caret: 0,
        cursor: 0,
        visibility: Visibility::Shown,
        status: None,
        quit: false,
        wake,
        command,
        summon,
        mode: Mode::Normal,
        palette: None,
    }
}

/// A shortcut row runs what a listed history row already replays: that
/// entry's alias resolves to the row's alias and its input is the row's
/// key.
pub open spec fn replays(defs: Seq<AliasView>, h: Seq<EntryView>, hits: Seq<int>, p: Pick) -> bool {
    match p {
        Pick::Shortcut(a, k) => exists|j: int|
            0 <= j < hits.len() && 0 <= #[trigger] hits[j] < h.len() && resolved(defs, h[hits[j]].0) == resolved(defs, a)
                && decoded_text(h[hits[j]].1) == k,
        _ => false,
    }
}

/// The rows of `s` that no listed history row replays, in order.
pub open spec fn fresh_rows(defs: Seq<AliasView>, h: Seq<EntryView>, hits: Seq<int>, s: Seq<Pick>) -> Seq<Pick>
    decreases s.len(),
{
    if s.len() == 0 {
        Seq::empty()
    } else {
        let p = fresh_rows(defs, h, hits, s.drop_last());
        if replays(defs, h, hits, s.last()) {
            p
        } else {
            p.push(s.last())
        }
    }
}

/// Whether a listed history row already replays candidate `c`.
fn replayed(app: &App, hits: &Vec<usize>, c: &Candidate) -> (r: bool)
    ensures
        r == replays(
            alias_views(app.aliases@),
            entry_views(app.store.history@),
            hits@.map_values(|i: usize| i as int),
            (*c)@,
        ),
{
    let ghost dv = alias_views(app.aliases@);
    let ghost h = entry_views(app.store.history@);
    let ghost hv = hits@.map_values(|i: usize| i as int);
    match c {
        Candidate::History { .. } => false,
        Candidate::Shortcut { alias, key } => {
            let ra = resolve_index(app.aliases.as_slice(), alias.as_str());
            let n = hits.len();
            for j in 0..n
                invariant
                    n == hits.len(),
                    dv == alias_views(app.aliases@),
                    h == entry_views(app.store.history@),
                    hv == hits@.map_values(|i: usize| i as int),
                    (*c)@ == Pick::Shortcut(alias@, key@),
                    match ra {
                        Some(i) => resolved(dv, alias@) == Some(i as int),
                        None => resolved(dv, alias@) is None,
                    },
                    forall|t: int|
                        0 <= t < j ==> !(0 <= #[trigger] hv[t] < h.len() && resolved(dv, h[hv[t]].0) == resolved(
                            dv,
                            alias@,
                        ) && decoded_text(h[hv[t]].1) == key@),
            {
                let idx = hits[j];
                if idx < app.store.history.len() {
                    let e = &app.store.history[idx];
                    assert(h[hv[j as int]] == entry_view(*e));
                    let re = resolve_index(app.aliases.as_slice(), e.alias.as_str());
                    let same = match (re, ra) {
                        (Some(x), Some(y)) => x == y,
                        (None, None) => true,
                        _ => false,
                    };
                    let inp = e.input();
                    if same && inp == *key {
                        assert(hv[j as int] == idx as int);
                        assert(resolved(dv, h[hv[j as int]].0) == resolved(dv, alias@));
                        assert(decoded_text(h[hv[j as int]].1) == key@);
                        return true;
                    }
                }
            }
            false
        },
    }
}

/// What the bar lists for the raw input: nothing for a `:`/`/` command
/// line; the recent history on an empty input; for a typed input the
/// shortcut rows of a `<trigger> <partial>` input after the matching
/// history, or the normal ranking when there are none.
pub open spec fn listed(defs: Seq<AliasDef>, h: Seq<crate::storage::EntryView>, input: Seq<char>) -> Seq<
    Pick,
> {
    let q = trim_seq(input);
    if q.len() > 0 && (q[0] == '/' || q[0] == ':') {
        Seq::empty()
    } else if q.len() == 0 {
        ranked_candidates(defs, h, q, RECENT_LIMIT as int)
    } else {
        let s = shortcut_picks(defs, input, CANDIDATE_LIMIT as int);
        if s.len() == 0 {
            ranked_candidates(defs, h, q, CANDIDATE_LIMIT as int)
        } else {
            let hits = history_hits(alias_views(defs), h, q);
            capped(history_picks(hits) + fresh_rows(alias_views(defs), h, hits, s), CANDIDATE_LIMIT as int)
        }
    }
}

/// The rows of `s` that stay are rows of `s`.
proof fn lemma_fresh_rows_from(defs: Seq<AliasView>, h: Seq<EntryView>, hits: Seq<int>, s: Seq<Pick>)
    ensures
        fresh_rows(defs, h, hits, s).len() <= s.len(),
        forall|i: int| 0 <= i < fresh_rows(defs, h, hits, s).len() ==> s.contains(#[trigger] fresh_rows(defs, h, hits, s)[i]),
    decreases s.len(),
{
    if s.len() > 0 {
        lemma_fresh_rows_from(defs, h, hits, s.drop_last());
        let p = fresh_rows(defs, h, hits, s.drop_last());
        assert forall|i: int| 0 <= i < fresh_rows(defs, h, hits, s).len() implies s.contains(
            #[trigger] fresh_rows(defs, h, hits, s)[i],
        ) by {
            if i < p.len() {
                let k = choose|k: int| 0 <= k < s.drop_last().len() && s.drop_last()[k] == p[i];
                assert(s[k] == p[i]);
            } else {
                assert(s[s.len() - 1] == s.last());
            }
        }
    }
}

/// What the bar lists: nothing for a `:` or `/` command line; for a blank
/// input the newest history entries, at most [`RECENT_LIMIT`]; else at most
/// [`CANDIDATE_LIMIT`] rows. History rows come first, in store order, and
/// name entries of the history.
pub proof fn lemma_listed_shape(defs: Seq<AliasDef>, h: Seq<EntryView>, input: Seq<char>)
    ensures
        ({
            let q = trim_seq(input);
            let r = listed(defs, h, input);
            &&& q.len() > 0 && (q[0] == '/' || q[0] == ':') ==> r.len() == 0
            &&& q.len() == 0 ==> r == recent(
                if h.len() <= RECENT_LIMIT {
                    h.len() as int
                } else {
                    RECENT_LIMIT as int
                },
            )
            &&& q.len() > 0 ==> r.len() <= CANDIDATE_LIMIT
            &&& forall|i: int, j: int|
                0 <= i < j < r.len() && (#[trigger] r[j]) is History ==> (#[trigger] r[i]) is History
                    && r[i]->History_0 < r[j]->History_0
            &&& forall|i: int| 0 <= i < r.len() && (#[trigger] r[i]) is History ==> 0 <= r[i]->History_0 < h.len()
        }),
{
    let q = trim_seq(input);
    crate::text::lemma_trim_len(input);
    if q.len() > 0 && (q[0] == '/' || q[0] == ':') {
    } else if q.len() == 0 {
        lemma_candidates_shape(defs, h, q, RECENT_LIMIT as int);
        assert(trim_seq(q).len() == 0) by {
            crate::text::lemma_trim_len(q);
        }
    } else {
        let s = shortcut_picks(defs, input, CANDIDATE_LIMIT as int);
        if s.len() == 0 {
            lemma_candidates_shape(defs, h, q, CANDIDATE_LIMIT as int);
        } else {
            let dv = alias_views(defs);
            let hits = history_hits(dv, h, q);
            lemma_history_hits(dv, h, q);
            lemma_shortcut_picks_are_shortcuts(defs, input, CANDIDATE_LIMIT as int);
            lemma_fresh_rows_from(dv, h, hits, s);
            let hp = history_picks(hits);
            let fr = fresh_rows(dv, h, hits, s);
            let all = hp + fr;
            assert forall|i: int| 0 <= i < all.len() && (#[trigger] all[i]) is History implies i < hp.len() by {
                if i >= hp.len() {
                    assert(all[i] == fr[i - hp.len()]);
                    let k = choose|k: int| 0 <= k < s.len() && s[k] == fr[i - hp.len()];
                    assert(s[k] is Shortcut);
                }
            }
            let r = capped(all, CANDIDATE_LIMIT as int);
            assert forall|i: int| 0 <= i < r.len() implies #[trigger] r[i] == all[i] by {}
        }
    }
}

/// Ranked candidates for the current input (trimmed). An empty input lists
/// up to [`RECENT_LIMIT`] recent history rows; a typed input lists up to
/// [`CANDIDATE_LIMIT`], history before shortcuts.
pub fn candidates(app: &App) -> (r: Vec<Candidate>)
    requires
        app.input@.len() <= MAX_NEEDLE,
    ensures
        picks(r@) == listed(app.aliases@, entry_views(app.store.history@), app.input@),
{
    let q = trim(app.input.as_str());
    proof {
        crate::text::lemma_trim_len(app.input@);
    }
    let qv = chars_of(q.as_str());
    // `:`/`/` inputs are command lines (palette or validation), never alias
    // queries: the urls inside shortcut values would otherwise match.
    if qv.len() > 0 && (qv[0] == '/' || qv[0] == ':') {
        return Vec::new();
    }
    if qv.len() == 0 {
        return ranked(&app.store, &app.aliases, q.as_str(), RECENT_LIMIT);
    }
    // `<alias> <partial>` switches to that alias's concrete shortcuts after
    // the matching history; anything else (including a bare alias) keeps
    // the normal history-first ranking.
    let shortcuts = shortcut_candidates(&app.aliases, app.input.as_str(), CANDIDATE_LIMIT);
    if shortcuts.len() == 0 {
        return ranked(&app.store, &app.aliases, q.as_str(), CANDIDATE_LIMIT);
    }
    let hits = history_matches(&app.aliases, &app.store.history, q.as_str());
    let ghost dv = alias_views(app.aliases@);
    let ghost h = entry_views(app.store.history@);
    let ghost hv = history_hits(dv, h, q@);
    let ghost sp = picks(shortcuts@);
    let mut rows: Vec<Candidate> = Vec::new();
    let m = shortcuts.len();
    for k in 0..m
        invariant
            m == shortcuts.len(),
            sp == picks(shortcuts@),
            hv == hits@.map_values(|i: usize| i as int),
            dv == alias_views(app.aliases@),
            h == entry_views(app.store.history@),
            picks(rows@) == fresh_rows(dv, h, hv, sp.take(k as int)),
    {
        assert(sp.take(k + 1).drop_last() =~= sp.take(k as int));
        assert(sp.take(k + 1).last() == shortcuts@[k as int]@);
        if !replayed(app, &hits, &shortcuts[k]) {
            let ghost before = picks(rows@);
            rows.push(dup_candidate(&shortcuts[k]));
            assert(picks(rows@) =~= before.push(shortcuts@[k as int]@));
        }
    }
    assert(sp.take(m as int) =~= sp);
    let shortcuts = rows;
    let ghost all = history_picks(hv) + picks(shortcuts@);
    let mut out: Vec<Candidate> = Vec::new();
    let nh = hits.len();
    let ns = shortcuts.len();
    let mut i: usize = 0;
    while i < CANDIDATE_LIMIT && (i < nh || i - nh < ns)
        invariant
            nh == hits.len(),
            ns == shortcuts.len(),
            nh + ns == all.len(),
            i <= nh + ns,
            i <= CANDIDATE_LIMIT,
            out@.len() == i,
            all == history_picks(hits@.map_values(|i: usize| i as int)) + picks(shortcuts@),
            picks(out@) == all.take(i as int),
        decreases CANDIDATE_LIMIT - i,
    {
        let ghost before = out@;
        if i < nh {
            out.push(Candidate::History { idx: hits[i] });
            assert(all[i as int] == Pick::History(hits@[i as int] as int));
        } else {
            out.push(dup_candidate(&shortcuts[i - nh]));
            assert(all[i as int] == shortcuts@[i - nh]@);
        }
        assert(picks(out@) =~= all.take(i + 1));
        i += 1;
    }
    proof {
        assert(q@ == trim_seq(app.input@));
        assert(qv@ == q@);
        if all.len() <= CANDIDATE_LIMIT {
            assert(i == all.len());
            assert(all.take(all.len() as int) =~= all);
        } else {
            assert(i == CANDIDATE_LIMIT);
        }
    }
    out
}

/// The candidate the cursor points at. An out-of-range cursor falls back to
/// index 0 so Enter keeps doing something sensible after alias removals.
pub open spec fn selected_of(list: Seq<Pick>, cursor: int) -> Option<Pick> {
    let idx = if cursor < list.len() {
        cursor
    } else {
        0
    };
    if idx < list.len() {
        Some(list[idx])
    } else {
        None
    }
}

/// The candidate the cursor points at. An out-of-range cursor falls back to
/// index 0 so Enter keeps doing something sensible after alias removals.
pub fn selected(app: &App) -> (r: Option<Candidate>)
    requires
        app.input@.len() <= MAX_NEEDLE,
    ensures
        match selected_of(listed(app.aliases@, entry_views(app.store.history@), app.input@), app.cursor as int) {
            Some(p) => r matches Some(c) && c@ == p,
            None => r is None,
        },
{
    let cands = candidates(app);
    let idx = if app.cursor < cands.len() {
        app.cursor
    } else {
        0
    };
    if idx < cands.len() {
        Some(dup_candidate(&cands[idx]))
    } else {
        None
    }
}

/// Rows the bar needs for `items` list entries: the bare box and status
/// line when there are none, else the list frame around them too, capped at
/// [`MAX_BAR_ROWS`].
pub open spec fn rows_for(items: int) -> int {
    if items == 0 {
        4
    } else if 6 + items > MAX_BAR_ROWS {
        MAX_BAR_ROWS as int
    } else {
        6 + items
    }
}

/// Rows the bar needs for `items` list entries: box, list frame, one row
/// per entry, status row, capped by [`MAX_BAR_ROWS`].
pub fn bar_rows(items: usize) -> (r: u16)
    ensures
        r == rows_for(items as int),
{
    if items == 0 {
        4
    } else if items > (MAX_BAR_ROWS - 6) as usize {
        MAX_BAR_ROWS
    } else {
        6 + items as u16
    }
}

} // verus!
