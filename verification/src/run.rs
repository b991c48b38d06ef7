//! Enter on the input line: resolve it to an alias and the text the run
//! receives, then record what came of the run. Spawning the command and
//! writing the store happen in the caller between [`prepare`] and
//! [`conclude`] / [`finish`].

use vstd::prelude::*;

use crate::alias::{alias_views, opt_view, resolve_index, resolved, AliasDef, AliasView};
use crate::app::{line_set, only_status, same_ui, set_input, set_status, slash_done, submit_slash};
use crate::exec::{chosen, resolve_shortcuts, resolved_input, run_end, uses_native_clipboard, ExecOutcome};
use crate::fuzzy::MAX_NEEDLE;
use crate::history::{record, recorded};
use crate::matcher::{Candidate, Pick};
use crate::platform::Platform;
use crate::state::{listed, selected, selected_of, App};
use crate::storage::{decode_b64, decoded_text, entry_views};
use crate::text::{
    blank, cat2, cat3, chars_of, eq_fold, eq_ignore_case, is_blank, is_whitespace, owned,
    string_of, trim, trim_seq,
};

verus! {

/// The text a run publishes: a native clipboard alias is handed base64 and
/// publishes what it decodes to (plain text that is not base64 stays as it
/// is); every other alias publishes its input verbatim.
pub open spec fn native_payload(native: bool, run_input: Seq<char>) -> Seq<char> {
    if native {
        decoded_text(run_input)
    } else {
        run_input
    }
}

/// Text a run publishes to the native clipboard backend.
///
/// History keeps the input as typed, so the stored form stays base64 and a
/// replay decodes it again the same way.
pub fn clipboard_payload(native: bool, run_input: &str) -> (r: String)
    ensures
        r@ == native_payload(native, run_input@),
{
    if native {
        decode_b64(run_input)
    } else {
        owned(run_input)
    }
}

/// The candidate the cursor points at.
pub open spec fn selection(app: App) -> Option<Pick> {
    selected_of(listed(app.aliases@, entry_views(app.store.history@), app.input@), app.cursor as int)
}

/// With the head resolved to `d`, the shortcut key that runs in place of
/// `rest`: none when `rest` is itself a key of `d`, else the key of the
/// highlighted shortcut row when that row belongs to `d`.
pub open spec fn override_of(app: App, d: AliasView, rest: Seq<char>) -> Option<Seq<char>> {
    if d.shortcuts.dom().contains(trim_seq(rest)) {
        None
    } else {
        match selection(app) {
            Some(Pick::Shortcut(a, k)) => if eq_fold(a, d.name) {
                Some(k)
            } else {
                None
            },
            _ => None,
        }
    }
}

/// Head resolved but `rest` is not an exact key: the highlighted shortcut
/// row decides, so Up/Down + Enter works for the `br b` picker flow.
pub fn shortcut_override(app: &App, def: &AliasDef, rest: &str) -> (r: Option<String>)
    requires
        app.input@.len() <= MAX_NEEDLE,
    ensures
        opt_view(r) == override_of(*app, def@, rest@),
{
    let key = trim(rest);
    if def.shortcuts.contains_key(key.as_str()) {
        return None;
    }
    match selected(app) {
        Some(Candidate::Shortcut { alias, key }) => {
            if eq_ignore_case(alias.as_str(), def.name.as_str()) {
                Some(key)
            } else {
                None
            }
        },
        _ => None,
    }
}

/// The alias (by index) and input the selected candidate runs, or the
/// message for the status line.
pub open spec fn selected_target_of(app: App) -> Result<(int, Seq<char>), Seq<char>> {
    let defs = alias_views(app.aliases@);
    let h = entry_views(app.store.history@);
    match selection(app) {
        Some(Pick::Shortcut(a, k)) => match resolved(defs, a) {
            Some(i) => if defs[i].shortcuts.dom().contains(k) {
                Ok((i, k))
            } else {
                Err("shortcut not found: "@ + k)
            },
            None => Err("alias not found: "@ + a),
        },
        Some(Pick::History(idx)) => if 0 <= idx < h.len() {
            match resolved(defs, h[idx].0) {
                Some(i) => Ok((i, decoded_text(h[idx].1))),
                None => Err("alias not found: "@ + h[idx].0),
            }
        } else {
            Err("no match"@)
        },
        None => Err("no match"@),
    }
}

/// Target resolution via the selected candidate: a shortcut row runs its
/// key, a history row its recorded alias and input.
pub fn selected_target(app: &App) -> (r: Result<(usize, String), String>)
    requires
        app.input@.len() <= MAX_NEEDLE,
    ensures
        match selected_target_of(*app) {
            Ok((i, s)) => r matches Ok((j, t)) && j == i && t@ == s,
            Err(m) => r matches Err(e) && e@ == m,
        },
{
    match selected(app) {
        Some(Candidate::Shortcut { alias, key }) => match resolve_index(app.aliases.as_slice(), alias.as_str()) {
            Some(i) => {
                if app.aliases[i].shortcuts.contains_key(key.as_str()) {
                    Ok((i, key))
                } else {
                    Err(cat2("shortcut not found: ", key.as_str()))
                }
            },
            None => Err(cat2("alias not found: ", alias.as_str())),
        },
        Some(Candidate::History { idx }) => {
            if idx < app.store.history.len() {
                let entry = &app.store.history[idx];
                let input = entry.input();
                match resolve_index(app.aliases.as_slice(), entry.alias.as_str()) {
                    Some(i) => Ok((i, input)),
                    None => Err(cat2("alias not found: ", entry.alias.as_str())),
                }
            } else {
                Err(owned("no match"))
            }
        },
        None => Err(owned("no match")),
    }
}

/// The first word of a trimmed line.
pub open spec fn head_of(t: Seq<char>) -> Seq<char> {
    t.take(run_end(t, 0))
}

/// What follows the first word and the whitespace char after it, trimmed.
pub open spec fn rest_of(t: Seq<char>) -> Seq<char> {
    if run_end(t, 0) < t.len() {
        trim_seq(t.skip(run_end(t, 0) + 1))
    } else {
        Seq::empty()
    }
}

/// A `/` command line.
pub open spec fn slash_line(t: Seq<char>) -> bool {
    t.len() > 0 && t[0] == '/'
}

/// What Enter on a normal line runs: a resolving head wins, with the rest
/// of the line as input unless the highlighted row of that alias overrides
/// it; otherwise the selected candidate decides.
pub open spec fn target_of(app: App) -> Result<(int, Seq<char>), Seq<char>> {
    let t = trim_seq(app.input@);
    let defs = alias_views(app.aliases@);
    match resolved(defs, head_of(t)) {
        Some(i) => match override_of(app, defs[i], rest_of(t)) {
            Some(k) => Ok((i, k)),
            None => Ok((i, rest_of(t))),
        },
        None => selected_target_of(app),
    }
}

/// An alias ready to run: the input as typed (what history records) and
/// the text the command is handed.
pub struct Prepared {
    pub def: AliasDef,
    pub input: String,
    pub payload: String,
}

/// What the run of alias `d` with `input` is handed on `platform`: the
/// input with its shortcut key resolved, decoded for the native clipboard.
pub open spec fn payload_of(d: AliasView, input: Seq<char>, platform: Platform) -> Seq<char> {
    native_payload(
        chosen(d, platform) matches Some(t) && trim_seq(t) == crate::clipboard::TEMPLATE@,
        resolved_input(d.shortcuts, input),
    )
}

/// Enter on the input line, up to the run: a `/` line is submitted as a
/// slash command; an unresolvable line only sets the status; otherwise the
/// alias, the input and the payload come back and the app is unchanged.
pub fn prepare(app: &mut App, platform: Platform) -> (r: Option<Prepared>)
    requires
        old(app).input@.len() <= MAX_NEEDLE,
    ensures
        slash_line(trim_seq(old(app).input@)) ==> r is None && slash_done(
            *old(app),
            *final(app),
            trim_seq(old(app).input@),
            platform,
        ),
        !slash_line(trim_seq(old(app).input@)) ==> match target_of(*old(app)) {
            Err(m) => r is None && only_status(*old(app), *final(app), (false, m)),
            Ok((i, s)) => {
                &&& *final(app) == *old(app)
                &&& r matches Some(p) && {
                    &&& p.def@ == alias_views(old(app).aliases@)[i]
                    &&& p.input@ == s
                    &&& p.payload@ == payload_of(p.def@, s, platform)
                }
            },
        },
{
    let t = trim(app.input.as_str());
    let v = chars_of(t.as_str());
    let n = v.len();
    if n > 0 && v[0] == '/' {
        submit_slash(app, t.as_str(), platform);
        return None;
    }
    let mut w: usize = 0;
    while w < n && !is_whitespace(v[w])
        invariant
            v@ == t@,
            n == v.len(),
            w <= n,
            run_end(t@, 0) == run_end(t@, w as int),
        decreases n - w,
    {
        w += 1;
    }
    assert(run_end(t@, w as int) == w);
    let head = string_of(&v, 0, w);
    assert(head@ =~= head_of(t@));
    let rest = if w < n {
        let tail = string_of(&v, w + 1, n);
        assert(tail@ =~= t@.skip(w + 1));
        trim(tail.as_str())
    } else {
        String::new()
    };
    assert(rest@ =~= rest_of(t@));
    let target = match resolve_index(app.aliases.as_slice(), head.as_str()) {
        Some(i) => match shortcut_override(app, &app.aliases[i], rest.as_str()) {
            Some(k) => Ok((i, k)),
            None => Ok((i, rest)),
        },
        None => selected_target(app),
    };
    match target {
        Err(m) => {
            set_status(app, false, m);
            None
        },
        Ok((i, input)) => {
            let def = app.aliases[i].duplicate();
            let run_input = resolve_shortcuts(&def, input.as_str());
            let native = uses_native_clipboard(&def, platform);
            let payload = clipboard_payload(native, run_input.as_str());
            Some(Prepared { def, input, payload })
        },
    }
}

/// What the status echoes of a run: the raw input, or the alias name when
/// the input is blank.
pub open spec fn shown_of(name: Seq<char>, input: Seq<char>) -> Seq<char> {
    if blank(input) {
        name
    } else {
        input
    }
}

/// A successful run of `name` with `input` at `now` was recorded: history
/// took the entry, the line was cleared, and a summoned bar quits.
pub open spec fn recorded_run(old: App, new: App, name: Seq<char>, input: Seq<char>, now: u64) -> bool {
    &&& entry_views(new.store.history@) == recorded(entry_views(old.store.history@), name, input, now)
    &&& new.store.config == old.store.config
    &&& alias_views(new.store.aliases@) == alias_views(old.store.aliases@)
    &&& new.store.version == old.store.version
    &&& new.store.from_newer_version == old.store.from_newer_version
    &&& new.store.load_notice == old.store.load_notice
    &&& alias_views(new.aliases@) == alias_views(old.aliases@)
    &&& line_set(new, Seq::empty())
    &&& new.quit == (old.quit || old.summon)
    &&& new.visibility == old.visibility
    &&& new.summon == old.summon
    &&& new.wake == old.wake
    &&& new.command == old.command
    &&& new.palette == old.palette
    &&& new.mode == old.mode
}

/// Record what came of running alias `name` with `input`: a success enters
/// history at `now` and returns the text the status will echo once the
/// store is saved (see [`finish`]); a job still running when the grace ran
/// out is not recorded and keeps the input; a failure keeps the input for a
/// retry.
pub fn conclude(app: &mut App, name: &str, input: &str, out: ExecOutcome, now: u64) -> (r: Option<String>)
    ensures
        match out {
            ExecOutcome::Success(_) => r matches Some(s) && s@ == shown_of(name@, input@)
                && recorded_run(*old(app), *final(app), name@, input@, now),
            ExecOutcome::Started(m) => r is None && only_status(
                *old(app),
                *final(app),
                (true, m@ + " (still running; not recorded)"@),
            ),
            ExecOutcome::Failure(m) => r is None && only_status(*old(app), *final(app), (false, m@)),
        },
{
    match out {
        ExecOutcome::Success(_) => {
            record(&mut app.store, name, input, now);
            let shown = if is_blank(input) {
                owned(name)
            } else {
                owned(input)
            };
            set_input(app, String::new());
            if app.summon {
                app.quit = true;
            }
            Some(shown)
        },
        ExecOutcome::Started(m) => {
            let msg = cat2(m.as_str(), " (still running; not recorded)");
            set_status(app, true, msg);
            None
        },
        ExecOutcome::Failure(m) => {
            set_status(app, false, m);
            None
        },
    }
}

/// The status after a recorded run of `name` was saved (or not).
pub open spec fn run_status(name: Seq<char>, shown: Seq<char>, result: Result<(), Seq<char>>) -> (bool, Seq<char>) {
    match result {
        Ok(_) => (true, name + " ok: "@ + shown),
        Err(e) => (false, name + " ran, but saving history failed: "@ + e),
    }
}

/// Report a recorded run once the store was saved: the run succeeded
/// either way, only persistence can still fail.
pub fn finish(app: &mut App, name: &str, shown: &str, result: Result<(), String>)
    ensures
        only_status(
            *old(app),
            *final(app),
            run_status(
                name@,
                shown@,
                match result {
                    Ok(_) => Ok(()),
                    Err(e) => Err(e@),
                },
            ),
        ),
{
    match result {
        Ok(()) => set_status(app, true, cat3(name, " ok: ", shown)),
        Err(e) => set_status(app, false, cat3(name, " ran, but saving history failed: ", e.as_str())),
    }
}

} // verus!
