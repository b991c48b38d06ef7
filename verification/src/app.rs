//! Action application: the only place the launcher's [`App`] is mutated.
//! What needs the outside world (running an alias, writing the store file,
//! reading the browser's bookmarks) is handed back to the caller as a
//! [`Followup`].

use vstd::prelude::*;

use crate::action::Action;
use crate::alias::{
    alias_views, default_name, default_views, defaults, is_default_name, BUILTIN_DELETE, find_named, label, label_of, named, no_shortcut_msg,
    not_found_msg, opt_view, remove_shortcut, resolve_index, resolved, set_shortcut,
    with_shortcuts, AliasDef, AliasView,
};
use crate::colon::{colon_parsed, parse, AliasOp, OpModel};
use crate::commands::{get, insert_text, row, spec_of, COUNT};
use crate::fuzzy::MAX_NEEDLE;
use crate::matcher::picks;
use crate::platform::Platform;
use crate::settings::{new_for, same_store, status_view, SettingsModel};
use crate::state::{candidates, listed, App, Mode, Visibility};
use crate::storage::{entry_views, merge_aliases, merged};
use crate::text::{cat2, cat4, chars_of, eq_str, owned, string_of, trim, trim_seq};
use crate::textedit::{
    backspace, backspaced, delete, deleted, inserted, kill_to_end, kill_to_start, kill_word,
    killed_to_end, killed_to_start, killed_word, motion, moved, transpose, transposed,
};

verus! {

/// Colon-command help shown for `:help` / unknown sub-commands.
pub const COLON_HELP: &'static str = "\":add name[,short] <linux-cmd> [// <macos-cmd>]\" \u{b7} \":del name\" \u{b7} \":arg name key value\" \u{b7} \":unarg name key\"";


/// What the caller still has to do after an action.
#[derive(Debug, Clone, PartialEq)]
pub enum Followup {
    /// Nothing more.
    Done,
    /// Run the input line (the run path, which spawns the alias's command).
    Execute,
    /// The store changed: persist it, then report through [`saved`] with
    /// this success message.
    Save(String),
    /// Import the browser's bookmarks as shortcuts of this alias (`br` when
    /// `None`), then persist.
    ImportChrome(Option<String>),
}

/// The launcher state apart from the input line, the store and the alias
/// list, is unchanged.
pub open spec fn same_ui(old: App, new: App) -> bool {
    &&& new.visibility == old.visibility
    &&& new.quit == old.quit
    &&& new.summon == old.summon
    &&& new.wake == old.wake
    &&& new.command == old.command
    &&& new.palette == old.palette
    &&& new.mode == old.mode
}

/// The store and the alias list are unchanged.
pub open spec fn same_data(old: App, new: App) -> bool {
    &&& same_store(new.store, old.store)
    &&& alias_views(new.aliases@) == alias_views(old.aliases@)
}

/// The input line, caret, selection and status are unchanged.
pub open spec fn same_line(old: App, new: App) -> bool {
    &&& new.input@ == old.input@
    &&& new.caret == old.caret
    &&& new.cursor == old.cursor
    &&& status_view(new.status) == status_view(old.status)
}

/// The input line was replaced by `text`: caret at its end, selection and
/// status reset.
pub open spec fn line_set(new: App, text: Seq<char>) -> bool {
    &&& new.input@ == text
    &&& new.caret == text.len()
    &&& new.cursor == 0
    &&& new.status is None
}

/// Only the status line changed, to `s`.
pub open spec fn only_status(old: App, new: App, s: (bool, Seq<char>)) -> bool {
    &&& same_ui(old, new)
    &&& same_data(old, new)
    &&& new.input@ == old.input@
    &&& new.caret == old.caret
    &&& new.cursor == old.cursor
    &&& status_view(new.status) == Some(s)
}

/// The stored aliases became `v2` (the alias list is rebuilt from them),
/// the line was cleared, and the caller is asked to save and report `msg`.
pub open spec fn data_saved(old: App, new: App, r: Followup, v2: Seq<AliasView>, msg: Seq<char>) -> bool {
    &&& alias_views(new.store.aliases@) == v2
    &&& alias_views(new.aliases@) == merged(v2)
    &&& new.store.config == old.store.config
    &&& entry_views(new.store.history@) == entry_views(old.store.history@)
    &&& new.store.version == old.store.version
    &&& new.store.from_newer_version == old.store.from_newer_version
    &&& new.store.load_notice == old.store.load_notice
    &&& line_set(new, Seq::empty())
    &&& same_ui(old, new)
    &&& r matches Followup::Save(m) && m@ == msg
}

/// `s` without its leading `:`s.
pub open spec fn strip_colons(s: Seq<char>) -> Seq<char>
    decreases s.len(),
{
    if s.len() > 0 && s[0] == ':' {
        strip_colons(s.drop_first())
    } else {
        s
    }
}

/// The command line a `:` input carries: trimmed, leading `:`s dropped,
/// trimmed again.
pub open spec fn colon_line(input: Seq<char>) -> Seq<char> {
    trim_seq(strip_colons(trim_seq(input)))
}

/// A one-command `:add` serves both platforms: a missing macOS command is
/// the Linux one.
pub open spec fn mirrored(d: AliasView) -> AliasView {
    if d.macos is None {
        AliasView { macos: d.linux, ..d }
    } else {
        d
    }
}


/// What submitting the `:` line of `old` does, as a relation between the
/// app before, the app after and the follow-up.
pub open spec fn colon_done(old: App, new: App, r: Followup) -> bool {
    let v = alias_views(old.store.aliases@);
    match colon_parsed(colon_line(old.input@)) {
        Err(e) => r == Followup::Done && only_status(old, new, (false, e)),
        Ok(None) => r == Followup::Done && only_status(old, new, (true, COLON_HELP@)),
        Ok(Some(op)) => match op {
            OpModel::Add(d) => {
                let d2 = mirrored(d);
                let v2 = match named(v, d.name) {
                    Some(i) => v.update(i, d2),
                    None => v.push(d2),
                };
                data_saved(old, new, r, v2, "alias added: "@ + label_of(d2))
            },
            OpModel::Remove(n) => if default_name(n) {
                r == Followup::Done && only_status(old, new, (false, BUILTIN_DELETE@))
            } else {
                match named(v, n) {
                    Some(i) => data_saved(old, new, r, v.remove(i), "alias removed: "@ + n),
                    None => r == Followup::Done && only_status(old, new, (false, not_found_msg(n))),
                }
            },
            OpModel::SetShortcut { name, key, value } => match resolved(alias_views(old.aliases@), name) {
                None => r == Followup::Done && only_status(old, new, (false, not_found_msg(name))),
                Some(j) => {
                    let cname = alias_views(old.aliases@)[j].name;
                    match named(v, cname) {
                        None => r == Followup::Done && only_status(old, new, (false, not_found_msg(cname))),
                        Some(i) => data_saved(
                            old,
                            new,
                            r,
                            v.update(i, with_shortcuts(v[i], v[i].shortcuts.insert(key, value))),
                            (if v[i].shortcuts.dom().contains(key) {
                                "arg updated: "@
                            } else {
                                "arg added: "@
                            }) + cname + " "@ + key,
                        ),
                    }
                },
            },
            OpModel::DelShortcut { name, key } => match resolved(alias_views(old.aliases@), name) {
                None => r == Followup::Done && only_status(old, new, (false, not_found_msg(name))),
                Some(j) => {
                    let cname = alias_views(old.aliases@)[j].name;
                    match named(v, cname) {
                        None => r == Followup::Done && only_status(old, new, (false, not_found_msg(cname))),
                        Some(i) => if v[i].shortcuts.dom().contains(key) {
                            data_saved(
                                old,
                                new,
                                r,
                                v.update(i, with_shortcuts(v[i], v[i].shortcuts.remove(key))),
                                "arg removed: "@ + cname + " "@ + key,
                            )
                        } else {
                            r == Followup::Done && only_status(old, new, (false, no_shortcut_msg(key, cname)))
                        },
                    }
                },
            },
            OpModel::ImportChrome { target } => {
                &&& r matches Followup::ImportChrome(t) && opt_view(t) == target
                &&& same_ui(old, new)
                &&& same_data(old, new)
                &&& same_line(old, new)
            },
        },
    }
}

/// Replace the input; the caret goes to its end, the selection and the
/// transient status are reset.
pub fn set_input(app: &mut App, s: String)
    ensures
        line_set(*final(app), s@),
        same_ui(*old(app), *final(app)),
        same_data(*old(app), *final(app)),
{
    let n = chars_of(s.as_str()).len();
    app.input = s;
    app.caret = n;
    app.cursor = 0;
    app.status = None;
}

/// Recompute the effective alias list after a store mutation.
fn rebuild_aliases(app: &mut App)
    ensures
        alias_views(final(app).aliases@) == merged(alias_views(old(app).store.aliases@)),
        final(app).store == old(app).store,
        final(app).input == old(app).input,
        final(app).caret == old(app).caret,
        final(app).cursor == old(app).cursor,
        final(app).status == old(app).status,
        same_ui(*old(app), *final(app)),
{
    app.aliases = merge_aliases(app.store.aliases.as_slice());
}

/// `s` without its leading `:`s.
fn strip_colons_exec(s: &str) -> (r: String)
    ensures
        r@ == strip_colons(s@),
{
    let v = chars_of(s);
    let mut i: usize = 0;
    assert(s@.skip(0) =~= s@);
    while i < v.len() && v[i] == ':'
        invariant
            v@ == s@,
            i <= v.len(),
            strip_colons(s@.skip(i as int)) == strip_colons(s@),
        decreases v.len() - i,
    {
        assert(s@.skip(i as int).drop_first() =~= s@.skip(i + 1));
        i += 1;
    }
    assert(s@.skip(i as int) =~= v@.subrange(i as int, v@.len() as int));
    string_of(&v, i, v.len())
}


/// Set the status line, leaving everything else alone.
pub(crate) fn set_status(app: &mut App, ok: bool, msg: String)
    ensures
        only_status(*old(app), *final(app), (ok, msg@)),
{
    app.status = Some((ok, msg));
}

/// Submit a `:` command: apply `:add` / `:del` / `:arg` / `:unarg` to the
/// stored aliases (the caller saves), show the help for `:help`, empty or
/// unknown lines, hand `:import-chrome` to the caller, and show any parse
/// error.
pub fn submit_colon(app: &mut App) -> (r: Followup)
    ensures
        colon_done(*old(app), *final(app), r),
{
    let t = trim(app.input.as_str());
    let stripped = strip_colons_exec(t.as_str());
    let line = trim(stripped.as_str());
    let ghost v = alias_views(app.store.aliases@);
    match parse(line.as_str()) {
        Err(e) => {
            set_status(app, false, e);
            Followup::Done
        },
        Ok(None) => {
            set_status(app, true, owned(COLON_HELP));
            Followup::Done
        },
        Ok(Some(AliasOp::Add(def))) => {
            let mut def = def;
            let ghost d0 = def@;
            if def.macos.is_none() {
                def.macos = match &def.linux {
                    Some(l) => Some(l.clone()),
                    None => None,
                };
            }
            assert(def@ == mirrored(d0));
            let lbl = label(&def);
            match find_named(&app.store.aliases, def.name.as_str()) {
                Some(i) => {
                    app.store.aliases.set(i, def);
                    assert(alias_views(app.store.aliases@) =~= v.update(i as int, mirrored(d0)));
                },
                None => {
                    app.store.aliases.push(def);
                    assert(alias_views(app.store.aliases@) =~= v.push(mirrored(d0)));
                },
            }
            rebuild_aliases(app);
            set_input(app, String::new());
            Followup::Save(cat2("alias added: ", lbl.as_str()))
        },
        Ok(Some(AliasOp::Remove(name))) => {
            if is_default_name(name.as_str()) {
                set_status(app, false, owned(BUILTIN_DELETE));
                return Followup::Done;
            }
            match find_named(&app.store.aliases, name.as_str()) {
                Some(i) => {
                    app.store.aliases.remove(i);
                    assert(alias_views(app.store.aliases@) =~= v.remove(i as int));
                    rebuild_aliases(app);
                    set_input(app, String::new());
                    Followup::Save(cat2("alias removed: ", name.as_str()))
                },
                None => {
                    set_status(app, false, cat2("alias not found: ", name.as_str()));
                    Followup::Done
                },
            }
        },
        Ok(Some(AliasOp::SetShortcut { name, key, value })) => {
            let j = match resolve_index(app.aliases.as_slice(), name.as_str()) {
                Some(j) => j,
                None => {
                    set_status(app, false, cat2("alias not found: ", name.as_str()));
                    return Followup::Done;
                },
            };
            let cname = app.aliases[j].name.clone();
            match set_shortcut(&mut app.store.aliases, cname.as_str(), key.as_str(), value.as_str()) {
                Ok(prev) => {
                    rebuild_aliases(app);
                    set_input(app, String::new());
                    let verb = if prev.is_some() {
                        "arg updated: "
                    } else {
                        "arg added: "
                    };
                    let m = cat4(verb, cname.as_str(), " ", key.as_str());
                    Followup::Save(m)
                },
                Err(e) => {
                    set_status(app, false, e);
                    Followup::Done
                },
            }
        },
        Ok(Some(AliasOp::DelShortcut { name, key })) => {
            let j = match resolve_index(app.aliases.as_slice(), name.as_str()) {
                Some(j) => j,
                None => {
                    set_status(app, false, cat2("alias not found: ", name.as_str()));
                    return Followup::Done;
                },
            };
            let cname = app.aliases[j].name.clone();
            match remove_shortcut(&mut app.store.aliases, cname.as_str(), key.as_str()) {
                Ok(()) => {
                    rebuild_aliases(app);
                    set_input(app, String::new());
                    Followup::Save(cat4("arg removed: ", cname.as_str(), " ", key.as_str()))
                },
                Err(e) => {
                    set_status(app, false, e);
                    Followup::Done
                },
            }
        },
        Ok(Some(AliasOp::ImportChrome { target })) => Followup::ImportChrome(target),
    }
}

/// The status after the caller tried to persist a change reported as `ok`:
/// a failed save must not look like a successful edit.
pub open spec fn save_status(ok: Seq<char>, result: Result<(), Seq<char>>) -> (bool, Seq<char>) {
    match result {
        Ok(_) => (true, ok),
        Err(e) => (false, ok + " - but saving failed: "@ + e),
    }
}

/// Report the outcome of persisting a change whose success message is `ok`.
pub fn saved(app: &mut App, ok: &str, result: Result<(), String>)
    ensures
        only_status(
            *old(app),
            *final(app),
            save_status(
                ok@,
                match result {
                    Ok(_) => Ok(()),
                    Err(e) => Err(e@),
                },
            ),
        ),
{
    match result {
        Ok(()) => set_status(app, true, owned(ok)),
        Err(e) => {
            let tail = cat2(" - but saving failed: ", e.as_str());
            let m = cat2(ok, tail.as_str());
            assert(m@ =~= ok@ + " - but saving failed: "@ + e@);
            set_status(app, false, m)
        },
    }
}

/// What submitting the `/` line `line` does: `/settings` clears the line
/// and opens the settings page for `platform`; anything else keeps the line
/// and says the command is unknown.
pub open spec fn slash_done(old: App, new: App, line: Seq<char>, platform: Platform) -> bool {
    if line == "/settings"@ {
        &&& line_set(new, Seq::empty())
        &&& same_data(old, new)
        &&& new.mode matches Mode::Settings(st) && st@ == (SettingsModel {
            form: None,
            cursor: 0,
            expanded: None,
            status: None,
            platform,
        })
        &&& new.visibility == old.visibility
        &&& new.quit == old.quit
        &&& new.summon == old.summon
        &&& new.palette == old.palette
        &&& new.wake == old.wake
        &&& new.command == old.command
    } else {
        only_status(old, new, (false, "unknown command: "@ + line + " \u{b7} try /settings"@))
    }
}

/// Submit a `/` command. Only `/settings` exists; unknown ones keep the
/// input.
pub fn submit_slash(app: &mut App, line: &str, platform: Platform)
    ensures
        slash_done(*old(app), *final(app), line@, platform),
{
    if eq_str(line, "/settings") {
        set_input(app, String::new());
        app.mode = Mode::Settings(Box::new(new_for(platform)));
    } else {
        let m = cat2(cat2("unknown command: ", line).as_str(), " \u{b7} try /settings");
        set_status(app, false, m);
    }
}

/// The selection after moving by `delta` among `n` rows.
pub open spec fn stepped(n: int, cur: int, delta: int) -> int {
    crate::settings::moved_sel(n, cur, delta)
}

/// Move the candidate selection by `delta`, clamped into the list.
fn move_sel(app: &mut App, delta: i32)
    requires
        old(app).input@.len() <= MAX_NEEDLE,
        delta == 1 || delta == -1,
    ensures
        final(app).cursor == stepped(
            listed(old(app).aliases@, entry_views(old(app).store.history@), old(app).input@).len() as int,
            old(app).cursor as int,
            delta as int,
        ),
        final(app).input == old(app).input,
        final(app).caret == old(app).caret,
        final(app).status == old(app).status,
        final(app).store == old(app).store,
        final(app).aliases == old(app).aliases,
        same_ui(*old(app), *final(app)),
{
    let len = candidates(app).len();
    if len == 0 {
        app.cursor = 0;
        return;
    }
    let cur: usize = if app.cursor < len - 1 {
        app.cursor
    } else {
        len - 1
    };
    app.cursor = if delta < 0 {
        if cur == 0 {
            0
        } else {
            cur - 1
        }
    } else if cur + 1 > len - 1 {
        len - 1
    } else {
        cur + 1
    };
}

/// The palette selection or candidate cursor after Up/Down.
pub open spec fn selection_moved(old: App, new: App, delta: int) -> bool {
    &&& new.input == old.input
    &&& new.caret == old.caret
    &&& new.status == old.status
    &&& new.store == old.store
    &&& new.aliases == old.aliases
    &&& new.visibility == old.visibility
    &&& new.quit == old.quit
    &&& new.summon == old.summon
    &&& new.wake == old.wake
    &&& new.command == old.command
    &&& new.mode == old.mode
    &&& match old.palette {
        None => new.palette is None && new.cursor == stepped(
            listed(old.aliases@, entry_views(old.store.history@), old.input@).len() as int,
            old.cursor as int,
            delta,
        ),
        Some(cur) => new.cursor == old.cursor && new.palette == Some(
            stepped(COUNT as int, cur as int, delta) as usize,
        ),
    }
}

/// Up/Down: move the palette selection while it is open, else the ranked
/// candidate cursor Enter will run.
fn move_selection(app: &mut App, delta: i32)
    requires
        old(app).input@.len() <= MAX_NEEDLE,
        delta == 1 || delta == -1,
    ensures
        selection_moved(*old(app), *final(app), delta as int),
{
    match app.palette {
        None => move_sel(app, delta),
        Some(cur) => {
            let len = crate::commands::len();
            let c: usize = if cur < len - 1 {
                cur
            } else {
                len - 1
            };
            let next = if delta < 0 {
                if c == 0 {
                    0
                } else {
                    c - 1
                }
            } else if c + 1 > len - 1 {
                len - 1
            } else {
                c + 1
            };
            app.palette = Some(next);
        },
    }
}

/// What Enter on an open palette does: the selected command's text goes
/// into the input; a command that needs arguments waits for them, a
/// complete one runs at once (`/` ones as slash commands, `:` ones as colon
/// commands). The palette closes either way.
pub open spec fn accept_done(old: App, new: App, r: Followup, platform: Platform) -> bool {
    match old.palette {
        Some(i) if i < COUNT => {
            let (token, _, needs_arg) = row(i as int);
            let text = if needs_arg {
                token + " "@
            } else {
                token
            };
            let mid = App { palette: None, ..old };
            if needs_arg {
                r == Followup::Done && line_set(new, text) && same_ui(mid, new) && same_data(mid, new)
            } else if text.len() > 0 && text[0] == '/' {
                r == Followup::Done && exists|m: App|
                    #![trigger m.input]
                    line_set(m, text) && same_ui(mid, m) && same_data(mid, m) && slash_done(
                        m,
                        new,
                        trim_seq(text),
                        platform,
                    )
            } else {
                exists|m: App|
                    #![trigger m.input]
                    line_set(m, text) && same_ui(mid, m) && same_data(mid, m) && colon_done(m, new, r)
            }
        },
        _ => r == Followup::Done && new.palette is None && same_data(old, new) && same_line(old, new)
            && new.visibility == old.visibility && new.quit == old.quit && new.mode == old.mode,
    }
}

/// Enter on an open palette: complete commands (`:help`, `/settings`) run
/// immediately, argument-taking ones prefill the input (`:add `). Closes
/// either way.
fn palette_accept(app: &mut App, platform: Platform) -> (r: Followup)
    ensures
        accept_done(*old(app), *final(app), r, platform),
{
    let spec = match app.palette {
        Some(i) => get(i),
        None => None,
    };
    app.palette = None;
    let spec = match spec {
        Some(s) => s,
        None => {
            return Followup::Done;
        },
    };
    let text = insert_text(&spec);
    set_input(app, text);
    let ghost m = *app;
    if spec.needs_arg {
        return Followup::Done;
    }
    let tv = chars_of(app.input.as_str());
    if tv.len() > 0 && tv[0] == '/' {
        let line = trim(app.input.as_str());
        submit_slash(app, line.as_str(), platform);
        Followup::Done
    } else {
        submit_colon(app)
    }
}

/// The line after an edit: text and caret from the edit, selection,
/// status and palette reset, nothing else touched.
pub open spec fn edit_done(old: App, new: App, e: (Seq<char>, int)) -> bool {
    &&& new.input@ == e.0
    &&& new.caret == e.1
    &&& new.cursor == 0
    &&& new.status is None
    &&& new.palette is None
    &&& same_data(old, new)
    &&& new.visibility == old.visibility
    &&& new.quit == old.quit
    &&& new.summon == old.summon
    &&& new.wake == old.wake
    &&& new.command == old.command
    &&& new.mode == old.mode
}

/// Apply one edit result to the input line.
fn apply_edit(app: &mut App, e: (String, usize))
    ensures
        edit_done(*old(app), *final(app), (e.0@, e.1 as int)),
{
    app.palette = None;
    app.input = e.0;
    app.caret = e.1;
    app.cursor = 0;
    app.status = None;
}

/// What one action does to the app (and what it leaves to the caller).
pub open spec fn applied_action(old: App, new: App, action: Action, r: Followup, platform: Platform) -> bool {
    match action {
        Action::Nop => r == Followup::Done && new == old,
        Action::Quit => r == Followup::Done && new == (App { quit: true, ..old }),
        Action::ToggleBar => r == Followup::Done && new == (App {
            palette: None,
            visibility: if old.visibility == Visibility::Hidden {
                Visibility::Shown
            } else {
                Visibility::Hidden
            },
            status: None,
            ..old
        }),
        Action::OpenPalette => r == Followup::Done && new == (App {
            palette: Some(0),
            status: None,
            ..old
        }),
        Action::ClosePalette => r == Followup::Done && new == (App { palette: None, ..old }),
        Action::PaletteAccept => accept_done(old, new, r, platform),
        Action::Execute => {
            let t = trim_seq(old.input@);
            if t.len() > 0 && t[0] == '/' {
                r == Followup::Done && slash_done(old, new, t, platform)
            } else {
                r == Followup::Execute && new == old
            }
        },
        Action::SubmitColon => colon_done(old, new, r),
        Action::InsertChar(c) => r == Followup::Done && edit_done(
            old,
            new,
            inserted(old.input@, old.caret as int, c),
        ),
        Action::Backspace => r == Followup::Done && edit_done(
            old,
            new,
            backspaced(old.input@, old.caret as int),
        ),
        Action::DeleteForward => r == Followup::Done && edit_done(
            old,
            new,
            deleted(old.input@, old.caret as int),
        ),
        Action::KillToStart => r == Followup::Done && edit_done(
            old,
            new,
            killed_to_start(old.input@, old.caret as int),
        ),
        Action::KillToEnd => r == Followup::Done && edit_done(
            old,
            new,
            killed_to_end(old.input@, old.caret as int),
        ),
        Action::KillWord => r == Followup::Done && edit_done(
            old,
            new,
            killed_word(old.input@, old.caret as int),
        ),
        Action::Transpose => r == Followup::Done && edit_done(
            old,
            new,
            transposed(old.input@, old.caret as int),
        ),
        Action::Motion(m) => r == Followup::Done && new == (App {
            caret: moved(old.input@, old.caret as int, m) as usize,
            ..old
        }),
        Action::MoveUp => r == Followup::Done && selection_moved(old, new, -1),
        Action::MoveDown => r == Followup::Done && selection_moved(old, new, 1),
    }
}

/// Toggling the bar flips its visibility, closes the palette and clears the
/// status, leaving everything else alone; toggling it again gives the
/// visibility back.
pub proof fn lemma_toggle_twice(a: App, b: App, c: App, r1: Followup, r2: Followup, platform: Platform)
    requires
        applied_action(a, b, Action::ToggleBar, r1, platform),
        applied_action(b, c, Action::ToggleBar, r2, platform),
    ensures
        b.visibility != a.visibility,
        b.palette is None && b.status is None,
        b.input == a.input && b.cursor == a.cursor && b.store == a.store && b.quit == a.quit
            && b.summon == a.summon && b.mode == a.mode,
        c == (App { palette: None, status: None, ..a }),
{
}

/// Apply an action in place; what needs the outside world comes back as
/// the [`Followup`].
pub fn apply(app: &mut App, action: Action, platform: Platform) -> (r: Followup)
    requires
        old(app).input@.len() <= MAX_NEEDLE,
    ensures
        applied_action(*old(app), *final(app), action, r, platform),
{
    match action {
        Action::Nop => Followup::Done,
        Action::Quit => {
            app.quit = true;
            Followup::Done
        },
        Action::ToggleBar => {
            app.palette = None;
            app.visibility = match app.visibility {
                Visibility::Hidden => Visibility::Shown,
                Visibility::Shown => Visibility::Hidden,
            };
            app.status = None;
            Followup::Done
        },
        Action::OpenPalette => {
            app.palette = Some(0);
            app.status = None;
            Followup::Done
        },
        Action::ClosePalette => {
            app.palette = None;
            Followup::Done
        },
        Action::PaletteAccept => palette_accept(app, platform),
        Action::Execute => {
            let t = trim(app.input.as_str());
            let tv = chars_of(t.as_str());
            if tv.len() > 0 && tv[0] == '/' {
                submit_slash(app, t.as_str(), platform);
                Followup::Done
            } else {
                Followup::Execute
            }
        },
        Action::SubmitColon => submit_colon(app),
        Action::InsertChar(c) => {
            let e = crate::textedit::insert(app.input.as_str(), app.caret, c);
            apply_edit(app, e);
            Followup::Done
        },
        Action::Backspace => {
            let e = backspace(app.input.as_str(), app.caret);
            apply_edit(app, e);
            Followup::Done
        },
        Action::DeleteForward => {
            let e = delete(app.input.as_str(), app.caret);
            apply_edit(app, e);
            Followup::Done
        },
        Action::KillToStart => {
            let e = kill_to_start(app.input.as_str(), app.caret);
            apply_edit(app, e);
            Followup::Done
        },
        Action::KillToEnd => {
            let e = kill_to_end(app.input.as_str(), app.caret);
            apply_edit(app, e);
            Followup::Done
        },
        Action::KillWord => {
            let e = kill_word(app.input.as_str(), app.caret);
            apply_edit(app, e);
            Followup::Done
        },
        Action::Transpose => {
            let e = transpose(app.input.as_str(), app.caret);
            apply_edit(app, e);
            Followup::Done
        },
        Action::Motion(m) => {
            app.caret = motion(app.input.as_str(), app.caret, m);
            Followup::Done
        },
        Action::MoveUp => {
            move_selection(app, -1);
            Followup::Done
        },
        Action::MoveDown => {
            move_selection(app, 1);
            Followup::Done
        },
    }
}

} // verus!
