//! Effect application for the `/settings` page. The state machine
//! ([`crate::settings`]) stays a pure transition and hands every store
//! mutation over as an [`Effect`]; this module runs the `alias::` helpers
//! and reports the outcome on the list's status line. Persisting the store
//! is the binary's part: it saves whenever [`apply`] answers
//! [`Effect::Save`].

use vstd::prelude::*;

use crate::alias::{
    add_trigger, alias_views, edit_shortcut, find_named, invalid_trigger_msg,
    label, label_of, named, no_shortcut_msg, not_found_msg, other_claims, remove_trigger,
    rename_trigger, resolved, set_command, set_shortcut, taken_msg, trigger_dup_msg,
    trigger_missing_msg, trigger_pos, dup_elsewhere, with_command, with_shortcuts, with_triggers,
    ident, AliasView,
};
use crate::fuzzy::MAX_NEEDLE;
use crate::keyspec::KeyPress;
use crate::platform::{name, platform_name};
use crate::search::first_where;
use crate::alias::AliasDef;
use crate::settings::{
    clamped_cursor, dup_settings, form_page, handle_key, lemma_rows_by_view, list_step, reclamp,
    rows_of, view_rows, Effect, EffectModel, Settings, SettingsModel,
};
use crate::settings_form::form_step;
use crate::state::{App, Mode};
use crate::storage::{entry_views, Store};
use crate::text::{cat2, cat3, cat4, cat5, eq_fold, owned};

verus! {

/// A status outcome as plain values.
pub open spec fn res_view(r: Result<String, String>) -> Result<Seq<char>, Seq<char>> {
    match r {
        Ok(m) => Ok(m@),
        Err(m) => Err(m@),
    }
}

/// What applying the effect `e` to the aliases `v` gives: the status
/// message (`Ok` for a change, `Err` for a refusal) and the aliases after
/// it; `None` for the structural effects, which carry no data. Each
/// data-carrying effect goes through its `alias::` helper.
pub open spec fn applied(v: Seq<AliasView>, e: EffectModel) -> Option<(Result<Seq<char>, Seq<char>>, Seq<AliasView>)> {
    match e {
        EffectModel::AddAlias(d) => Some(
            (
                Ok("alias added: "@ + label_of(d)),
                match named(v, d.name) {
                    Some(i) => v.update(i, d),
                    None => v.push(d),
                },
            ),
        ),
        EffectModel::SetShortcut(a, k, val) => Some(
            match named(v, a) {
                None => (Err(not_found_msg(a)), v),
                Some(i) => (
                    Ok(
                        if v[i].shortcuts.dom().contains(k) {
                            "shortcut set: "@ + a + "."@ + k + " (replaced previous value)"@
                        } else {
                            "shortcut set: "@ + a + "."@ + k + " = "@ + val
                        },
                    ),
                    v.update(i, with_shortcuts(v[i], v[i].shortcuts.insert(k, val))),
                ),
            },
        ),
        EffectModel::AddTrigger(a, t) => Some(
            if !ident(t) {
                (Err(invalid_trigger_msg(t)), v)
            } else {
                match named(v, a) {
                    None => (Err(not_found_msg(a)), v),
                    Some(i) => match resolved(v, t) {
                        Some(j) => if eq_fold(v[j].name, a) {
                            (Ok("trigger already on "@ + a + ": "@ + t), v)
                        } else {
                            (Err(taken_msg(t, v[j].name)), v)
                        },
                        None => (
                            Ok("trigger added: "@ + a + " ("@ + t + ")"@),
                            v.update(i, with_triggers(v[i], v[i].triggers.push(t))),
                        ),
                    },
                }
            },
        ),
        EffectModel::RemoveTrigger(a, t) => Some(
            match named(v, a) {
                None => (Err(trigger_missing_msg(a, t)), v),
                Some(i) => match trigger_pos(v[i].triggers, t) {
                    None => (Err(trigger_missing_msg(a, t)), v),
                    Some(k) => (
                        Ok("trigger removed: "@ + a + " ("@ + t + ")"@),
                        v.update(i, with_triggers(v[i], v[i].triggers.remove(k))),
                    ),
                },
            },
        ),
        EffectModel::SetCommand(a, p, c) => Some(
            match named(v, a) {
                None => (Err(not_found_msg(a)), v),
                Some(i) => (
                    Ok("command updated: "@ + a + " ("@ + platform_name(p) + ")"@),
                    v.update(i, with_command(v[i], p, c)),
                ),
            },
        ),
        EffectModel::EditShortcut(a, old, k, val) => Some(
            match named(v, a) {
                None => (Err(not_found_msg(a)), v),
                Some(i) => if v[i].shortcuts.dom().contains(old) {
                    (
                        Ok("shortcut updated: "@ + a + " "@ + k + " = "@ + val),
                        v.update(
                            i,
                            with_shortcuts(
                                v[i],
                                (if old != k {
                                    v[i].shortcuts.remove(old)
                                } else {
                                    v[i].shortcuts
                                }).insert(k, val),
                            ),
                        ),
                    )
                } else {
                    (Err(no_shortcut_msg(old, a)), v)
                },
            },
        ),
        EffectModel::RenameTrigger(a, old, new) => Some(
            if old == new {
                (Ok("trigger renamed: "@ + a + " "@ + old + " → "@ + new), v)
            } else if !ident(new) {
                (Err(invalid_trigger_msg(new)), v)
            } else {
                match named(v, a) {
                    None => (Err(not_found_msg(a)), v),
                    Some(i) => match trigger_pos(v[i].triggers, old) {
                        None => (Err(trigger_missing_msg(a, old)), v),
                        Some(pos) => match first_where(v.len() as int, other_claims(v, i, new)) {
                            Some(j) => (Err(taken_msg(new, v[j].name)), v),
                            None => if dup_elsewhere(v[i].triggers, pos, new) {
                                (Err(trigger_dup_msg(a, new)), v)
                            } else {
                                (
                                    Ok("trigger renamed: "@ + a + " "@ + old + " → "@ + new),
                                    v.update(i, with_triggers(v[i], v[i].triggers.update(pos, new))),
                                )
                            },
                        },
                    },
                }
            },
        ),
        _ => None,
    }
}

/// Apply one effect to the store. `Some(Ok(msg))` when the store changed
/// (msg goes to the status line), `Some(Err(msg))` when the helper refused
/// (store untouched), `None` for structural effects that carry no data.
pub fn apply_effect(store: &mut Store, effect: &Effect) -> (r: Option<Result<String, String>>)
    ensures
        match applied(alias_views(old(store).aliases@), effect@) {
            None => r is None && alias_views(final(store).aliases@) == alias_views(old(store).aliases@),
            Some(o) => r matches Some(x) && res_view(x) == o.0 && alias_views(final(store).aliases@)
                == o.1,
        },
        final(store).config == old(store).config,
        final(store).history == old(store).history,
        final(store).version == old(store).version,
        final(store).from_newer_version == old(store).from_newer_version,
        final(store).load_notice == old(store).load_notice,
{
    match effect {
        Effect::AddAlias(def) => {
            let lbl = label(def);
            let ghost before = alias_views(store.aliases@);
            match find_named(&store.aliases, def.name.as_str()) {
                Some(i) => {
                    store.aliases.set(i, def.duplicate());
                    assert(alias_views(store.aliases@) =~= before.update(i as int, def@));
                },
                None => {
                    store.aliases.push(def.duplicate());
                    assert(alias_views(store.aliases@) =~= before.push(def@));
                },
            }
            let m = cat2("alias added: ", lbl.as_str());
            Some(Ok(m))
        },
        Effect::SetShortcut { alias, key, value } => Some(
            match set_shortcut(&mut store.aliases, alias.as_str(), key.as_str(), value.as_str()) {
                Ok(Some(_)) => {
                    let m = cat5("shortcut set: ", alias.as_str(), ".", key.as_str(), " (replaced previous value)");
                    assert(m@ =~= "shortcut set: "@ + alias@ + "."@ + key@ + " (replaced previous value)"@);
                    Ok(m)
                },
                Ok(None) => {
                    let head = cat4("shortcut set: ", alias.as_str(), ".", key.as_str());
                    let m = cat3(head.as_str(), " = ", value.as_str());
                    assert(m@ =~= "shortcut set: "@ + alias@ + "."@ + key@ + " = "@ + value@);
                    Ok(m)
                },
                Err(e) => Err(e),
            },
        ),
        Effect::AddTrigger { alias, trigger } => Some(
            match add_trigger(&mut store.aliases, alias.as_str(), trigger.as_str()) {
                Ok(true) => {
                    let m = cat5("trigger added: ", alias.as_str(), " (", trigger.as_str(), ")");
                    assert(m@ =~= "trigger added: "@ + alias@ + " ("@ + trigger@ + ")"@);
                    Ok(m)
                },
                Ok(false) => {
                    let m = cat4("trigger already on ", alias.as_str(), ": ", trigger.as_str());
                    assert(m@ =~= "trigger already on "@ + alias@ + ": "@ + trigger@);
                    Ok(m)
                },
                Err(e) => Err(e),
            },
        ),
        Effect::RemoveTrigger { alias, trigger } => Some(
            match remove_trigger(&mut store.aliases, alias.as_str(), trigger.as_str()) {
                Ok(true) => {
                    let m = cat5("trigger removed: ", alias.as_str(), " (", trigger.as_str(), ")");
                    assert(m@ =~= "trigger removed: "@ + alias@ + " ("@ + trigger@ + ")"@);
                    Ok(m)
                },
                Ok(false) => {
                    let m = cat4("trigger not found on ", alias.as_str(), ": ", trigger.as_str());
                    assert(m@ =~= trigger_missing_msg(alias@, trigger@));
                    Err(m)
                },
                Err(e) => Err(e),
            },
        ),
        Effect::SetCommand { alias, platform, command } => Some(
            match set_command(&mut store.aliases, alias.as_str(), *platform, command.as_str()) {
                Ok(()) => {
                    let tail = cat2(name(*platform), ")");
                    let m = cat4("command updated: ", alias.as_str(), " (", tail.as_str());
                    assert(m@ =~= "command updated: "@ + alias@ + " ("@ + platform_name(*platform) + ")"@);
                    Ok(m)
                },
                Err(e) => Err(e),
            },
        ),
        Effect::EditShortcut { alias, old_key, key, value } => Some(
            match edit_shortcut(
                &mut store.aliases,
                alias.as_str(),
                old_key.as_str(),
                key.as_str(),
                value.as_str(),
            ) {
                Ok(()) => {
                    let head = cat4("shortcut updated: ", alias.as_str(), " ", key.as_str());
                    let m = cat3(head.as_str(), " = ", value.as_str());
                    assert(m@ =~= "shortcut updated: "@ + alias@ + " "@ + key@ + " = "@ + value@);
                    Ok(m)
                },
                Err(e) => Err(e),
            },
        ),
        Effect::RenameTrigger { alias, old, new } => Some(
            match rename_trigger(&mut store.aliases, alias.as_str(), old.as_str(), new.as_str()) {
                Ok(()) => {
                    let head = cat4("trigger renamed: ", alias.as_str(), " ", old.as_str());
                    let m = cat3(head.as_str(), " → ", new.as_str());
                    assert(m@ =~= "trigger renamed: "@ + alias@ + " "@ + old@ + " → "@ + new@);
                    Ok(m)
                },
                Err(e) => Err(e),
            },
        ),
        Effect::Nothing | Effect::Back | Effect::Save | Effect::Quit => None,
    }
}

/// The structural effect to run and the status update to show: a change
/// becomes [`Effect::Save`] with its message, a refusal
/// [`Effect::Nothing`] with the reason (so a failed wizard never persists
/// anything), and a structural effect passes through.
pub open spec fn resolved_effect(
    v: Seq<AliasView>,
    e: EffectModel,
) -> (EffectModel, Option<(bool, Seq<char>)>) {
    match applied(v, e) {
        Some((Ok(m), _)) => (EffectModel::Save, Some((true, m))),
        Some((Err(m), _)) => (EffectModel::Nothing, Some((false, m))),
        None => (e, None),
    }
}

/// Resolve an effect into the structural effect to run plus the status line
/// update to show.
fn resolve(store: &mut Store, effect: Effect) -> (r: (Effect, Option<(bool, String)>))
    ensures
        ({
            let (e2, st) = resolved_effect(alias_views(old(store).aliases@), effect@);
            &&& r.0@ == e2
            &&& crate::settings::status_view(r.1) == st
            &&& alias_views(final(store).aliases@) == match applied(alias_views(old(store).aliases@), effect@) {
                Some(o) => o.1,
                None => alias_views(old(store).aliases@),
            }
        }),
        final(store).config == old(store).config,
        final(store).history == old(store).history,
        final(store).version == old(store).version,
        final(store).from_newer_version == old(store).from_newer_version,
        final(store).load_notice == old(store).load_notice,
{
    match apply_effect(store, &effect) {
        Some(Ok(msg)) => (Effect::Save, Some((true, msg))),
        Some(Err(e)) => (Effect::Nothing, Some((false, e))),
        None => (effect, None),
    }
}

/// The page, the aliases and the effect one key gives on the settings page,
/// before the effect is applied to the store (the step [`handle_key`]
/// takes).
pub open spec fn page_step(st: SettingsModel, defs: Seq<AliasDef>, key: KeyPress) -> (
    SettingsModel,
    Seq<AliasView>,
    EffectModel,
) {
    if !key.press || (key.alt && st.form is None) {
        (st, alias_views(defs), EffectModel::Nothing)
    } else {
        match st.form {
            Some(f) => {
                let (f2, out) = form_step(f, alias_views(defs), key);
                let (s2, eff) = form_page(st, f2, out);
                (s2, alias_views(defs), eff)
            },
            None => {
                let (n2, v2, eff) = list_step(st, defs, key);
                (
                    SettingsModel {
                        cursor: clamped_cursor(n2.cursor, view_rows(v2, n2.expanded).len() as int),
                        ..n2
                    },
                    v2,
                    eff,
                )
            },
        }
    }
}

/// The settings page after one key with its effect applied: the page (the
/// effect's message on its status line, the cursor kept on a row), the
/// aliases, and the structural effect left for the caller.
pub open spec fn settings_after(st: SettingsModel, defs: Seq<AliasDef>, key: KeyPress) -> (
    SettingsModel,
    Seq<AliasView>,
    EffectModel,
) {
    let (s1, v1, e) = page_step(st, defs, key);
    let (e2, status) = resolved_effect(v1, e);
    let v3 = match applied(v1, e) {
        Some(o) => o.1,
        None => v1,
    };
    (
        SettingsModel {
            status: if status is Some {
                status
            } else {
                s1.status
            },
            cursor: clamped_cursor(s1.cursor, view_rows(v3, s1.expanded).len() as int),
            ..s1
        },
        v3,
        e2,
    )
}

/// Everything of the app but its page, its stored aliases, its alias view
/// and its quit flag is the same in `a` and `b`.
pub open spec fn same_rest(a: App, b: App) -> bool {
    &&& a.store.config == b.store.config
    &&& entry_views(a.store.history@) == entry_views(b.store.history@)
    &&& a.store.version == b.store.version
    &&& a.store.from_newer_version == b.store.from_newer_version
    &&& a.store.load_notice == b.store.load_notice
    &&& a.input == b.input
    &&& a.caret == b.caret
    &&& a.cursor == b.cursor
    &&& a.visibility == b.visibility
    &&& a.status == b.status
    &&& a.wake == b.wake
    &&& a.command == b.command
    &&& a.summon == b.summon
    &&& a.palette == b.palette
}

/// Route one key event to the settings page and apply its effect. The
/// store returned by the page transition replaces `app.store`; a
/// data-carrying effect is applied and turned into `Save` (the caller then
/// persists the store) or `Nothing` (refused, reason on the status line).
/// Leaving the page (`Back`, `Quit`) switches back to the launcher.
pub fn apply(app: &mut App, key: KeyPress) -> (r: Effect)
    requires
        old(app).mode matches Mode::Settings(st) ==> (st.form matches Some(f) ==> f.step < usize::MAX),
        old(app).mode matches Mode::Settings(st) ==> rows_of(old(app).store.aliases@, st@.expanded).len()
            <= i32::MAX,
    ensures
        match old(app).mode {
            Mode::Normal => *final(app) == *old(app) && r@ == EffectModel::Nothing,
            Mode::Settings(st) => {
                let (s2, v3, e2) = settings_after(st@, old(app).store.aliases@, key);
                &&& r@ == e2
                &&& alias_views(final(app).store.aliases@) == v3
                &&& same_rest(*final(app), *old(app))
                &&& match e2 {
                    EffectModel::Back => final(app).mode is Normal && final(app).quit == old(app).quit
                        && final(app).aliases == old(app).aliases,
                    EffectModel::Quit => final(app).mode is Normal && final(app).quit
                        && final(app).aliases == old(app).aliases,
                    EffectModel::Save => final(app).mode matches Mode::Settings(s) && s@ == s2
                        && final(app).quit == old(app).quit && alias_views(final(app).aliases@) == v3,
                    _ => final(app).mode matches Mode::Settings(s) && s@ == s2 && final(app).quit
                        == old(app).quit && final(app).aliases == old(app).aliases,
                }
            },
        },
{
    let st = match &app.mode {
        Mode::Settings(st) => dup_settings(st),
        Mode::Normal => {
            return Effect::Nothing;
        },
    };
    let (mut st, store, effect) = handle_key(&st, &app.store, key);
    proof {
        lemma_rows_by_view(store.aliases@, st@.expanded);
    }
    app.mode = Mode::Normal;
    app.store = store;
    let (effect, status) = resolve(&mut app.store, effect);
    if status.is_some() {
        st.status = status;
    }
    reclamp(&mut st, &app.store);
    proof {
        lemma_rows_by_view(app.store.aliases@, st@.expanded);
    }
    match effect {
        Effect::Back => Effect::Back,
        Effect::Quit => {
            app.quit = true;
            Effect::Quit
        },
        Effect::Save => {
            app.aliases = crate::settings::view(&app.store);
            app.mode = Mode::Settings(Box::new(st));
            Effect::Save
        },
        _ => {
            app.mode = Mode::Settings(Box::new(st));
            Effect::Nothing
        },
    }
}

/// After a `Save` effect the caller persisted the store: a failed save must
/// not be reported as a successful edit, so its error replaces the page's
/// status line. A successful save changes nothing.
pub fn report_save(app: &mut App, result: Result<(), String>)
    ensures
        final(app).store == old(app).store,
        final(app).aliases == old(app).aliases,
        final(app).input == old(app).input,
        final(app).quit == old(app).quit,
        match (result, old(app).mode) {
            (Err(e), Mode::Settings(st)) => final(app).mode matches Mode::Settings(s2) && s2@ == (SettingsModel {
                status: Some((false, "save failed: "@ + e@)),
                ..st@
            }),
            _ => final(app).mode == old(app).mode,
        },
{
    if let Err(e) = result {
        let next = match &app.mode {
            Mode::Settings(st) => {
                let mut s2 = dup_settings(st);
                s2.status = Some((false, cat2("save failed: ", e.as_str())));
                Some(s2)
            },
            Mode::Normal => None,
        };
        if let Some(s2) = next {
            app.mode = Mode::Settings(Box::new(s2));
        }
    }
}

} // verus!
