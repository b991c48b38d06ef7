//! `/settings` page state and key handling: the alias table (list screen)
//! plus dispatch into the wizard form ([`crate::settings_form`]).
//!
//! Everything here is a pure transition:
//! `handle_key(state, store, key) -> (new state, new store, effect)`: no
//! I/O, no clocks. Persistence stays with the caller, which saves when the
//! effect says [`Effect::Save`] and pushes data-carrying effects through the
//! `alias::` helpers ([`crate::settings_apply`]).

use vstd::prelude::*;

use crate::alias::{
    alias_views, default_name, is_default_name, BUILTIN_DELETE, named, no_shortcut_msg, not_found_msg, opt_view, platform_command,
    platform_command_of, remove_shortcut, with_shortcuts, AliasDef, AliasView,
};
use crate::keyspec::{Key, KeyPress};
use crate::platform::Platform;
use crate::shortcuts::sorted_keys;
use crate::settings_form::{
    blank_model, dup_form, edit_command_form, edit_shortcut_form, edit_trigger_form, form_step,
    new_alias, new_edit_command, new_edit_shortcut, new_edit_trigger, new_shortcut, new_trigger,
    Form, FormModel, FormOutcome, OutcomeModel, PurposeModel, Submission, SubmissionModel,
};
use crate::storage::{entry_views, Store};
use crate::text::{cat2, cat4, eq_str, owned, views};

verus! {

/// What the caller should do after a key transition.
#[derive(Debug, Clone, PartialEq)]
pub enum Effect {
    /// Nothing changed.
    Nothing,
    /// Leave settings mode, back to the launcher bar.
    Back,
    /// The store changed; persist it.
    Save,
    /// Quit the app.
    Quit,
    /// Insert or replace a user alias definition.
    AddAlias(AliasDef),
    /// Set (or replace) a concrete shortcut (`alias::set_shortcut`).
    SetShortcut { alias: String, key: String, value: String },
    /// Add a trigger word (`alias::add_trigger`).
    AddTrigger { alias: String, trigger: String },
    /// Drop a trigger word (`alias::remove_trigger`).
    RemoveTrigger { alias: String, trigger: String },
    /// Rewrite the selected platform's command (`alias::set_command`); the
    /// other platform's stored command is never touched.
    SetCommand { alias: String, platform: Platform, command: String },
    /// Rewrite one concrete shortcut, key included (`alias::edit_shortcut`).
    EditShortcut { alias: String, old_key: String, key: String, value: String },
    /// Rename one trigger word in place (`alias::rename_trigger`).
    RenameTrigger { alias: String, old: String, new: String },
}

/// An effect as plain values.
pub enum EffectModel {
    Nothing,
    Back,
    Save,
    Quit,
    AddAlias(AliasView),
    SetShortcut(Seq<char>, Seq<char>, Seq<char>),
    AddTrigger(Seq<char>, Seq<char>),
    RemoveTrigger(Seq<char>, Seq<char>),
    SetCommand(Seq<char>, Platform, Seq<char>),
    EditShortcut(Seq<char>, Seq<char>, Seq<char>, Seq<char>),
    RenameTrigger(Seq<char>, Seq<char>, Seq<char>),
}

impl View for Effect {
    type V = EffectModel;

    open spec fn view(&self) -> EffectModel {
        match self {
            Effect::Nothing => EffectModel::Nothing,
            Effect::Back => EffectModel::Back,
            Effect::Save => EffectModel::Save,
            Effect::Quit => EffectModel::Quit,
            Effect::AddAlias(d) => EffectModel::AddAlias(d@),
            Effect::SetShortcut { alias, key, value } => EffectModel::SetShortcut(alias@, key@, value@),
            Effect::AddTrigger { alias, trigger } => EffectModel::AddTrigger(alias@, trigger@),
            Effect::RemoveTrigger { alias, trigger } => EffectModel::RemoveTrigger(alias@, trigger@),
            Effect::SetCommand { alias, platform, command } => EffectModel::SetCommand(
                alias@,
                *platform,
                command@,
            ),
            Effect::EditShortcut { alias, old_key, key, value } => EffectModel::EditShortcut(
                alias@,
                old_key@,
                key@,
                value@,
            ),
            Effect::RenameTrigger { alias, old, new } => EffectModel::RenameTrigger(alias@, old@, new@),
        }
    }
}

/// One flattened, selectable row of the list screen.
#[derive(Debug, Clone, PartialEq, Eq)]
pub enum Row {
    Alias { idx: usize },
    /// Trigger word of an expanded alias; `idx` indexes its triggers.
    Trigger { alias: usize, idx: usize },
    /// Concrete shortcut of an expanded alias (key → value).
    Shortcut { alias: usize, key: String },
}

/// A row as plain values.
pub enum RowModel {
    Alias(int),
    Trigger(int, int),
    Shortcut(int, Seq<char>),
}

impl View for Row {
    type V = RowModel;

    open spec fn view(&self) -> RowModel {
        match self {
            Row::Alias { idx } => RowModel::Alias(*idx as int),
            Row::Trigger { alias, idx } => RowModel::Trigger(*alias as int, *idx as int),
            Row::Shortcut { alias, key } => RowModel::Shortcut(*alias as int, key@),
        }
    }
}

/// The models of a row list.
pub open spec fn row_views(v: Seq<Row>) -> Seq<RowModel> {
    v.map_values(|r: Row| r@)
}

/// Settings page state. `cursor` indexes [`rows`]; `expanded` is the alias
/// whose triggers and concrete shortcuts are shown indented below it.
#[derive(Debug, Clone, PartialEq)]
pub struct Settings {
    /// Active wizard form; `None` means the list screen.
    pub form: Option<Form>,
    pub cursor: usize,
    pub expanded: Option<usize>,
    /// Transient message `(ok?, text)` shown above the key hints.
    pub status: Option<(bool, String)>,
    /// Platform the page edits: only this platform's commands are shown by
    /// the table and offered by the wizards.
    pub platform: Platform,
}

/// The page state as plain values.
pub struct SettingsModel {
    pub form: Option<FormModel>,
    pub cursor: int,
    pub expanded: Option<int>,
    pub status: Option<(bool, Seq<char>)>,
    pub platform: Platform,
}

/// The model of an optional form.
pub open spec fn form_view(f: Option<Form>) -> Option<FormModel> {
    match f {
        Some(f) => Some(f@),
        None => None,
    }
}

/// The model of an optional index.
pub open spec fn idx_view(e: Option<usize>) -> Option<int> {
    match e {
        Some(i) => Some(i as int),
        None => None,
    }
}

/// The model of a status line.
pub open spec fn status_view(s: Option<(bool, String)>) -> Option<(bool, Seq<char>)> {
    match s {
        Some(p) => Some((p.0, p.1@)),
        None => None,
    }
}

impl View for Settings {
    type V = SettingsModel;

    open spec fn view(&self) -> SettingsModel {
        SettingsModel {
            form: form_view(self.form),
            cursor: self.cursor as int,
            expanded: idx_view(self.expanded),
            status: status_view(self.status),
            platform: self.platform,
        }
    }
}

/// Fresh list state for `platform`: cursor on the first alias, nothing
/// expanded.
pub fn new_for(platform: Platform) -> (s: Settings)
    ensures
        s@ == (SettingsModel { form: None, cursor: 0, expanded: None, status: None, platform }),
{
    Settings { form: None, cursor: 0, expanded: None, status: None, platform }
}

/// Alias list for the page: what the store carries, seeded defaults included.
pub fn view(store: &Store) -> (r: Vec<AliasDef>)
    ensures
        alias_views(r@) == alias_views(store.aliases@),
{
    let mut out: Vec<AliasDef> = Vec::new();
    let n = store.aliases.len();
    for i in 0..n
        invariant
            n == store.aliases.len(),
            alias_views(out@) == alias_views(store.aliases@).take(i as int),
    {
        let ghost before = out@;
        out.push(store.aliases[i].duplicate());
        assert(alias_views(out@) =~= alias_views(before).push(store.aliases@[i as int]@));
        assert(alias_views(store.aliases@).take(i + 1) =~= alias_views(store.aliases@).take(
            i as int,
        ).push(store.aliases@[i as int]@));
    }
    assert(alias_views(store.aliases@).take(n as int) =~= alias_views(store.aliases@));
    out
}

/// The rows an expanded alias `i` adds: its triggers, then its concrete
/// shortcuts in key order.
pub open spec fn entry_rows(i: int, d: AliasDef) -> Seq<RowModel> {
    Seq::new(d.triggers@.len(), |j: int| RowModel::Trigger(i, j)) + d.shortcuts.key_seq().map_values(
        |k: Seq<char>| RowModel::Shortcut(i, k),
    )
}

/// Flattened rows: one per alias, plus indented rows for `expanded` (its
/// triggers first, then its concrete shortcuts).
pub open spec fn rows_of(defs: Seq<AliasDef>, expanded: Option<int>) -> Seq<RowModel>
    decreases defs.len(),
{
    if defs.len() == 0 {
        Seq::empty()
    } else {
        let i = defs.len() - 1;
        rows_of(defs.drop_last(), expanded).push(RowModel::Alias(i)) + if expanded == Some(i) {
            entry_rows(i, defs.last())
        } else {
            Seq::empty()
        }
    }
}

/// The rows an expanded alias adds, read off its plain-value model.
pub open spec fn view_entry_rows(i: int, d: AliasView) -> Seq<RowModel> {
    Seq::new(d.triggers.len(), |j: int| RowModel::Trigger(i, j)) + sorted_keys(d.shortcuts).map_values(
        |k: Seq<char>| RowModel::Shortcut(i, k),
    )
}

/// The flattened rows of a list of alias models.
pub open spec fn view_rows(v: Seq<AliasView>, expanded: Option<int>) -> Seq<RowModel>
    decreases v.len(),
{
    if v.len() == 0 {
        Seq::empty()
    } else {
        let i = v.len() - 1;
        view_rows(v.drop_last(), expanded).push(RowModel::Alias(i)) + if expanded == Some(i) {
            view_entry_rows(i, v.last())
        } else {
            Seq::empty()
        }
    }
}

/// The rows depend on the aliases' models alone.
pub proof fn lemma_rows_by_view(defs: Seq<AliasDef>, expanded: Option<int>)
    ensures
        rows_of(defs, expanded) == view_rows(alias_views(defs), expanded),
    decreases defs.len(),
{
    if defs.len() > 0 {
        lemma_rows_by_view(defs.drop_last(), expanded);
        assert(alias_views(defs.drop_last()) =~= alias_views(defs).drop_last());
        let i = defs.len() - 1;
        assert(entry_rows(i, defs.last()) =~= view_entry_rows(i, alias_views(defs).last()));
    }
}

/// Flattened rows: one per alias, plus indented rows for `expanded` (its
/// triggers first, then its concrete shortcuts).
pub fn rows(aliases: &[AliasDef], expanded: Option<usize>) -> (r: Vec<Row>)
    ensures
        row_views(r@) == rows_of(aliases@, idx_view(expanded)),
{
    let mut out: Vec<Row> = Vec::new();
    let n = aliases.len();
    for idx in 0..n
        invariant
            n == aliases@.len(),
            row_views(out@) == rows_of(aliases@.take(idx as int), idx_view(expanded)),
    {
        let ghost before = row_views(out@);
        assert(aliases@.take(idx + 1).drop_last() =~= aliases@.take(idx as int));
        assert(aliases@.take(idx + 1).last() == aliases@[idx as int]);
        out.push(Row::Alias { idx });
        let ghost with_alias = row_views(out@);
        assert(with_alias =~= before.push(RowModel::Alias(idx as int)));
        let is_open = match expanded {
            Some(e) => e == idx,
            None => false,
        };
        if is_open {
            let def = &aliases[idx];
            let nt = def.triggers.len();
            for i in 0..nt
                invariant
                    nt == def.triggers@.len(),
                    row_views(out@) == with_alias + Seq::new(i as nat, |j: int| RowModel::Trigger(idx as int, j)),
            {
                let ghost b = row_views(out@);
                out.push(Row::Trigger { alias: idx, idx: i });
                assert(row_views(out@) =~= b.push(RowModel::Trigger(idx as int, i as int)));
                assert(row_views(out@) =~= with_alias + Seq::new((i + 1) as nat, |j: int| RowModel::Trigger(idx as int, j)));
            }
            let ghost with_triggers = row_views(out@);
            let keys = def.shortcuts.keys();
            let nk = keys.len();
            for k in 0..nk
                invariant
                    nk == keys.len(),
                    views(keys@) == def.shortcuts.key_seq(),
                    row_views(out@) == with_triggers + views(keys@).take(k as int).map_values(
                        |s: Seq<char>| RowModel::Shortcut(idx as int, s),
                    ),
            {
                let ghost b = row_views(out@);
                out.push(Row::Shortcut { alias: idx, key: keys[k].clone() });
                assert(row_views(out@) =~= b.push(RowModel::Shortcut(idx as int, keys@[k as int]@)));
                assert(views(keys@).take(k + 1) =~= views(keys@).take(k as int).push(keys@[k as int]@));
                assert(row_views(out@) =~= with_triggers + views(keys@).take(k + 1).map_values(
                    |s: Seq<char>| RowModel::Shortcut(idx as int, s),
                ));
            }
            assert(views(keys@).take(nk as int) =~= views(keys@));
            assert(row_views(out@) =~= with_alias + entry_rows(idx as int, aliases@[idx as int]));
        } else {
            assert(row_views(out@) =~= with_alias + Seq::<RowModel>::empty());
        }
    }
    assert(aliases@.take(n as int) =~= aliases@);
    out
}

/// Where moving by `delta` from `cur` lands among `n` rows: `cur` is first
/// clamped onto a row, then the move is clamped into the list.
pub open spec fn moved_sel(n: int, cur: int, delta: int) -> int {
    if n == 0 {
        0
    } else {
        let c = if cur < n - 1 {
            cur
        } else {
            n - 1
        };
        let t = c + delta;
        if t < 0 {
            0
        } else if t > n - 1 {
            n - 1
        } else {
            t
        }
    }
}

/// Move by `delta`, clamped into `rows`.
pub fn move_sel(rows: &[Row], cur: usize, delta: i32) -> (r: usize)
    requires
        rows@.len() <= i32::MAX,
        rows@.len() > 0 ==> i32::MIN <= (if cur < rows@.len() - 1 {
            cur as int
        } else {
            rows@.len() - 1
        }) + delta <= i32::MAX,
    ensures
        r == moved_sel(rows@.len() as int, cur as int, delta as int),
{
    let n = rows.len();
    if n == 0 {
        return 0;
    }
    let c: i64 = if cur < n - 1 {
        cur as i64
    } else {
        (n - 1) as i64
    };
    let t: i64 = c + delta as i64;
    if t < 0 {
        0
    } else if t > (n - 1) as i64 {
        n - 1
    } else {
        t as usize
    }
}

/// The cursor kept inside `n` rows.
pub open spec fn clamped_cursor(cursor: int, n: int) -> int {
    let last = if n > 0 {
        n - 1
    } else {
        0
    };
    if cursor < last {
        cursor
    } else {
        last
    }
}

/// Keep the cursor inside the (possibly shrunken) row list.
fn clamp_cursor(st: &mut Settings, aliases: &[AliasDef])
    ensures
        final(st)@ == (SettingsModel {
            cursor: clamped_cursor(old(st).cursor as int, rows_of(aliases@, idx_view(old(st).expanded)).len() as int),
            ..old(st)@
        }),
{
    let len = rows(aliases, st.expanded).len();
    let last = if len > 0 {
        len - 1
    } else {
        0
    };
    if st.cursor > last {
        st.cursor = last;
    }
}

/// Re-clamp the cursor after the store changed outside this module: the
/// effect path applies shortcut/command edits between two key transitions.
pub fn reclamp(st: &mut Settings, store: &Store)
    ensures
        final(st)@ == (SettingsModel {
            cursor: clamped_cursor(
                old(st).cursor as int,
                rows_of(store.aliases@, idx_view(old(st).expanded)).len() as int,
            ),
            ..old(st)@
        }),
{
    clamp_cursor(st, store.aliases.as_slice());
}

// ----------------------------------------------------------------------
// Key transitions
// ----------------------------------------------------------------------

/// Two stores hold the same contents.
pub open spec fn same_store(a: Store, b: Store) -> bool {
    &&& a.config == b.config
    &&& alias_views(a.aliases@) == alias_views(b.aliases@)
    &&& entry_views(a.history@) == entry_views(b.history@)
    &&& a.version == b.version
    &&& a.from_newer_version == b.from_newer_version
    &&& a.load_notice == b.load_notice
}

/// The row under the cursor, if the cursor is on one.
pub open spec fn row_at(rows: Seq<RowModel>, c: int) -> Option<RowModel> {
    if 0 <= c < rows.len() {
        Some(rows[c])
    } else {
        None
    }
}

/// Enter/→ expands the selected alias, or collapses when it is already
/// open; on an entry row (or no row) it collapses.
pub open spec fn toggled(rows: Seq<RowModel>, st: SettingsModel) -> Option<int> {
    match row_at(rows, st.cursor) {
        Some(RowModel::Alias(idx)) => if st.expanded == Some(idx) {
            None
        } else {
            Some(idx)
        },
        _ => None,
    }
}

/// The alias a row belongs to (an entry row's parent).
pub open spec fn owner_of(r: RowModel) -> int {
    match r {
        RowModel::Alias(i) => i,
        RowModel::Trigger(a, _) => a,
        RowModel::Shortcut(a, _) => a,
    }
}

/// The definition the selection belongs to.
pub open spec fn selected_def_of(rows: Seq<RowModel>, st: SettingsModel, defs: Seq<AliasDef>) -> Option<
    AliasDef,
> {
    match row_at(rows, st.cursor) {
        Some(r) => if 0 <= owner_of(r) < defs.len() {
            Some(defs[owner_of(r)])
        } else {
            None
        },
        None => None,
    }
}

/// `e`: the wizard matching the selected row: an alias row edits that
/// platform's command, a shortcut row that key/value pair, a trigger row
/// that word; `None` when nothing valid is selected.
pub open spec fn edit_form_of(rows: Seq<RowModel>, st: SettingsModel, defs: Seq<AliasDef>) -> Option<
    FormModel,
> {
    match selected_def_of(rows, st, defs) {
        None => None,
        Some(d) => match rows[st.cursor] {
            RowModel::Shortcut(_, k) => if d@.shortcuts.dom().contains(k) {
                Some(edit_shortcut_form(d@.name, k, d@.shortcuts[k]))
            } else {
                None
            },
            RowModel::Trigger(_, j) => if 0 <= j < d@.triggers.len() {
                Some(edit_trigger_form(d@.name, d@.triggers[j]))
            } else {
                None
            },
            RowModel::Alias(_) => Some(
                edit_command_form(d@.name, st.platform, platform_command_of(d@, st.platform)),
            ),
        },
    }
}

/// `v` without the aliases named exactly `name`, order kept.
pub open spec fn without_name(v: Seq<AliasView>, name: Seq<char>) -> Seq<AliasView>
    decreases v.len(),
{
    if v.len() == 0 {
        v
    } else if v.last().name == name {
        without_name(v.drop_last(), name)
    } else {
        without_name(v.drop_last(), name).push(v.last())
    }
}

/// The page with the "nothing selected" refusal on its status line.
pub open spec fn nothing_selected(next: SettingsModel) -> SettingsModel {
    SettingsModel { status: Some((false, "nothing selected"@)), ..next }
}

/// `d`: delete the selection. A trigger row hands the removal to the effect
/// path; a shortcut row drops that key inline (from the first alias of that
/// name); an alias row drops every alias of that name, unless the name is a
/// built-in's, which is refused (override it instead). Without a valid
/// selection the status says so.
pub open spec fn deleted_row(
    rows: Seq<RowModel>,
    st: SettingsModel,
    defs: Seq<AliasDef>,
    next: SettingsModel,
) -> (SettingsModel, Seq<AliasView>, EffectModel) {
    let v = alias_views(defs);
    match row_at(rows, st.cursor) {
        Some(RowModel::Trigger(a, j)) => if 0 <= a < v.len() && 0 <= j < v[a].triggers.len() {
            (next, v, EffectModel::RemoveTrigger(v[a].name, v[a].triggers[j]))
        } else {
            (nothing_selected(next), v, EffectModel::Nothing)
        },
        Some(RowModel::Shortcut(a, k)) => if !(0 <= a < v.len() && v[a].shortcuts.dom().contains(k)) {
            (nothing_selected(next), v, EffectModel::Nothing)
        } else {
            let name = v[a].name;
            match named(v, name) {
                None => (
                    SettingsModel { status: Some((false, not_found_msg(name))), ..next },
                    v,
                    EffectModel::Nothing,
                ),
                Some(i) => if v[i].shortcuts.dom().contains(k) {
                    (
                        SettingsModel {
                            status: Some((true, "shortcut removed: "@ + name + "."@ + k)),
                            expanded: None,
                            ..next
                        },
                        v.update(i, with_shortcuts(v[i], v[i].shortcuts.remove(k))),
                        EffectModel::Save,
                    )
                } else {
                    (
                        SettingsModel { status: Some((false, no_shortcut_msg(k, name))), ..next },
                        v,
                        EffectModel::Nothing,
                    )
                },
            }
        },
        Some(RowModel::Alias(a)) => if 0 <= a < v.len() && default_name(v[a].name) {
            (SettingsModel { status: Some((false, BUILTIN_DELETE@)), ..next }, v, EffectModel::Nothing)
        } else if 0 <= a < v.len() {
            (
                SettingsModel {
                    status: Some((true, "alias removed: "@ + v[a].name)),
                    expanded: None,
                    ..next
                },
                without_name(v, v[a].name),
                EffectModel::Save,
            )
        } else {
            (nothing_selected(next), v, EffectModel::Nothing)
        },
        None => (nothing_selected(next), v, EffectModel::Nothing),
    }
}

/// One key on the list screen (before the cursor is re-clamped): Ctrl+C /
/// Ctrl+D quit, Esc and `q` go back, ↑↓/`k``j` move, Enter/→ toggle the
/// selected alias open, ← collapses, `n`/`s`/`t`/`e` open the wizards,
/// `d` deletes the selection.
pub open spec fn list_step(st: SettingsModel, defs: Seq<AliasDef>, key: KeyPress) -> (
    SettingsModel,
    Seq<AliasView>,
    EffectModel,
) {
    let v = alias_views(defs);
    let rows = rows_of(defs, st.expanded);
    let n = rows.len() as int;
    let next = SettingsModel { form: None, status: None, ..st };
    let stay = (next, v, EffectModel::Nothing);
    match key.code {
        Key::Char(c) => if key.ctrl {
            if c == 'c' || c == 'd' {
                (next, v, EffectModel::Quit)
            } else {
                stay
            }
        } else if c == 'q' {
            (next, v, EffectModel::Back)
        } else if c == 'k' {
            (SettingsModel { cursor: moved_sel(n, st.cursor, -1), ..next }, v, EffectModel::Nothing)
        } else if c == 'j' {
            (SettingsModel { cursor: moved_sel(n, st.cursor, 1), ..next }, v, EffectModel::Nothing)
        } else if c == 'n' {
            (
                SettingsModel { form: Some(blank_model(PurposeModel::NewAlias(st.platform))), ..next },
                v,
                EffectModel::Nothing,
            )
        } else if c == 's' {
            (
                SettingsModel {
                    form: match selected_def_of(rows, st, defs) {
                        Some(d) => Some(blank_model(PurposeModel::NewShortcut(d@.name))),
                        None => None,
                    },
                    ..next
                },
                v,
                EffectModel::Nothing,
            )
        } else if c == 't' {
            (
                SettingsModel {
                    form: match selected_def_of(rows, st, defs) {
                        Some(d) => Some(blank_model(PurposeModel::NewTrigger(d@.name))),
                        None => None,
                    },
                    ..next
                },
                v,
                EffectModel::Nothing,
            )
        } else if c == 'e' {
            (SettingsModel { form: edit_form_of(rows, st, defs), ..next }, v, EffectModel::Nothing)
        } else if c == 'd' {
            deleted_row(rows, st, defs, next)
        } else {
            stay
        },
        Key::Esc => (next, v, EffectModel::Back),
        Key::Up => (SettingsModel { cursor: moved_sel(n, st.cursor, -1), ..next }, v, EffectModel::Nothing),
        Key::Down => (SettingsModel { cursor: moved_sel(n, st.cursor, 1), ..next }, v, EffectModel::Nothing),
        Key::Enter => (SettingsModel { expanded: toggled(rows, st), ..next }, v, EffectModel::Nothing),
        Key::Right => (SettingsModel { expanded: toggled(rows, st), ..next }, v, EffectModel::Nothing),
        Key::Left => (SettingsModel { expanded: None, ..next }, v, EffectModel::Nothing),
        _ => stay,
    }
}

/// The effect carrying a finished wizard submission.
pub open spec fn effect_of_model(sub: SubmissionModel) -> EffectModel {
    match sub {
        SubmissionModel::Alias(d) => EffectModel::AddAlias(d),
        SubmissionModel::Shortcut(a, k, v) => EffectModel::SetShortcut(a, k, v),
        SubmissionModel::Trigger(a, t) => EffectModel::AddTrigger(a, t),
        SubmissionModel::Command(a, p, c) => EffectModel::SetCommand(a, p, c),
        SubmissionModel::EditShortcut(a, o, k, v) => EffectModel::EditShortcut(a, o, k, v),
        SubmissionModel::RenameTrigger(a, o, n) => EffectModel::RenameTrigger(a, o, n),
    }
}

/// The page after a key on its wizard: the form stays open (status kept)
/// while active or quitting, and closes (status cleared) on cancel or
/// submit; a submission travels as its data-carrying effect.
pub open spec fn form_page(st: SettingsModel, f2: FormModel, out: OutcomeModel) -> (SettingsModel, EffectModel) {
    match out {
        OutcomeModel::Active => (SettingsModel { form: Some(f2), ..st }, EffectModel::Nothing),
        OutcomeModel::Quit => (SettingsModel { form: Some(f2), ..st }, EffectModel::Quit),
        OutcomeModel::Cancel => (SettingsModel { form: None, status: None, ..st }, EffectModel::Nothing),
        OutcomeModel::Submit(sub) => (
            SettingsModel { form: None, status: None, ..st },
            effect_of_model(sub),
        ),
    }
}

/// The `(alias, index)` a row belongs to, as machine indices.
fn owner(r: &Row) -> (i: usize)
    ensures
        i == owner_of(r@),
{
    match r {
        Row::Alias { idx } => *idx,
        Row::Trigger { alias, .. } => *alias,
        Row::Shortcut { alias, .. } => *alias,
    }
}

/// The selected definition's index, if the selection is valid.
fn selected_index(rows: &Vec<Row>, st: &Settings, aliases: &[AliasDef]) -> (r: Option<usize>)
    ensures
        match selected_def_of(row_views(rows@), st@, aliases@) {
            Some(d) => r matches Some(i) && i < aliases@.len() && aliases@[i as int] == d,
            None => r is None,
        },
{
    if st.cursor < rows.len() {
        let i = owner(&rows[st.cursor]);
        if i < aliases.len() {
            Some(i)
        } else {
            None
        }
    } else {
        None
    }
}

/// `e`: the wizard matching the selected row.
fn edit_form(rows: &Vec<Row>, st: &Settings, aliases: &[AliasDef]) -> (r: Option<Form>)
    ensures
        form_view(r) == edit_form_of(row_views(rows@), st@, aliases@),
{
    let i = match selected_index(rows, st, aliases) {
        Some(i) => i,
        None => {
            return None;
        },
    };
    let def = &aliases[i];
    match &rows[st.cursor] {
        Row::Shortcut { key, .. } => match def.shortcuts.get(key.as_str()) {
            Some(value) => Some(new_edit_shortcut(def.name.as_str(), key.as_str(), value.as_str())),
            None => None,
        },
        Row::Trigger { idx, .. } => if *idx < def.triggers.len() {
            Some(new_edit_trigger(def.name.as_str(), def.triggers[*idx].as_str()))
        } else {
            None
        },
        Row::Alias { .. } => {
            let current = platform_command(def, st.platform);
            proof {
                assert(crate::text::opt_str(current) == platform_command_of(def@, st.platform));
            }
            Some(new_edit_command(def.name.as_str(), st.platform, current))
        },
    }
}

/// Drop every alias named exactly `name`.
fn drop_named(v: &mut Vec<AliasDef>, name: &str)
    ensures
        alias_views(final(v)@) == without_name(alias_views(old(v)@), name@),
{
    let mut kept: Vec<AliasDef> = Vec::new();
    let n = v.len();
    for i in 0..n
        invariant
            n == v.len(),
            v@ == old(v)@,
            alias_views(kept@) == without_name(alias_views(v@).take(i as int), name@),
    {
        let ghost t = alias_views(v@).take(i + 1);
        assert(t.drop_last() =~= alias_views(v@).take(i as int));
        assert(t.last() == v@[i as int]@);
        if !eq_str(v[i].name.as_str(), name) {
            let ghost before = kept@;
            kept.push(v[i].duplicate());
            assert(alias_views(kept@) =~= alias_views(before).push(v@[i as int]@));
        }
    }
    assert(alias_views(v@).take(n as int) =~= alias_views(v@));
    *v = kept;
}

/// The "nothing selected" refusal.
fn refuse(next: &mut Settings)
    ensures
        final(next)@ == nothing_selected(old(next)@),
{
    next.status = Some((false, owned("nothing selected")));
}

/// `d`: delete the selection.
fn delete_row(rows: &Vec<Row>, st: &Settings, store: &mut Store, next: &mut Settings) -> (e: Effect)
    ensures
        ({
            let (n2, v2, eff) = deleted_row(row_views(rows@), st@, old(store).aliases@, old(next)@);
            &&& final(next)@ == n2
            &&& alias_views(final(store).aliases@) == v2
            &&& e@ == eff
        }),
        final(store).config == old(store).config,
        final(store).history == old(store).history,
        final(store).version == old(store).version,
        final(store).from_newer_version == old(store).from_newer_version,
        final(store).load_notice == old(store).load_notice,
{
    let ghost v = alias_views(store.aliases@);
    if st.cursor >= rows.len() {
        refuse(next);
        return Effect::Nothing;
    }
    match &rows[st.cursor] {
        Row::Trigger { alias, idx } => {
            if *alias < store.aliases.len() && *idx < store.aliases[*alias].triggers.len() {
                let def = &store.aliases[*alias];
                assert(v[*alias as int].triggers[*idx as int] == def.triggers@[*idx as int]@);
                Effect::RemoveTrigger {
                    alias: def.name.clone(),
                    trigger: def.triggers[*idx].clone(),
                }
            } else {
                refuse(next);
                Effect::Nothing
            }
        },
        Row::Shortcut { alias, key } => {
            if !(*alias < store.aliases.len() && store.aliases[*alias].shortcuts.contains_key(key.as_str())) {
                refuse(next);
                return Effect::Nothing;
            }
            let name = store.aliases[*alias].name.clone();
            match remove_shortcut(&mut store.aliases, name.as_str(), key.as_str()) {
                Ok(()) => {
                    next.status = Some((true, cat4("shortcut removed: ", name.as_str(), ".", key.as_str())));
                    next.expanded = None;
                    Effect::Save
                },
                Err(e) => {
                    next.status = Some((false, e));
                    Effect::Nothing
                },
            }
        },
        Row::Alias { idx } => {
            if *idx < store.aliases.len() {
                let name = store.aliases[*idx].name.clone();
                if is_default_name(name.as_str()) {
                    next.status = Some((false, owned(BUILTIN_DELETE)));
                    return Effect::Nothing;
                }
                drop_named(&mut store.aliases, name.as_str());
                next.status = Some((true, cat2("alias removed: ", name.as_str())));
                next.expanded = None;
                Effect::Save
            } else {
                refuse(next);
                Effect::Nothing
            }
        },
    }
}

/// One key on the list screen.
fn list_key(st: &Settings, store: &Store, key: KeyPress) -> (r: (Settings, Store, Effect))
    requires
        rows_of(store.aliases@, st@.expanded).len() <= i32::MAX,
    ensures
        ({
            let (n2, v2, eff) = list_step(st@, store.aliases@, key);
            &&& alias_views(r.1.aliases@) == v2
            &&& r.2@ == eff
            &&& r.0@ == (SettingsModel {
                cursor: clamped_cursor(n2.cursor, rows_of(r.1.aliases@, n2.expanded).len() as int),
                ..n2
            })
        }),
        r.1.config == store.config,
        entry_views(r.1.history@) == entry_views(store.history@),
        r.1.version == store.version,
        r.1.from_newer_version == store.from_newer_version,
        r.1.load_notice == store.load_notice,
{
    let cur_rows = rows(store.aliases.as_slice(), st.expanded);
    let mut next = Settings {
        form: None,
        cursor: st.cursor,
        expanded: st.expanded,
        status: None,
        platform: st.platform,
    };
    let mut out = store.duplicate();
    let mut effect = Effect::Nothing;
    let ctrl = key.ctrl;
    match key.code {
        Key::Char(c) => {
            if ctrl {
                if c == 'c' || c == 'd' {
                    effect = Effect::Quit;
                }
            } else if c == 'q' {
                effect = Effect::Back;
            } else if c == 'k' {
                next.cursor = move_sel(cur_rows.as_slice(), st.cursor, -1);
            } else if c == 'j' {
                next.cursor = move_sel(cur_rows.as_slice(), st.cursor, 1);
            } else if c == 'n' {
                next.form = Some(new_alias(st.platform));
            } else if c == 's' {
                next.form = match selected_index(&cur_rows, st, store.aliases.as_slice()) {
                    Some(i) => Some(new_shortcut(store.aliases[i].name.as_str())),
                    None => None,
                };
            } else if c == 't' {
                next.form = match selected_index(&cur_rows, st, store.aliases.as_slice()) {
                    Some(i) => Some(new_trigger(store.aliases[i].name.as_str())),
                    None => None,
                };
            } else if c == 'e' {
                next.form = edit_form(&cur_rows, st, store.aliases.as_slice());
            } else if c == 'd' {
                effect = delete_row(&cur_rows, st, &mut out, &mut next);
            }
        },
        Key::Esc => {
            effect = Effect::Back;
        },
        Key::Up => {
            next.cursor = move_sel(cur_rows.as_slice(), st.cursor, -1);
        },
        Key::Down => {
            next.cursor = move_sel(cur_rows.as_slice(), st.cursor, 1);
        },
        Key::Enter | Key::Right => {
            next.expanded = toggle(&cur_rows, st);
        },
        Key::Left => {
            next.expanded = None;
        },
        _ => {},
    }
    clamp_cursor(&mut next, out.aliases.as_slice());
    (next, out, effect)
}

/// Enter/→ on the list: the expansion after toggling.
fn toggle(rows: &Vec<Row>, st: &Settings) -> (r: Option<usize>)
    ensures
        idx_view(r) == toggled(row_views(rows@), st@),
{
    if st.cursor < rows.len() {
        match &rows[st.cursor] {
            Row::Alias { idx } => {
                let open = match st.expanded {
                    Some(e) => e == *idx,
                    None => false,
                };
                if open {
                    None
                } else {
                    Some(*idx)
                }
            },
            _ => None,
        }
    } else {
        None
    }
}

/// The effect carrying a finished wizard submission.
pub fn effect_of(sub: Submission) -> (e: Effect)
    ensures
        e@ == effect_of_model(sub@),
{
    match sub {
        Submission::Alias(def) => Effect::AddAlias(def),
        Submission::Shortcut { alias, key, value } => Effect::SetShortcut { alias, key, value },
        Submission::Trigger { alias, trigger } => Effect::AddTrigger { alias, trigger },
        Submission::Command { alias, platform, command } => Effect::SetCommand { alias, platform, command },
        Submission::EditShortcut { alias, old_key, key, value } => Effect::EditShortcut {
            alias,
            old_key,
            key,
            value,
        },
        Submission::RenameTrigger { alias, old, new } => Effect::RenameTrigger { alias, old, new },
    }
}

/// An independent copy of a status line.
fn dup_status(s: &Option<(bool, String)>) -> (r: Option<(bool, String)>)
    ensures
        status_view(r) == status_view(*s),
{
    match s {
        Some((ok, m)) => Some((*ok, m.clone())),
        None => None,
    }
}

/// An independent copy of the page state.
pub fn dup_settings(st: &Settings) -> (r: Settings)
    ensures
        r@ == st@,
{
    let form = match &st.form {
        Some(f) => Some(dup_form(f)),
        None => None,
    };
    Settings {
        form,
        cursor: st.cursor,
        expanded: st.expanded,
        status: dup_status(&st.status),
        platform: st.platform,
    }
}

/// A key on the wizard.
fn form_key(st: &Settings, form: &Form, store: &Store, key: KeyPress) -> (r: (Settings, Store, Effect))
    requires
        form.step < usize::MAX,
    ensures
        ({
            let (f2, out) = form_step(form@, alias_views(store.aliases@), key);
            let (s2, eff) = form_page(st@, f2, out);
            r.0@ == s2 && r.2@ == eff
        }),
        same_store(r.1, *store),
{
    let (next_form, outcome) = crate::settings_form::handle_key(form, store, key);
    let base = Settings {
        form: None,
        cursor: st.cursor,
        expanded: st.expanded,
        status: None,
        platform: st.platform,
    };
    match outcome {
        FormOutcome::Active => (
            Settings { form: Some(next_form), status: dup_status(&st.status), ..base },
            store.duplicate(),
            Effect::Nothing,
        ),
        FormOutcome::Quit => (
            Settings { form: Some(next_form), status: dup_status(&st.status), ..base },
            store.duplicate(),
            Effect::Quit,
        ),
        FormOutcome::Cancel => (base, store.duplicate(), Effect::Nothing),
        FormOutcome::Submit(sub) => (base, store.duplicate(), effect_of(sub)),
    }
}

/// One key transition over the whole page (list or form). Only presses
/// count. ALT belongs to the launcher on the list screen (the wake hotkey
/// keeps working here), so an ALT key there changes nothing; the wizard's
/// input line gets ALT keys as word motions.
pub fn handle_key(st: &Settings, store: &Store, key: KeyPress) -> (r: (Settings, Store, Effect))
    requires
        st.form matches Some(f) ==> f.step < usize::MAX,
        rows_of(store.aliases@, st@.expanded).len() <= i32::MAX,
    ensures
        !key.press || (key.alt && st.form is None) ==> r.0@ == st@ && r.2@ == EffectModel::Nothing
            && same_store(r.1, *store),
        key.press && st.form is Some ==> ({
            let (f2, out) = form_step(st@.form->0, alias_views(store.aliases@), key);
            let (s2, eff) = form_page(st@, f2, out);
            r.0@ == s2 && r.2@ == eff && same_store(r.1, *store)
        }),
        key.press && !key.alt && st.form is None ==> ({
            let (n2, v2, eff) = list_step(st@, store.aliases@, key);
            &&& alias_views(r.1.aliases@) == v2
            &&& r.2@ == eff
            &&& r.0@ == (SettingsModel {
                cursor: clamped_cursor(n2.cursor, rows_of(r.1.aliases@, n2.expanded).len() as int),
                ..n2
            })
            &&& r.1.config == store.config
            &&& entry_views(r.1.history@) == entry_views(store.history@)
            &&& r.1.version == store.version
            &&& r.1.from_newer_version == store.from_newer_version
            &&& r.1.load_notice == store.load_notice
        }),
{
    if !key.press || (key.alt && st.form.is_none()) {
        return (dup_settings(st), store.duplicate(), Effect::Nothing);
    }
    match &st.form {
        Some(form) => form_key(st, form, store, key),
        None => list_key(st, store, key),
    }
}

} // verus!
