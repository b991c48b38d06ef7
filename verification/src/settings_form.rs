//! Wizard form for the `/settings` page: collects a new alias (name →
//! triggers → the current platform's command), a new concrete shortcut
//! (key → value), an edit of an alias's command for the current platform, an
//! in-place edit of one concrete shortcut (key → value) or trigger word, or a
//! new trigger word from a single bottom input line, validating each field on
//! Enter before advancing. Pure data + free functions; the store is only read
//! (duplicate-name checks): submissions are applied by [`crate::settings`] /
//! [`crate::settings_apply`].
//!
//! Wizard forms are platform-aware: the other platform's stored command is
//! never shown, prefilled or submitted by this module.

use vstd::prelude::*;

use crate::alias::{alias_views, ident, opt_view, resolve, resolved, valid_ident, AliasDef, AliasView};
use crate::keyspec::{unmodified, Key, KeyPress};
use crate::platform::{name, platform_name, Platform};
use crate::search::{first_where, lemma_first_found, lemma_first_none};
use crate::shortcuts::ShortcutMap;
use crate::storage::Store;
use crate::text::{
    cat2, cat3, chars_of, is_whitespace, is_ws, owned, trim, trim_seq, views,
};
use crate::textedit::{
    backspace, backspaced, delete, deleted, inserted, kill_to_end, kill_to_start, kill_word,
    killed_to_end, killed_to_start, killed_word, motion, moved, transpose, transposed, Motion,
};
use crate::words::{kept_pieces, kept_split, split_char, split_on};

verus! {

/// What the wizard is collecting.
#[derive(Debug, Clone, PartialEq)]
pub enum Purpose {
    /// New alias for one platform; only that platform's command is collected.
    NewAlias(Platform),
    /// One shortcut (key → value) added to an existing alias.
    NewShortcut { alias: String },
    /// One trigger word added to an existing alias.
    NewTrigger { alias: String },
    /// Rewrite an existing alias's command for one platform (prefilled).
    EditCommand { alias: String, platform: Platform },
    /// Rewrite one concrete shortcut of an alias; the key may change
    /// (`old_key` is the key as shown on the list).
    EditShortcut { alias: String, old_key: String },
    /// Rename one trigger word of an alias in place.
    EditTrigger { alias: String, old: String },
}

/// A purpose as plain values.
pub enum PurposeModel {
    NewAlias(Platform),
    NewShortcut(Seq<char>),
    NewTrigger(Seq<char>),
    EditCommand(Seq<char>, Platform),
    EditShortcut(Seq<char>, Seq<char>),
    EditTrigger(Seq<char>, Seq<char>),
}

impl View for Purpose {
    type V = PurposeModel;

    open spec fn view(&self) -> PurposeModel {
        match self {
            Purpose::NewAlias(p) => PurposeModel::NewAlias(*p),
            Purpose::NewShortcut { alias } => PurposeModel::NewShortcut(alias@),
            Purpose::NewTrigger { alias } => PurposeModel::NewTrigger(alias@),
            Purpose::EditCommand { alias, platform } => PurposeModel::EditCommand(alias@, *platform),
            Purpose::EditShortcut { alias, old_key } => PurposeModel::EditShortcut(alias@, old_key@),
            Purpose::EditTrigger { alias, old } => PurposeModel::EditTrigger(alias@, old@),
        }
    }
}

/// A finished wizard run, ready to be applied to the store.
#[derive(Debug, Clone, PartialEq)]
pub enum Submission {
    Alias(AliasDef),
    /// A concrete key → value shortcut on an alias (refused if the key
    /// already exists).
    Shortcut { alias: String, key: String, value: String },
    /// A trigger word on an alias (refused if already registered there).
    Trigger { alias: String, trigger: String },
    /// Applied by `alias::set_command`: sets only `platform`'s field.
    Command { alias: String, platform: Platform, command: String },
    /// Applied by `alias::edit_shortcut`: replaces `old_key` with `key`,
    /// both under `alias`.
    EditShortcut { alias: String, old_key: String, key: String, value: String },
    /// Applied by `alias::rename_trigger`: renames `old` to `new` in place.
    RenameTrigger { alias: String, old: String, new: String },
}

/// A submission as plain values.
pub enum SubmissionModel {
    Alias(AliasView),
    Shortcut(Seq<char>, Seq<char>, Seq<char>),
    Trigger(Seq<char>, Seq<char>),
    Command(Seq<char>, Platform, Seq<char>),
    EditShortcut(Seq<char>, Seq<char>, Seq<char>, Seq<char>),
    RenameTrigger(Seq<char>, Seq<char>, Seq<char>),
}

impl View for Submission {
    type V = SubmissionModel;

    open spec fn view(&self) -> SubmissionModel {
        match self {
            Submission::Alias(d) => SubmissionModel::Alias(d@),
            Submission::Shortcut { alias, key, value } => SubmissionModel::Shortcut(
                alias@,
                key@,
                value@,
            ),
            Submission::Trigger { alias, trigger } => SubmissionModel::Trigger(alias@, trigger@),
            Submission::Command { alias, platform, command } => SubmissionModel::Command(
                alias@,
                *platform,
                command@,
            ),
            Submission::EditShortcut { alias, old_key, key, value } => SubmissionModel::EditShortcut(
                alias@,
                old_key@,
                key@,
                value@,
            ),
            Submission::RenameTrigger { alias, old, new } => SubmissionModel::RenameTrigger(
                alias@,
                old@,
                new@,
            ),
        }
    }
}

/// Form state: answers before `step` are final, `input` is the field being
/// edited, `error` is the inline validation message.
#[derive(Debug, Clone, PartialEq)]
pub struct Form {
    pub purpose: Purpose,
    pub step: usize,
    pub name: String,
    pub triggers: String,
    pub trigger: String,
    pub command: String,
    pub shortcut_key: String,
    pub shortcut_value: String,
    pub input: String,
    /// Char index of the text caret inside `input` (`0..=input.chars().count()`).
    pub caret: usize,
    pub error: Option<String>,
}

/// A form as plain values.
pub struct FormModel {
    pub purpose: PurposeModel,
    pub step: int,
    pub name: Seq<char>,
    pub triggers: Seq<char>,
    pub trigger: Seq<char>,
    pub command: Seq<char>,
    pub shortcut_key: Seq<char>,
    pub shortcut_value: Seq<char>,
    pub input: Seq<char>,
    pub caret: int,
    pub error: Option<Seq<char>>,
}

impl View for Form {
    type V = FormModel;

    open spec fn view(&self) -> FormModel {
        FormModel {
            purpose: self.purpose@,
            step: self.step as int,
            name: self.name@,
            triggers: self.triggers@,
            trigger: self.trigger@,
            command: self.command@,
            shortcut_key: self.shortcut_key@,
            shortcut_value: self.shortcut_value@,
            input: self.input@,
            caret: self.caret as int,
            error: opt_view(self.error),
        }
    }
}

/// Outcome of one key transition on the form.
#[derive(Debug, Clone, PartialEq)]
pub enum FormOutcome {
    /// Stay on the form (input / step / error may have changed).
    Active,
    /// Esc: discard the draft, back to the list.
    Cancel,
    /// The wizard finished; apply this submission.
    Submit(Submission),
    /// Ctrl+C / Ctrl+D.
    Quit,
}

/// An outcome as plain values.
pub enum OutcomeModel {
    Active,
    Cancel,
    Submit(SubmissionModel),
    Quit,
}

impl View for FormOutcome {
    type V = OutcomeModel;

    open spec fn view(&self) -> OutcomeModel {
        match self {
            FormOutcome::Active => OutcomeModel::Active,
            FormOutcome::Cancel => OutcomeModel::Cancel,
            FormOutcome::Submit(s) => OutcomeModel::Submit(s@),
            FormOutcome::Quit => OutcomeModel::Quit,
        }
    }
}

// ----------------------------------------------------------------------
// Constructors
// ----------------------------------------------------------------------

/// A fresh form for `p`: every answer empty, step 0.
pub open spec fn blank_model(p: PurposeModel) -> FormModel {
    FormModel {
        purpose: p,
        step: 0,
        name: Seq::empty(),
        triggers: Seq::empty(),
        trigger: Seq::empty(),
        command: Seq::empty(),
        shortcut_key: Seq::empty(),
        shortcut_value: Seq::empty(),
        input: Seq::empty(),
        caret: 0,
        error: None,
    }
}

/// Fresh wizard state for `purpose`: every answer empty, step 0.
fn blank(purpose: Purpose) -> (f: Form)
    ensures
        f@ == blank_model(purpose@),
{
    Form {
        purpose,
        step: 0,
        name: String::new(),
        triggers: String::new(),
        trigger: String::new(),
        command: String::new(),
        shortcut_key: String::new(),
        shortcut_value: String::new(),
        input: String::new(),
        caret: 0,
        error: None,
    }
}

/// Start the new-alias wizard for `platform` (step 0 = name, step 2 = that
/// platform's command).
pub fn new_alias(platform: Platform) -> (f: Form)
    ensures
        f@ == blank_model(PurposeModel::NewAlias(platform)),
{
    blank(Purpose::NewAlias(platform))
}

/// Start the add-shortcut wizard for `alias` (step 0 = key, step 1 = value).
pub fn new_shortcut(alias: &str) -> (f: Form)
    ensures
        f@ == blank_model(PurposeModel::NewShortcut(alias@)),
{
    blank(Purpose::NewShortcut { alias: owned(alias) })
}

/// Start the add-trigger wizard for `alias` (single step).
pub fn new_trigger(alias: &str) -> (f: Form)
    ensures
        f@ == blank_model(PurposeModel::NewTrigger(alias@)),
{
    blank(Purpose::NewTrigger { alias: owned(alias) })
}

/// The edit-command wizard for `alias` on `platform`, prefilled with the
/// current command (empty when there is none).
pub open spec fn edit_command_form(alias: Seq<char>, platform: Platform, current: Option<Seq<char>>) -> FormModel {
    let c = match current {
        Some(c) => c,
        None => Seq::empty(),
    };
    FormModel {
        input: c,
        caret: c.len() as int,
        command: c,
        ..blank_model(PurposeModel::EditCommand(alias, platform))
    }
}

/// The edit-shortcut wizard for `alias`'s `key`, prefilled with the key and
/// holding the current value for the second step.
pub open spec fn edit_shortcut_form(alias: Seq<char>, key: Seq<char>, value: Seq<char>) -> FormModel {
    FormModel {
        input: key,
        caret: key.len() as int,
        shortcut_value: value,
        ..blank_model(PurposeModel::EditShortcut(alias, key))
    }
}

/// The edit-trigger wizard for `alias`'s `trigger`, prefilled with the word.
pub open spec fn edit_trigger_form(alias: Seq<char>, trigger: Seq<char>) -> FormModel {
    FormModel {
        input: trigger,
        caret: trigger.len() as int,
        ..blank_model(PurposeModel::EditTrigger(alias, trigger))
    }
}

/// Start the edit-command wizard for `alias`: the single step is prefilled
/// with `platform`'s stored command (empty when `current` is `None`), so
/// Enter can be pressed straight through. The other platform is never
/// touched.
pub fn new_edit_command(alias: &str, platform: Platform, current: Option<&str>) -> (f: Form)
    ensures
        f@ == edit_command_form(alias@, platform, crate::text::opt_str(current)),
{
    let mut form = blank(Purpose::EditCommand { alias: owned(alias), platform });
    let current = match current {
        Some(c) => owned(c),
        None => String::new(),
    };
    form.caret = chars_of(current.as_str()).len();
    form.input = current.clone();
    form.command = current;
    form
}

/// Start the edit-shortcut wizard for `alias`: step 0 is the current key,
/// step 1 the current value, both prefilled so Enter can be pressed straight
/// through (the key may be rewritten, which renames the entry in place).
pub fn new_edit_shortcut(alias: &str, key: &str, value: &str) -> (f: Form)
    ensures
        f@ == edit_shortcut_form(alias@, key@, value@),
{
    let mut form = blank(Purpose::EditShortcut { alias: owned(alias), old_key: owned(key) });
    form.input = owned(key);
    form.caret = chars_of(key).len();
    form.shortcut_value = owned(value);
    form
}

/// Start the edit-trigger wizard for `alias` (single step, prefilled with the
/// current word).
pub fn new_edit_trigger(alias: &str, trigger: &str) -> (f: Form)
    ensures
        f@ == edit_trigger_form(alias@, trigger@),
{
    let mut form = blank(Purpose::EditTrigger { alias: owned(alias), old: owned(trigger) });
    form.input = owned(trigger);
    form.caret = chars_of(trigger).len();
    form
}

/// Number of wizard steps of a purpose.
pub open spec fn steps_of(p: PurposeModel) -> int {
    match p {
        PurposeModel::NewAlias(_) => 3,
        PurposeModel::NewShortcut(_) => 2,
        PurposeModel::NewTrigger(_) => 1,
        PurposeModel::EditCommand(..) => 1,
        PurposeModel::EditShortcut(..) => 2,
        PurposeModel::EditTrigger(..) => 1,
    }
}

/// Number of wizard steps for the form's purpose.
pub fn step_count(f: &Form) -> (n: usize)
    ensures
        n == steps_of(f@.purpose),
{
    match f.purpose {
        Purpose::NewAlias(_) => 3,
        Purpose::NewShortcut { .. } => 2,
        Purpose::NewTrigger { .. } => 1,
        Purpose::EditCommand { .. } => 1,
        Purpose::EditShortcut { .. } => 2,
        Purpose::EditTrigger { .. } => 1,
    }
}

// ----------------------------------------------------------------------
// Copies
// ----------------------------------------------------------------------

/// An independent copy of a purpose.
pub fn dup_purpose(p: &Purpose) -> (r: Purpose)
    ensures
        r@ == p@,
{
    match p {
        Purpose::NewAlias(pl) => Purpose::NewAlias(*pl),
        Purpose::NewShortcut { alias } => Purpose::NewShortcut { alias: alias.clone() },
        Purpose::NewTrigger { alias } => Purpose::NewTrigger { alias: alias.clone() },
        Purpose::EditCommand { alias, platform } => Purpose::EditCommand {
            alias: alias.clone(),
            platform: *platform,
        },
        Purpose::EditShortcut { alias, old_key } => Purpose::EditShortcut {
            alias: alias.clone(),
            old_key: old_key.clone(),
        },
        Purpose::EditTrigger { alias, old } => Purpose::EditTrigger {
            alias: alias.clone(),
            old: old.clone(),
        },
    }
}

/// An independent copy of an optional string.
fn dup_opt(o: &Option<String>) -> (r: Option<String>)
    ensures
        opt_view(r) == opt_view(*o),
{
    match o {
        Some(s) => Some(s.clone()),
        None => None,
    }
}

/// An independent copy of a form.
pub fn dup_form(f: &Form) -> (r: Form)
    ensures
        r@ == f@,
{
    Form {
        purpose: dup_purpose(&f.purpose),
        step: f.step,
        name: f.name.clone(),
        triggers: f.triggers.clone(),
        trigger: f.trigger.clone(),
        command: f.command.clone(),
        shortcut_key: f.shortcut_key.clone(),
        shortcut_value: f.shortcut_value.clone(),
        input: f.input.clone(),
        caret: f.caret,
        error: dup_opt(&f.error),
    }
}

// ----------------------------------------------------------------------
// Enter: validate, store, advance
// ----------------------------------------------------------------------

/// Piece `i` of a trigger list is a non-empty word that is no valid trigger.
pub open spec fn bad_piece_at(ps: Seq<Seq<char>>) -> spec_fn(int) -> bool {
    |i: int| trim_seq(ps[i]).len() > 0 && !ident(trim_seq(ps[i]))
}

/// Some char of `s` is whitespace.
pub open spec fn has_ws(s: Seq<char>) -> bool {
    exists|i: int| 0 <= i < s.len() && is_ws(#[trigger] s[i])
}

/// Validation of the current field (its trimmed input) against the aliases
/// `defs`: `Ok` or the inline message.
pub open spec fn validated(f: FormModel, defs: Seq<AliasView>) -> Result<(), Seq<char>> {
    let v = trim_seq(f.input);
    match f.purpose {
        PurposeModel::NewAlias(p) => if f.step == 0 {
            if v.len() == 0 {
                Err("name cannot be empty"@)
            } else if !ident(v) {
                Err("invalid name: "@ + v + " (a-z 0-9 - _)"@)
            } else if resolved(defs, v) is Some {
                Err("name already in use: "@ + v)
            } else {
                Ok(())
            }
        } else if f.step == 1 {
            let ps = split_on(v, ',');
            match first_where(ps.len() as int, bad_piece_at(ps)) {
                Some(i) => Err("invalid trigger: "@ + trim_seq(ps[i])),
                None => Ok(()),
            }
        } else if f.step == 2 {
            if v.len() == 0 {
                Err(platform_name(p) + " command cannot be empty"@)
            } else {
                Ok(())
            }
        } else {
            Ok(())
        },
        PurposeModel::EditCommand(_, p) => if f.step == 0 && v.len() == 0 {
            Err(platform_name(p) + " command cannot be empty"@)
        } else {
            Ok(())
        },
        PurposeModel::NewShortcut(_) | PurposeModel::EditShortcut(..) => if f.step == 0 {
            if v.len() == 0 {
                Err("shortcut key cannot be empty"@)
            } else if has_ws(v) {
                Err("shortcut key must be one word"@)
            } else {
                Ok(())
            }
        } else if f.step == 1 && v.len() == 0 {
            Err("shortcut value cannot be empty"@)
        } else {
            Ok(())
        },
        PurposeModel::NewTrigger(_) | PurposeModel::EditTrigger(..) => if f.step == 0 {
            if v.len() == 0 {
                Err("trigger cannot be empty"@)
            } else if !ident(v) {
                Err("invalid trigger: "@ + v + " (a-z 0-9 - _)"@)
            } else {
                Ok(())
            }
        } else {
            Ok(())
        },
    }
}

/// The form with the current step's answer set to `v`.
pub open spec fn stored(f: FormModel, v: Seq<char>) -> FormModel {
    match f.purpose {
        PurposeModel::NewAlias(_) => if f.step == 0 {
            FormModel { name: v, ..f }
        } else if f.step == 1 {
            FormModel { triggers: v, ..f }
        } else if f.step == 2 {
            FormModel { command: v, ..f }
        } else {
            f
        },
        PurposeModel::EditCommand(..) => if f.step == 0 {
            FormModel { command: v, ..f }
        } else {
            f
        },
        PurposeModel::NewShortcut(_) | PurposeModel::EditShortcut(..) => if f.step == 0 {
            FormModel { shortcut_key: v, ..f }
        } else if f.step == 1 {
            FormModel { shortcut_value: v, ..f }
        } else {
            f
        },
        PurposeModel::NewTrigger(_) | PurposeModel::EditTrigger(..) => if f.step == 0 {
            FormModel { trigger: v, ..f }
        } else {
            f
        },
    }
}

/// Initial text of the step just started: the shortcut edit's value step
/// starts from the current value, every other step empty.
pub open spec fn prefill_of(f: FormModel) -> Seq<char> {
    match f.purpose {
        PurposeModel::EditShortcut(..) => if f.step == 1 {
            f.shortcut_value
        } else {
            Seq::empty()
        },
        _ => Seq::empty(),
    }
}

/// What a finished form submits.
pub open spec fn submission_of(f: FormModel) -> SubmissionModel {
    match f.purpose {
        PurposeModel::NewAlias(p) => SubmissionModel::Alias(
            AliasView {
                name: f.name,
                triggers: kept_pieces(split_on(f.triggers, ',')),
                linux: if p == Platform::Linux {
                    Some(f.command)
                } else {
                    None
                },
                macos: if p == Platform::Macos {
                    Some(f.command)
                } else {
                    None
                },
                shortcuts: Map::empty(),
            },
        ),
        PurposeModel::NewShortcut(a) => SubmissionModel::Shortcut(a, f.shortcut_key, f.shortcut_value),
        PurposeModel::EditShortcut(a, old) => SubmissionModel::EditShortcut(
            a,
            old,
            f.shortcut_key,
            f.shortcut_value,
        ),
        PurposeModel::NewTrigger(a) => SubmissionModel::Trigger(a, f.trigger),
        PurposeModel::EditTrigger(a, old) => SubmissionModel::RenameTrigger(a, old, f.trigger),
        PurposeModel::EditCommand(a, p) => SubmissionModel::Command(a, p, f.command),
    }
}

/// Enter: the current field is trimmed and validated; an error stays
/// inline, a valid answer is stored and the next step starts (prefilled
/// where it edits a current value), and finishing the last step submits.
pub open spec fn advanced(f: FormModel, defs: Seq<AliasView>) -> (FormModel, OutcomeModel) {
    let v = trim_seq(f.input);
    let trimmed = FormModel { input: v, caret: v.len() as int, ..f };
    match validated(f, defs) {
        Err(e) => (FormModel { error: Some(e), ..trimmed }, OutcomeModel::Active),
        Ok(_) => {
            let g = stored(FormModel { error: None, ..trimmed }, v);
            let g2 = FormModel { step: g.step + 1, ..g };
            let p = prefill_of(g2);
            let g3 = FormModel { input: p, caret: p.len() as int, ..g2 };
            if g3.step >= steps_of(f.purpose) {
                (g3, OutcomeModel::Submit(submission_of(g3)))
            } else {
                (g3, OutcomeModel::Active)
            }
        },
    }
}

/// The form after an edit of its input line.
pub open spec fn edited(f: FormModel, r: (Seq<char>, int)) -> (FormModel, OutcomeModel) {
    (FormModel { input: r.0, caret: r.1, ..f }, OutcomeModel::Active)
}

/// The form after a caret motion.
pub open spec fn caret_moved(f: FormModel, m: Motion) -> (FormModel, OutcomeModel) {
    (FormModel { caret: moved(f.input, f.caret, m), ..f }, OutcomeModel::Active)
}

/// One key on the form: Ctrl+C / Ctrl+D quit, Esc cancels, Enter advances;
/// the bottom line is readline-style (Backspace/Delete, Ctrl+H/K/U/W/T
/// edits, Ctrl+A/E/B/F and Alt+B/F and the arrows move); a plain char is
/// inserted at the caret. Alt+Ctrl combinations and non-press events change
/// nothing.
pub open spec fn form_step(f: FormModel, defs: Seq<AliasView>, key: KeyPress) -> (FormModel, OutcomeModel) {
    let ctrl = key.ctrl;
    let alt = key.alt;
    if !key.press || (ctrl && alt) {
        (f, OutcomeModel::Active)
    } else {
        match key.code {
            Key::Char(c) => if ctrl && (c == 'c' || c == 'd') {
                (f, OutcomeModel::Quit)
            } else if ctrl && c == 'h' {
                edited(f, backspaced(f.input, f.caret))
            } else if ctrl && c == 'k' {
                edited(f, killed_to_end(f.input, f.caret))
            } else if ctrl && c == 'u' {
                edited(f, killed_to_start(f.input, f.caret))
            } else if ctrl && c == 'w' {
                edited(f, killed_word(f.input, f.caret))
            } else if ctrl && c == 't' {
                edited(f, transposed(f.input, f.caret))
            } else if ctrl && c == 'a' {
                caret_moved(f, Motion::Home)
            } else if ctrl && c == 'e' {
                caret_moved(f, Motion::End)
            } else if ctrl && c == 'b' {
                caret_moved(f, Motion::Left)
            } else if ctrl && c == 'f' {
                caret_moved(f, Motion::Right)
            } else if alt && c == 'b' {
                caret_moved(f, Motion::WordLeft)
            } else if alt && c == 'f' {
                caret_moved(f, Motion::WordRight)
            } else if !ctrl && !alt {
                edited(f, inserted(f.input, f.caret, c))
            } else {
                (f, OutcomeModel::Active)
            },
            Key::Esc => (f, OutcomeModel::Cancel),
            Key::Enter => advanced(f, defs),
            Key::Backspace => if unmodified(key) {
                edited(f, backspaced(f.input, f.caret))
            } else {
                (f, OutcomeModel::Active)
            },
            Key::Delete => if !ctrl && !alt {
                edited(f, deleted(f.input, f.caret))
            } else {
                (f, OutcomeModel::Active)
            },
            Key::Left => if ctrl || alt {
                caret_moved(f, Motion::WordLeft)
            } else {
                caret_moved(f, Motion::Left)
            },
            Key::Right => if ctrl || alt {
                caret_moved(f, Motion::WordRight)
            } else {
                caret_moved(f, Motion::Right)
            },
            Key::Home => caret_moved(f, Motion::Home),
            Key::End => caret_moved(f, Motion::End),
            _ => (f, OutcomeModel::Active),
        }
    }
}

/// The validation message for the current field, if any.
fn validate_step(f: &Form, store: &Store) -> (r: Result<(), String>)
    ensures
        match validated(f@, alias_views(store.aliases@)) {
            Ok(_) => r is Ok,
            Err(e) => r matches Err(m) && m@ == e,
        },
{
    let t = trim(f.input.as_str());
    let v = t.as_str();
    match &f.purpose {
        Purpose::NewAlias(p) => {
            if f.step == 0 {
                if v.is_empty() {
                    Err(owned("name cannot be empty"))
                } else if !valid_ident(v) {
                    Err(cat3("invalid name: ", v, " (a-z 0-9 - _)"))
                } else if resolve(store.aliases.as_slice(), v).is_some() {
                    Err(cat2("name already in use: ", v))
                } else {
                    Ok(())
                }
            } else if f.step == 1 {
                let parts = split_char(v, ',');
                let ghost ps = split_on(v@, ',');
                let n = parts.len();
                for i in 0..n
                    invariant
                        n == parts.len(),
                        views(parts@) == ps,
                        ps == split_on(v@, ','),
                        v@ == trim_seq(f@.input),
                        f.step == 1,
                        f@.purpose == PurposeModel::NewAlias(*p),
                        forall|j: int| 0 <= j < i ==> !#[trigger] bad_piece_at(ps)(j),
                {
                    let sc = trim(parts[i].as_str());
                    assert(ps[i as int] == parts@[i as int]@);
                    if !sc.as_str().is_empty() && !valid_ident(sc.as_str()) {
                        proof {
                            lemma_first_found(n as int, bad_piece_at(ps), i as int);
                        }
                        return Err(cat2("invalid trigger: ", sc.as_str()));
                    }
                }
                proof {
                    lemma_first_none(n as int, bad_piece_at(ps));
                }
                Ok(())
            } else if f.step == 2 {
                if v.is_empty() {
                    Err(cat2(name(*p), " command cannot be empty"))
                } else {
                    Ok(())
                }
            } else {
                Ok(())
            }
        },
        Purpose::EditCommand { platform, .. } => {
            if f.step == 0 && v.is_empty() {
                Err(cat2(name(*platform), " command cannot be empty"))
            } else {
                Ok(())
            }
        },
        Purpose::NewShortcut { .. } | Purpose::EditShortcut { .. } => {
            if f.step == 0 {
                if v.is_empty() {
                    Err(owned("shortcut key cannot be empty"))
                } else if contains_ws(v) {
                    Err(owned("shortcut key must be one word"))
                } else {
                    Ok(())
                }
            } else if f.step == 1 && v.is_empty() {
                Err(owned("shortcut value cannot be empty"))
            } else {
                Ok(())
            }
        },
        Purpose::NewTrigger { .. } | Purpose::EditTrigger { .. } => {
            if f.step == 0 {
                if v.is_empty() {
                    Err(owned("trigger cannot be empty"))
                } else if !valid_ident(v) {
                    Err(cat3("invalid trigger: ", v, " (a-z 0-9 - _)"))
                } else {
                    Ok(())
                }
            } else {
                Ok(())
            }
        },
    }
}

/// Whether `s` holds a whitespace char.
fn contains_ws(s: &str) -> (r: bool)
    ensures
        r == has_ws(s@),
{
    let v = chars_of(s);
    let n = v.len();
    for i in 0..n
        invariant
            n == v.len(),
            v@ == s@,
            forall|j: int| 0 <= j < i ==> !is_ws(#[trigger] s@[j]),
    {
        if is_whitespace(v[i]) {
            assert(is_ws(s@[i as int]));
            return true;
        }
    }
    false
}

/// Set the current step's answer to `value`.
fn store_field(f: &mut Form, value: &str)
    ensures
        final(f)@ == stored(old(f)@, value@),
{
    match &f.purpose {
        Purpose::NewAlias(_) => {
            if f.step == 0 {
                f.name = owned(value);
            } else if f.step == 1 {
                f.triggers = owned(value);
            } else if f.step == 2 {
                f.command = owned(value);
            }
        },
        Purpose::EditCommand { .. } => {
            if f.step == 0 {
                f.command = owned(value);
            }
        },
        Purpose::NewShortcut { .. } | Purpose::EditShortcut { .. } => {
            if f.step == 0 {
                f.shortcut_key = owned(value);
            } else if f.step == 1 {
                f.shortcut_value = owned(value);
            }
        },
        Purpose::NewTrigger { .. } | Purpose::EditTrigger { .. } => {
            if f.step == 0 {
                f.trigger = owned(value);
            }
        },
    }
}

/// Initial text of the step just started.
fn prefill(f: &Form) -> (r: String)
    ensures
        r@ == prefill_of(f@),
{
    match &f.purpose {
        Purpose::EditShortcut { .. } => if f.step == 1 {
            f.shortcut_value.clone()
        } else {
            String::new()
        },
        _ => String::new(),
    }
}

/// What the finished form submits.
fn build_submission(f: &Form) -> (s: Submission)
    ensures
        s@ == submission_of(f@),
{
    match &f.purpose {
        Purpose::NewAlias(platform) => {
            let triggers = kept_split(f.triggers.as_str(), ',');
            let linux = if *platform == Platform::Linux {
                Some(f.command.clone())
            } else {
                None
            };
            let macos = if *platform == Platform::Macos {
                Some(f.command.clone())
            } else {
                None
            };
            Submission::Alias(
                AliasDef { name: f.name.clone(), triggers, linux, macos, shortcuts: ShortcutMap::new() },
            )
        },
        Purpose::NewShortcut { alias } => Submission::Shortcut {
            alias: alias.clone(),
            key: f.shortcut_key.clone(),
            value: f.shortcut_value.clone(),
        },
        Purpose::EditShortcut { alias, old_key } => Submission::EditShortcut {
            alias: alias.clone(),
            old_key: old_key.clone(),
            key: f.shortcut_key.clone(),
            value: f.shortcut_value.clone(),
        },
        Purpose::NewTrigger { alias } => Submission::Trigger {
            alias: alias.clone(),
            trigger: f.trigger.clone(),
        },
        Purpose::EditTrigger { alias, old } => Submission::RenameTrigger {
            alias: alias.clone(),
            old: old.clone(),
            new: f.trigger.clone(),
        },
        Purpose::EditCommand { alias, platform } => Submission::Command {
            alias: alias.clone(),
            platform: *platform,
            command: f.command.clone(),
        },
    }
}

/// Enter: validate the current field; on success store it and advance (or
/// submit when it was the last step). Errors stay inline.
fn advance(f: &Form, store: &Store) -> (r: (Form, FormOutcome))
    requires
        f.step < usize::MAX,
    ensures
        (r.0@, r.1@) == advanced(f@, alias_views(store.aliases@)),
{
    let mut next = dup_form(f);
    next.input = trim(f.input.as_str());
    next.caret = chars_of(next.input.as_str()).len();
    match validate_step(f, store) {
        Err(e) => {
            next.error = Some(e);
            (next, FormOutcome::Active)
        },
        Ok(()) => {
            next.error = None;
            let value = next.input.clone();
            store_field(&mut next, value.as_str());
            assert(next.step == f.step);
            next.step = f.step + 1;
            next.input = prefill(&next);
            next.caret = chars_of(next.input.as_str()).len();
            if next.step >= step_count(f) {
                let sub = build_submission(&next);
                (next, FormOutcome::Submit(sub))
            } else {
                (next, FormOutcome::Active)
            }
        },
    }
}

/// Apply one edit result to the input line.
fn set_line(form: &mut Form, r: (String, usize))
    ensures
        final(form)@ == (FormModel { input: r.0@, caret: r.1 as int, ..old(form)@ }),
{
    form.input = r.0;
    form.caret = r.1;
}

/// Move the caret without touching the text.
fn move_caret(form: &mut Form, m: Motion)
    ensures
        final(form)@ == (FormModel { caret: moved(old(form)@.input, old(form)@.caret, m), ..old(form)@ }),
{
    form.caret = motion(form.input.as_str(), form.caret, m);
}

/// One key transition: `(new form, outcome)`. Only presses count.
///
/// The bottom line is readline-style: a real char-index caret, char/word
/// motions, and the shell's edit keys. Ctrl+D / Ctrl+C quit in any state.
pub fn handle_key(f: &Form, store: &Store, key: KeyPress) -> (r: (Form, FormOutcome))
    requires
        f.step < usize::MAX,
    ensures
        (r.0@, r.1@) == form_step(f@, alias_views(store.aliases@), key),
{
    let ctrl = key.ctrl;
    let alt = key.alt;
    if !key.press || (ctrl && alt) {
        return (dup_form(f), FormOutcome::Active);
    }
    let mut next = dup_form(f);
    match key.code {
        Key::Char(c) => {
            if ctrl && (c == 'c' || c == 'd') {
                (next, FormOutcome::Quit)
            } else if ctrl && c == 'h' {
                set_line(&mut next, backspace(f.input.as_str(), f.caret));
                (next, FormOutcome::Active)
            } else if ctrl && c == 'k' {
                set_line(&mut next, kill_to_end(f.input.as_str(), f.caret));
                (next, FormOutcome::Active)
            } else if ctrl && c == 'u' {
                set_line(&mut next, kill_to_start(f.input.as_str(), f.caret));
                (next, FormOutcome::Active)
            } else if ctrl && c == 'w' {
                set_line(&mut next, kill_word(f.input.as_str(), f.caret));
                (next, FormOutcome::Active)
            } else if ctrl && c == 't' {
                set_line(&mut next, transpose(f.input.as_str(), f.caret));
                (next, FormOutcome::Active)
            } else if ctrl && c == 'a' {
                move_caret(&mut next, Motion::Home);
                (next, FormOutcome::Active)
            } else if ctrl && c == 'e' {
                move_caret(&mut next, Motion::End);
                (next, FormOutcome::Active)
            } else if ctrl && c == 'b' {
                move_caret(&mut next, Motion::Left);
                (next, FormOutcome::Active)
            } else if ctrl && c == 'f' {
                move_caret(&mut next, Motion::Right);
                (next, FormOutcome::Active)
            } else if alt && c == 'b' {
                move_caret(&mut next, Motion::WordLeft);
                (next, FormOutcome::Active)
            } else if alt && c == 'f' {
                move_caret(&mut next, Motion::WordRight);
                (next, FormOutcome::Active)
            } else if !ctrl && !alt {
                set_line(&mut next, crate::textedit::insert(f.input.as_str(), f.caret, c));
                (next, FormOutcome::Active)
            } else {
                (next, FormOutcome::Active)
            }
        },
        Key::Esc => (next, FormOutcome::Cancel),
        Key::Enter => advance(f, store),
        Key::Backspace => {
            if !key.alt && !key.ctrl && !key.shift && !key.extra {
                set_line(&mut next, backspace(f.input.as_str(), f.caret));
            }
            (next, FormOutcome::Active)
        },
        Key::Delete => {
            if !ctrl && !alt {
                set_line(&mut next, delete(f.input.as_str(), f.caret));
            }
            (next, FormOutcome::Active)
        },
        Key::Left => {
            if ctrl || alt {
                move_caret(&mut next, Motion::WordLeft);
            } else {
                move_caret(&mut next, Motion::Left);
            }
            (next, FormOutcome::Active)
        },
        Key::Right => {
            if ctrl || alt {
                move_caret(&mut next, Motion::WordRight);
            } else {
                move_caret(&mut next, Motion::Right);
            }
            (next, FormOutcome::Active)
        },
        Key::Home => {
            move_caret(&mut next, Motion::Home);
            (next, FormOutcome::Active)
        },
        Key::End => {
            move_caret(&mut next, Motion::End);
            (next, FormOutcome::Active)
        },
        _ => (next, FormOutcome::Active),
    }
}

} // verus!
