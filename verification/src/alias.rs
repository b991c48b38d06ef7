//! Alias definitions, the seeded defaults, and shortcut/trigger mutation.
//!
//! Command template conventions:
//!
//! * `{input}` - placeholder for the user's input; it is shell-quoted before
//!   being substituted, and registered shortcuts are resolved into the input
//!   first (see [`crate::exec`]).
//! * `@stdin` - marker meaning the input is delivered through the child
//!   process stdin; the marker is removed from the command string.

use vstd::prelude::*;

use crate::platform::Platform;
use crate::search::{first_where, lemma_first_found, lemma_first_none, lemma_first_some};
use crate::shortcuts::ShortcutMap;
use crate::text::{
    blank, cat2, err_msg, cat3, cat4, chars_of, eq_fold, eq_ignore_case, eq_str, is_ascii_alnum, is_alnum,
    is_blank, join, join_strings, owned, to_lowercase, unicode_lower, views,
};

verus! {

/// A single alias definition: a name, alternate trigger words, one command
/// per platform, and the concrete shortcut table.
#[derive(Debug, Clone, PartialEq)]
pub struct AliasDef {
    pub name: String,
    /// Alternate trigger words resolving to this alias.
    pub triggers: Vec<String>,
    pub linux: Option<String>,
    pub macos: Option<String>,
    /// Concrete registered shortcuts: typing `<alias> <key> <more...>` maps
    /// `<key>` to this value before the command runs.
    pub shortcuts: ShortcutMap,
}

/// An alias as plain values.
pub struct AliasView {
    pub name: Seq<char>,
    pub triggers: Seq<Seq<char>>,
    pub linux: Option<Seq<char>>,
    pub macos: Option<Seq<char>>,
    pub shortcuts: Map<Seq<char>, Seq<char>>,
}

/// The text of an optional string.
pub open spec fn opt_view(o: Option<String>) -> Option<Seq<char>> {
    match o {
        Some(s) => Some(s@),
        None => None,
    }
}

impl View for AliasDef {
    type V = AliasView;

    open spec fn view(&self) -> AliasView {
        AliasView {
            name: self.name@,
            triggers: views(self.triggers@),
            linux: opt_view(self.linux),
            macos: opt_view(self.macos),
            shortcuts: self.shortcuts@,
        }
    }
}

/// The models of a list of aliases.
pub open spec fn alias_views(v: Seq<AliasDef>) -> Seq<AliasView> {
    v.map_values(|d: AliasDef| d@)
}

/// A copy of a list of strings.
pub fn clone_strings(v: &Vec<String>) -> (r: Vec<String>)
    ensures
        views(r@) == views(v@),
{
    let mut r: Vec<String> = Vec::new();
    let n = v.len();
    for i in 0..n
        invariant
            n == v.len(),
            views(r@) == views(v@).take(i as int),
    {
        let ghost before = r@;
        r.push(v[i].clone());
        assert(views(r@) =~= views(before).push(v@[i as int]@));
        assert(views(v@).take(i + 1) =~= views(v@).take(i as int).push(v@[i as int]@));
    }
    assert(views(v@).take(n as int) =~= views(v@));
    r
}

/// A copy of an optional string.
pub fn clone_opt(o: &Option<String>) -> (r: Option<String>)
    ensures
        opt_view(r) == opt_view(*o),
{
    match o {
        Some(s) => Some(s.clone()),
        None => None,
    }
}

impl AliasDef {
    /// An independent copy with the same model.
    pub fn duplicate(&self) -> (r: AliasDef)
        ensures
            r@ == self@,
    {
        AliasDef {
            name: self.name.clone(),
            triggers: clone_strings(&self.triggers),
            linux: clone_opt(&self.linux),
            macos: clone_opt(&self.macos),
            shortcuts: self.shortcuts.duplicate(),
        }
    }
}

// ----------------------------------------------------------------------
// Seeded defaults
// ----------------------------------------------------------------------

/// The seeded `br` alias: opens its input with the platform's opener,
/// quiet and backgrounded, and ships two concrete shortcuts.
pub open spec fn br_view() -> AliasView {
    AliasView {
        name: "br"@,
        triggers: Seq::empty(),
        linux: Some("xdg-open {input} >/dev/null 2>&1 &"@),
        macos: Some("open {input} >/dev/null 2>&1 &"@),
        shortcuts: Map::empty().insert("baidu"@, "https://www.baidu.com"@).insert(
            "gm"@,
            "https://mail.google.com"@,
        ),
    }
}

/// The seeded `cd` alias: the native clipboard backend on both platforms.
pub open spec fn cd_view() -> AliasView {
    AliasView {
        name: "cd"@,
        triggers: Seq::empty(),
        linux: Some(crate::clipboard::TEMPLATE@),
        macos: Some(crate::clipboard::TEMPLATE@),
        shortcuts: Map::empty(),
    }
}

/// Exactly the aliases a fresh store is seeded with: `br`, `cd` and `app`.
pub open spec fn default_views() -> Seq<AliasView> {
    seq![br_view(), cd_view(), crate::launch::app_view()]
}

/// Initial aliases seeded into every fresh store: `br`, `cd` and `app`, each
/// carrying its concrete content - the command templates and the registered
/// shortcuts - so a fresh machine gets a working `br baidu`.
pub fn defaults() -> (r: Vec<AliasDef>)
    ensures
        alias_views(r@) == default_views(),
{
    let mut br_shortcuts = ShortcutMap::new();
    br_shortcuts.insert(owned("baidu"), owned("https://www.baidu.com"));
    br_shortcuts.insert(owned("gm"), owned("https://mail.google.com"));
    let br = AliasDef {
        name: owned("br"),
        triggers: Vec::new(),
        linux: Some(owned("xdg-open {input} >/dev/null 2>&1 &")),
        macos: Some(owned("open {input} >/dev/null 2>&1 &")),
        shortcuts: br_shortcuts,
    };
    let cd = AliasDef {
        name: owned("cd"),
        triggers: Vec::new(),
        linux: Some(owned(crate::clipboard::TEMPLATE)),
        macos: Some(owned(crate::clipboard::TEMPLATE)),
        shortcuts: ShortcutMap::new(),
    };
    let app = crate::launch::default_def();
    let r = vec![br, cd, app];
    assert(views(r@[0].triggers@) =~= Seq::<Seq<char>>::empty());
    assert(views(r@[1].triggers@) =~= Seq::<Seq<char>>::empty());
    assert(alias_views(r@) =~= default_views());
    r
}

/// Refusal for deleting a seeded alias.
pub const BUILTIN_DELETE: &'static str = "builtin alias cannot be deleted (override with :add)";

/// Some seeded alias is named `name`.
pub open spec fn default_name(name: Seq<char>) -> bool {
    exists|i: int| 0 <= i < default_views().len() && (#[trigger] default_views()[i]).name == name
}

/// Whether some seeded alias is named `name`.
pub fn is_default_name(name: &str) -> (r: bool)
    ensures
        r == default_name(name@),
{
    let defs = defaults();
    let n = defs.len();
    for i in 0..n
        invariant
            n == defs.len(),
            alias_views(defs@) == default_views(),
            forall|j: int| 0 <= j < i ==> (#[trigger] default_views()[j]).name != name@,
    {
        assert(default_views()[i as int] == defs@[i as int]@);
        if eq_str(defs[i].name.as_str(), name) {
            return true;
        }
    }
    false
}

// ----------------------------------------------------------------------
// Resolution and labels
// ----------------------------------------------------------------------

/// `d` answers to `tok`: its name or one of its triggers, Unicode
/// lower-cased, equals the lower-cased token.
pub open spec fn answers(d: AliasView, tok: Seq<char>) -> bool {
    ||| unicode_lower(d.name) == unicode_lower(tok)
    ||| exists|j: int|
        0 <= j < d.triggers.len() && unicode_lower(#[trigger] d.triggers[j]) == unicode_lower(tok)
}

/// Position `i` answers to `tok`.
pub open spec fn answers_at(v: Seq<AliasView>, tok: Seq<char>) -> spec_fn(int) -> bool {
    |i: int| answers(v[i], tok)
}

/// The first alias answering to `tok`.
pub open spec fn resolved(v: Seq<AliasView>, tok: Seq<char>) -> Option<int> {
    first_where(v.len() as int, answers_at(v, tok))
}

/// Whether `d` answers to the token whose lower-cased form is `low`.
fn answers_exec(d: &AliasDef, tok: &str, low: &str) -> (r: bool)
    requires
        low@ == unicode_lower(tok@),
    ensures
        r == answers(d@, tok@),
{
    let n = to_lowercase(d.name.as_str());
    if eq_str(n.as_str(), low) {
        return true;
    }
    let k = d.triggers.len();
    for j in 0..k
        invariant
            k == d.triggers.len(),
            low@ == unicode_lower(tok@),
            unicode_lower(d.name@) != unicode_lower(tok@),
            forall|l: int| 0 <= l < j ==> unicode_lower(#[trigger] d@.triggers[l]) != unicode_lower(tok@),
    {
        let t = to_lowercase(d.triggers[j].as_str());
        if eq_str(t.as_str(), low) {
            assert(unicode_lower(d@.triggers[j as int]) == unicode_lower(tok@));
            return true;
        }
    }
    false
}

/// Index of the first definition answering to `token` (case-insensitive,
/// name or trigger).
pub fn resolve_index(defs: &[AliasDef], token: &str) -> (r: Option<usize>)
    ensures
        r matches Some(i) ==> resolved(alias_views(defs@), token@) == Some(i as int),
        r is None ==> resolved(alias_views(defs@), token@) is None,
{
    let low = to_lowercase(token);
    let n = defs.len();
    let ghost v = alias_views(defs@);
    for i in 0..n
        invariant
            n == defs@.len(),
            v == alias_views(defs@),
            low@ == unicode_lower(token@),
            forall|j: int| 0 <= j < i ==> !#[trigger] answers_at(v, token@)(j),
    {
        if answers_exec(&defs[i], token, low.as_str()) {
            proof {
                lemma_first_found(n as int, answers_at(v, token@), i as int);
            }
            return Some(i);
        }
    }
    proof {
        lemma_first_none(n as int, answers_at(v, token@));
    }
    None
}

/// Resolve a token (full name or trigger) to a definition, case-insensitively.
pub fn resolve<'a>(defs: &'a [AliasDef], token: &str) -> (r: Option<&'a AliasDef>)
    ensures
        r is Some <==> resolved(alias_views(defs@), token@) is Some,
        r matches Some(d) ==> *d == defs@[resolved(alias_views(defs@), token@)->0],
{
    match resolve_index(defs, token) {
        Some(i) => Some(&defs[i]),
        None => None,
    }
}

/// `name (t1, t2)`, or just the name when there is no trigger.
pub open spec fn label_of(d: AliasView) -> Seq<char> {
    if d.triggers.len() == 0 {
        d.name
    } else {
        d.name + " ("@ + join(d.triggers, ", "@) + ")"@
    }
}

/// Human label such as `t (tt)`; just the name when no trigger exists.
pub fn label(def: &AliasDef) -> (r: String)
    ensures
        r@ == label_of(def@),
{
    if def.triggers.len() == 0 {
        def.name.clone()
    } else {
        let joined = join_strings(&def.triggers, ", ");
        cat4(def.name.as_str(), " (", joined.as_str(), ")")
    }
}

/// The first trigger, or the name.
pub open spec fn entry_label_of(d: AliasView) -> Seq<char> {
    if d.triggers.len() > 0 {
        d.triggers[0]
    } else {
        d.name
    }
}

/// First trigger, or the name; used when rendering history entries.
pub fn entry_label(def: &AliasDef) -> (r: &str)
    ensures
        r@ == entry_label_of(def@),
{
    if def.triggers.len() > 0 {
        def.triggers[0].as_str()
    } else {
        def.name.as_str()
    }
}

/// A char allowed in names, triggers and shortcut keys.
pub open spec fn ident_char(c: char) -> bool {
    is_alnum(c) || c == '-' || c == '_'
}

/// Non-empty, and only ASCII letters, digits, `-` and `_`.
pub open spec fn ident(s: Seq<char>) -> bool {
    s.len() > 0 && forall|i: int| 0 <= i < s.len() ==> ident_char(#[trigger] s[i])
}

/// A valid alias name, trigger, or shortcut key: non-empty ASCII letters,
/// digits, `-` and `_` (no spaces - the run path splits on whitespace).
pub fn valid_ident(s: &str) -> (r: bool)
    ensures
        r == ident(s@),
{
    let v = chars_of(s);
    if v.len() == 0 {
        return false;
    }
    let n = v.len();
    for i in 0..n
        invariant
            n == v.len(),
            v@ == s@,
            forall|j: int| 0 <= j < i ==> ident_char(#[trigger] s@[j]),
    {
        let c = v[i];
        if !(is_ascii_alnum(c) || c == '-' || c == '_') {
            assert(!ident_char(s@[i as int]));
            return false;
        }
    }
    true
}

// ----------------------------------------------------------------------
// Lookup by exact name
// ----------------------------------------------------------------------

/// Position `i` carries exactly `name`.
pub open spec fn name_is(v: Seq<AliasView>, name: Seq<char>) -> spec_fn(int) -> bool {
    |i: int| v[i].name == name
}

/// The first alias named exactly `name`.
pub open spec fn named(v: Seq<AliasView>, name: Seq<char>) -> Option<int> {
    first_where(v.len() as int, name_is(v, name))
}

/// Index of the first alias named exactly `name`.
pub fn find_named(user: &Vec<AliasDef>, name: &str) -> (r: Option<usize>)
    ensures
        r matches Some(i) ==> named(alias_views(user@), name@) == Some(i as int),
        r is None ==> named(alias_views(user@), name@) is None,
{
    let n = user.len();
    let ghost v = alias_views(user@);
    for i in 0..n
        invariant
            n == user@.len(),
            v == alias_views(user@),
            forall|j: int| 0 <= j < i ==> !#[trigger] name_is(v, name@)(j),
    {
        if eq_str(user[i].name.as_str(), name) {
            proof {
                lemma_first_found(n as int, name_is(v, name@), i as int);
            }
            return Some(i);
        }
    }
    proof {
        lemma_first_none(n as int, name_is(v, name@));
    }
    None
}

/// `alias not found: <name>`.
pub open spec fn not_found_msg(name: Seq<char>) -> Seq<char> {
    "alias not found: "@ + name
}

/// `d` with its shortcut table replaced.
pub open spec fn with_shortcuts(d: AliasView, m: Map<Seq<char>, Seq<char>>) -> AliasView {
    AliasView { name: d.name, triggers: d.triggers, linux: d.linux, macos: d.macos, shortcuts: m }
}

/// `d` with its trigger list replaced.
pub open spec fn with_triggers(d: AliasView, t: Seq<Seq<char>>) -> AliasView {
    AliasView { name: d.name, triggers: t, linux: d.linux, macos: d.macos, shortcuts: d.shortcuts }
}

/// `d` with `platform`'s command replaced.
pub open spec fn with_command(d: AliasView, platform: Platform, c: Seq<char>) -> AliasView {
    match platform {
        Platform::Linux => AliasView {
            name: d.name,
            triggers: d.triggers,
            linux: Some(c),
            macos: d.macos,
            shortcuts: d.shortcuts,
        },
        Platform::Macos => AliasView {
            name: d.name,
            triggers: d.triggers,
            linux: d.linux,
            macos: Some(c),
            shortcuts: d.shortcuts,
        },
    }
}

// ----------------------------------------------------------------------
// Shortcut mutation
// ----------------------------------------------------------------------

/// Set (or replace) shortcut `key` on alias `name` in the persisted alias
/// list. Only `user` is searched: an unknown name is an error. Returns the
/// previous value when the key already existed.
pub fn set_shortcut(user: &mut Vec<AliasDef>, name: &str, key: &str, value: &str) -> (r: Result<
    Option<String>,
    String,
>)
    ensures
        match named(alias_views(old(user)@), name@) {
            None => {
                &&& err_msg(r, not_found_msg(name@))
                &&& alias_views(final(user)@) == alias_views(old(user)@)
            },
            Some(i) => {
                let d = alias_views(old(user)@)[i];
                &&& r matches Ok(prev) && (prev is Some <==> d.shortcuts.dom().contains(key@)) && (
                prev matches Some(p) ==> p@ == d.shortcuts[key@])
                &&& alias_views(final(user)@) == alias_views(old(user)@).update(
                    i,
                    with_shortcuts(d, d.shortcuts.insert(key@, value@)),
                )
            },
        },
{
    match find_named(user, name) {
        None => Err(cat2("alias not found: ", name)),
        Some(i) => {
            let ghost before = alias_views(user@);
            let prev = user[i].shortcuts.insert(owned(key), owned(value));
            proof {
                assert(alias_views(user@) =~= before.update(
                    i as int,
                    with_shortcuts(before[i as int], before[i as int].shortcuts.insert(key@, value@)),
                ));
            }
            Ok(prev)
        },
    }
}

/// `no shortcut "<key>" on <name>`.
pub open spec fn no_shortcut_msg(key: Seq<char>, name: Seq<char>) -> Seq<char> {
    "no shortcut \""@ + key + "\" on "@ + name
}

/// Remove shortcut `key` from user alias `name`. `Err` when the alias is
/// unknown or does not carry that key.
pub fn remove_shortcut(user: &mut Vec<AliasDef>, name: &str, key: &str) -> (r: Result<(), String>)
    ensures
        match named(alias_views(old(user)@), name@) {
            None => {
                &&& err_msg(r, not_found_msg(name@))
                &&& alias_views(final(user)@) == alias_views(old(user)@)
            },
            Some(i) => {
                let d = alias_views(old(user)@)[i];
                if d.shortcuts.dom().contains(key@) {
                    &&& r is Ok
                    &&& alias_views(final(user)@) == alias_views(old(user)@).update(
                        i,
                        with_shortcuts(d, d.shortcuts.remove(key@)),
                    )
                } else {
                    &&& err_msg(r, no_shortcut_msg(key@, name@))
                    &&& alias_views(final(user)@) == alias_views(old(user)@)
                }
            },
        },
{
    match find_named(user, name) {
        None => Err(cat2("alias not found: ", name)),
        Some(i) => {
            let ghost before = alias_views(user@);
            if user[i].shortcuts.contains_key(key) {
                user[i].shortcuts.remove(key);
                proof {
                    assert(alias_views(user@) =~= before.update(
                        i as int,
                        with_shortcuts(before[i as int], before[i as int].shortcuts.remove(key@)),
                    ));
                }
                Ok(())
            } else {
                Err(cat4("no shortcut \"", key, "\" on ", name))
            }
        },
    }
}

/// Edit shortcut `old_key` of alias `name` in the persisted list: drop
/// `old_key` when the key changed, then insert `(key, value)` with the same
/// replace semantics as [`set_shortcut`]. An unknown alias, or one that does
/// not carry `old_key`, is an error and leaves the list untouched.
pub fn edit_shortcut(
    user: &mut Vec<AliasDef>,
    name: &str,
    old_key: &str,
    key: &str,
    value: &str,
) -> (r: Result<(), String>)
    ensures
        match named(alias_views(old(user)@), name@) {
            None => {
                &&& err_msg(r, not_found_msg(name@))
                &&& alias_views(final(user)@) == alias_views(old(user)@)
            },
            Some(i) => {
                let d = alias_views(old(user)@)[i];
                if d.shortcuts.dom().contains(old_key@) {
                    &&& r is Ok
                    &&& alias_views(final(user)@) == alias_views(old(user)@).update(
                        i,
                        with_shortcuts(
                            d,
                            (if old_key@ != key@ {
                                d.shortcuts.remove(old_key@)
                            } else {
                                d.shortcuts
                            }).insert(key@, value@),
                        ),
                    )
                } else {
                    &&& err_msg(r, no_shortcut_msg(old_key@, name@))
                    &&& alias_views(final(user)@) == alias_views(old(user)@)
                }
            },
        },
{
    match find_named(user, name) {
        None => Err(cat2("alias not found: ", name)),
        Some(i) => {
            let ghost before = alias_views(user@);
            if !user[i].shortcuts.contains_key(old_key) {
                return Err(cat4("no shortcut \"", old_key, "\" on ", name));
            }
            let changed = !eq_str(old_key, key);
            if changed {
                user[i].shortcuts.remove(old_key);
            }
            user[i].shortcuts.insert(owned(key), owned(value));
            proof {
                let d = before[i as int];
                let m = (if old_key@ != key@ {
                    d.shortcuts.remove(old_key@)
                } else {
                    d.shortcuts
                }).insert(key@, value@);
                assert(alias_views(user@) =~= before.update(i as int, with_shortcuts(d, m)));
            }
            Ok(())
        },
    }
}

// ----------------------------------------------------------------------
// Trigger mutation
// ----------------------------------------------------------------------

/// `invalid trigger: <word>`.
pub open spec fn invalid_trigger_msg(w: Seq<char>) -> Seq<char> {
    "invalid trigger: "@ + w
}

/// `trigger "<word>" already used by <name>`.
pub open spec fn taken_msg(w: Seq<char>, owner: Seq<char>) -> Seq<char> {
    "trigger \""@ + w + "\" already used by "@ + owner
}

/// Append trigger `trigger` to alias `name` in the persisted alias list.
///
/// The alias must exist in `user`; the trigger must be a [`valid_ident`] and
/// must not already resolve to a *different* alias in that list
/// (case-insensitively). `Ok(true)` when appended, `Ok(false)` when this
/// alias already answers to that word, `Err` on an unknown alias or a
/// malformed/taken word. An error leaves `user` untouched.
pub fn add_trigger(user: &mut Vec<AliasDef>, name: &str, trigger: &str) -> (r: Result<bool, String>)
    ensures
        !ident(trigger@) ==> err_msg(r, invalid_trigger_msg(trigger@)),
        ident(trigger@) && named(alias_views(old(user)@), name@) is None ==> err_msg(r, not_found_msg(name@)),
        ident(trigger@) && named(alias_views(old(user)@), name@) is Some ==> match resolved(
            alias_views(old(user)@),
            trigger@,
        ) {
            Some(j) => {
                let owner = alias_views(old(user)@)[j].name;
                if eq_fold(owner, name@) {
                    r == Ok::<bool, String>(false)
                } else {
                    err_msg(r, taken_msg(trigger@, owner))
                }
            },
            None => r == Ok::<bool, String>(true),
        },
        r == Ok::<bool, String>(true) ==> ({
            let i = named(alias_views(old(user)@), name@)->0;
            let d = alias_views(old(user)@)[i];
            alias_views(final(user)@) == alias_views(old(user)@).update(
                i,
                with_triggers(d, d.triggers.push(trigger@)),
            )
        }),
        r != Ok::<bool, String>(true) ==> alias_views(final(user)@) == alias_views(old(user)@),
{
    if !valid_ident(trigger) {
        return Err(cat2("invalid trigger: ", trigger));
    }
    let idx = match find_named(user, name) {
        Some(i) => i,
        None => {
            return Err(cat2("alias not found: ", name));
        },
    };
    match resolve_index(user.as_slice(), trigger) {
        Some(j) => {
            if eq_ignore_case(user[j].name.as_str(), name) {
                Ok(false)
            } else {
                Err(cat4("trigger \"", trigger, "\" already used by ", user[j].name.as_str()))
            }
        },
        None => {
            let ghost before = alias_views(user@);
            user[idx].triggers.push(owned(trigger));
            proof {
                let d = before[idx as int];
                assert(views(user@[idx as int].triggers@) =~= d.triggers.push(trigger@));
                assert(alias_views(user@) =~= before.update(
                    idx as int,
                    with_triggers(d, d.triggers.push(trigger@)),
                ));
            }
            Ok(true)
        },
    }
}

/// Position `k` of `ts` folds to `w`.
pub open spec fn folds_at(ts: Seq<Seq<char>>, w: Seq<char>) -> spec_fn(int) -> bool {
    |k: int| eq_fold(ts[k], w)
}

/// The first trigger equal to `w` up to ASCII case.
pub open spec fn trigger_pos(ts: Seq<Seq<char>>, w: Seq<char>) -> Option<int> {
    first_where(ts.len() as int, folds_at(ts, w))
}

/// Index of the first word of `ts` equal to `w` up to ASCII case.
fn find_folded(ts: &Vec<String>, w: &str) -> (r: Option<usize>)
    ensures
        r matches Some(k) ==> trigger_pos(views(ts@), w@) == Some(k as int),
        r is None ==> trigger_pos(views(ts@), w@) is None,
{
    let n = ts.len();
    let ghost v = views(ts@);
    for k in 0..n
        invariant
            n == ts@.len(),
            v == views(ts@),
            forall|l: int| 0 <= l < k ==> !#[trigger] folds_at(v, w@)(l),
    {
        if eq_ignore_case(ts[k].as_str(), w) {
            proof {
                lemma_first_found(n as int, folds_at(v, w@), k as int);
            }
            return Some(k);
        }
    }
    proof {
        lemma_first_none(n as int, folds_at(v, w@));
    }
    None
}

/// Remove trigger `trigger` from alias `name` in the persisted list,
/// case-insensitively: the first matching word goes. An unknown alias or an
/// alias without that trigger reports `Ok(false)`.
pub fn remove_trigger(user: &mut Vec<AliasDef>, name: &str, trigger: &str) -> (r: Result<bool, String>)
    ensures
        match named(alias_views(old(user)@), name@) {
            None => r == Ok::<bool, String>(false) && alias_views(final(user)@) == alias_views(
                old(user)@,
            ),
            Some(i) => {
                let d = alias_views(old(user)@)[i];
                match trigger_pos(d.triggers, trigger@) {
                    None => r == Ok::<bool, String>(false) && alias_views(final(user)@)
                        == alias_views(old(user)@),
                    Some(k) => r == Ok::<bool, String>(true) && alias_views(final(user)@)
                        == alias_views(old(user)@).update(
                        i,
                        with_triggers(d, d.triggers.remove(k)),
                    ),
                }
            },
        },
{
    match find_named(user, name) {
        None => Ok(false),
        Some(i) => {
            match find_folded(&user[i].triggers, trigger) {
                None => Ok(false),
                Some(k) => {
                    let ghost before = alias_views(user@);
                    let ghost old_ts = user@[i as int].triggers@;
                    user[i].triggers.remove(k);
                    proof {
                        let d = before[i as int];
                        assert(views(user@[i as int].triggers@) =~= d.triggers.remove(k as int));
                        assert(alias_views(user@) =~= before.update(
                            i as int,
                            with_triggers(d, d.triggers.remove(k as int)),
                        ));
                    }
                    Ok(true)
                },
            }
        },
    }
}

/// `d` claims word `w`: its name or one of its triggers equals `w` up to
/// ASCII case.
pub open spec fn claims(d: AliasView, w: Seq<char>) -> bool {
    eq_fold(d.name, w) || exists|k: int| 0 <= k < d.triggers.len() && eq_fold(#[trigger] d.triggers[k], w)
}

/// Position `j` is an alias other than `i` claiming `w`.
pub open spec fn other_claims(v: Seq<AliasView>, i: int, w: Seq<char>) -> spec_fn(int) -> bool {
    |j: int| j != i && claims(v[j], w)
}

/// Whether `d` claims `w`.
fn claims_exec(d: &AliasDef, w: &str) -> (r: bool)
    ensures
        r == claims(d@, w@),
{
    if eq_ignore_case(d.name.as_str(), w) {
        return true;
    }
    match find_folded(&d.triggers, w) {
        Some(k) => {
            proof {
                lemma_first_some(d@.triggers.len() as int, folds_at(d@.triggers, w@));
            }
            true
        },
        None => {
            proof {
                assert forall|k: int| 0 <= k < d@.triggers.len() implies !eq_fold(
                    #[trigger] d@.triggers[k],
                    w@,
                ) by {
                    if eq_fold(d@.triggers[k], w@) {
                        assert(folds_at(d@.triggers, w@)(k));
                        assert(first_where(d@.triggers.len() as int, folds_at(d@.triggers, w@))
                            is Some) by {
                            let p = folds_at(d@.triggers, w@);
                            let n = d@.triggers.len() as int;
                            // the least claiming position exists
                            lemma_least(n, p, k);
                        }
                    }
                }
            }
            false
        },
    }
}

/// A predicate that holds somewhere has a first position.
proof fn lemma_least(n: int, p: spec_fn(int) -> bool, k: int)
    requires
        0 <= k < n,
        p(k),
    ensures
        first_where(n, p) is Some,
    decreases k,
{
    if exists|j: int| 0 <= j < k && #[trigger] p(j) {
        let j = choose|j: int| 0 <= j < k && #[trigger] p(j);
        lemma_least(n, p, j);
    } else {
        lemma_first_found(n, p, k);
    }
}

/// `trigger not found on <name>: <old>`.
pub open spec fn trigger_missing_msg(name: Seq<char>, w: Seq<char>) -> Seq<char> {
    "trigger not found on "@ + name + ": "@ + w
}

/// `trigger already on <name>: <new>`.
pub open spec fn trigger_dup_msg(name: Seq<char>, w: Seq<char>) -> Seq<char> {
    "trigger already on "@ + name + ": "@ + w
}

/// Some trigger of `ts` other than position `pos` equals `w` up to case.
pub open spec fn dup_elsewhere(ts: Seq<Seq<char>>, pos: int, w: Seq<char>) -> bool {
    exists|k: int| 0 <= k < ts.len() && k != pos && eq_fold(#[trigger] ts[k], w)
}

/// Rename trigger `from` to `to` on alias `name`, in place and preserving
/// order.
///
/// `to == from` is a no-op. Otherwise `to` must be a [`valid_ident`], must
/// not collide with another alias (name or trigger, case-insensitively) and
/// must not duplicate another trigger on the same alias - the word is
/// replaced, never dropped. Every error leaves `user` untouched.
#[verifier::loop_isolation(false)]
pub fn rename_trigger(user: &mut Vec<AliasDef>, name: &str, from: &str, to: &str) -> (r: Result<
    (),
    String,
>)
    ensures
        r is Err ==> alias_views(final(user)@) == alias_views(old(user)@),
        from@ == to@ ==> r is Ok && alias_views(final(user)@) == alias_views(old(user)@),
        from@ != to@ && !ident(to@) ==> err_msg(r, invalid_trigger_msg(to@)),
        from@ != to@ && ident(to@) && named(alias_views(old(user)@), name@) is None ==> err_msg(r, not_found_msg(name@)),
        from@ != to@ && ident(to@) && named(alias_views(old(user)@), name@) is Some ==> ({
            let v = alias_views(old(user)@);
            let i = named(v, name@)->0;
            let d = v[i];
            match trigger_pos(d.triggers, from@) {
                None => err_msg(r, trigger_missing_msg(name@, from@)),
                Some(pos) => match first_where(v.len() as int, other_claims(v, i, to@)) {
                    Some(j) => err_msg(r, taken_msg(to@, v[j].name)),
                    None => if dup_elsewhere(d.triggers, pos, to@) {
                        err_msg(r, trigger_dup_msg(name@, to@))
                    } else {
                        r is Ok && alias_views(final(user)@) == v.update(
                            i,
                            with_triggers(d, d.triggers.update(pos, to@)),
                        )
                    },
                },
            }
        }),
{
    if eq_str(to, from) {
        return Ok(());
    }
    if !valid_ident(to) {
        return Err(cat2("invalid trigger: ", to));
    }
    let idx = match find_named(user, name) {
        Some(i) => i,
        None => {
            return Err(cat2("alias not found: ", name));
        },
    };
    let pos = match find_folded(&user[idx].triggers, from) {
        Some(p) => p,
        None => {
            return Err(cat4("trigger not found on ", name, ": ", from));
        },
    };
    let ghost v = alias_views(user@);
    let n = user.len();
    for j in 0..n
        invariant
            n == user@.len(),
            v == alias_views(user@),
            idx < n,
            forall|l: int| 0 <= l < j ==> !#[trigger] other_claims(v, idx as int, to@)(l),
    {
        if j != idx && claims_exec(&user[j], to) {
            proof {
                lemma_first_found(n as int, other_claims(v, idx as int, to@), j as int);
            }
            return Err(cat4("trigger \"", to, "\" already used by ", user[j].name.as_str()));
        }
    }
    proof {
        lemma_first_none(n as int, other_claims(v, idx as int, to@));
    }
    let k = user[idx].triggers.len();
    for t in 0..k
        invariant
            k == user@[idx as int].triggers.len(),
            v == alias_views(user@),
            idx < user@.len(),
            forall|l: int| 0 <= l < t && l != pos ==> !eq_fold(#[trigger] v[idx as int].triggers[l], to@),
    {
        if t != pos && eq_ignore_case(user[idx].triggers[t].as_str(), to) {
            proof {
                assert(eq_fold(v[idx as int].triggers[t as int], to@));
            }
            return Err(cat4("trigger already on ", name, ": ", to));
        }
    }
    let ghost before = alias_views(user@);
    let mut ts = clone_strings(&user[idx].triggers);
    ts.remove(pos);
    ts.insert(pos, owned(to));
    user[idx].triggers = ts;
    proof {
        let d = before[idx as int];
        assert(views(user@[idx as int].triggers@) =~= d.triggers.update(pos as int, to@));
        assert(alias_views(user@) =~= before.update(
            idx as int,
            with_triggers(d, d.triggers.update(pos as int, to@)),
        ));
    }
    Ok(())
}

// ----------------------------------------------------------------------
// Platform commands
// ----------------------------------------------------------------------

/// The command stored for `platform`, unless missing or blank.
pub open spec fn platform_command_of(d: AliasView, platform: Platform) -> Option<Seq<char>> {
    let c = match platform {
        Platform::Linux => d.linux,
        Platform::Macos => d.macos,
    };
    match c {
        Some(s) => if blank(s) {
            None
        } else {
            Some(s)
        },
        None => None,
    }
}

/// The command stored for `platform`, if any. `None` and whitespace-only
/// both count as "not configured for this platform".
pub fn platform_command(def: &AliasDef, platform: Platform) -> (r: Option<&str>)
    ensures
        match platform_command_of(def@, platform) {
            Some(c) => r matches Some(s) && s@ == c,
            None => r is None,
        },
{
    let command = match platform {
        Platform::Linux => &def.linux,
        Platform::Macos => &def.macos,
    };
    match command {
        Some(c) => if is_blank(c.as_str()) {
            None
        } else {
            Some(c.as_str())
        },
        None => None,
    }
}

/// Set only `platform`'s command of alias `name` to `Some(command)`; the
/// other platform's field is left untouched. `Err` only when the alias is
/// unknown.
pub fn set_command(user: &mut Vec<AliasDef>, name: &str, platform: Platform, command: &str) -> (r:
    Result<(), String>)
    ensures
        match named(alias_views(old(user)@), name@) {
            None => {
                &&& err_msg(r, not_found_msg(name@))
                &&& alias_views(final(user)@) == alias_views(old(user)@)
            },
            Some(i) => {
                &&& r is Ok
                &&& alias_views(final(user)@) == alias_views(old(user)@).update(
                    i,
                    with_command(alias_views(old(user)@)[i], platform, command@),
                )
            },
        },
{
    match find_named(user, name) {
        None => Err(cat2("alias not found: ", name)),
        Some(i) => {
            let ghost before = alias_views(user@);
            match platform {
                Platform::Linux => {
                    user[i].linux = Some(owned(command));
                },
                Platform::Macos => {
                    user[i].macos = Some(owned(command));
                },
            }
            proof {
                assert(alias_views(user@) =~= before.update(
                    i as int,
                    with_command(before[i as int], platform, command@),
                ));
            }
            Ok(())
        },
    }
}

} // verus!
