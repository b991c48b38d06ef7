//! Colon (`:`) command parsing: `:add`, `:del`, `:arg`/`:shortcut`,
//! `:unarg`/`:unshortcut`, and `:import-chrome`.
//!
//! The caller strips the leading `:` before handing the line over; [`parse`]
//! trims it itself and returns `Ok(None)` for `help`, empty input, and
//! unknown sub-commands so the caller can show its usage block.

use vstd::prelude::*;

use crate::alias::{ident, valid_ident, AliasDef, AliasView};
use crate::search::{first_where, lemma_first_found, lemma_first_none};
use crate::shortcuts::ShortcutMap;
use crate::text::{
    cat2, chars_of, eq_str, join, join_strings, owned, string_of, to_lowercase, trim, trim_seq,
    unicode_lower, views,
};
use crate::words::{spans, spans_of, split_char, split_on, words, words_of, int_spans, spans_in};

verus! {

/// A mutation requested through a `:` command.
#[derive(Debug, Clone, PartialEq)]
pub enum AliasOp {
    Add(AliasDef),
    Remove(String),
    /// `:arg` / `:shortcut name key value...`: set (or replace) a shortcut.
    SetShortcut { name: String, key: String, value: String },
    /// `:unarg` / `:unshortcut name key`: remove a shortcut.
    DelShortcut { name: String, key: String },
    /// `:import-chrome [alias]`: import this machine's Chrome bookmarks as
    /// shortcut rows on the target alias (`br` when omitted).
    ImportChrome { target: Option<String> },
}

/// A colon request as plain values.
pub enum OpModel {
    Add(AliasView),
    Remove(Seq<char>),
    SetShortcut { name: Seq<char>, key: Seq<char>, value: Seq<char> },
    DelShortcut { name: Seq<char>, key: Seq<char> },
    ImportChrome { target: Option<Seq<char>> },
}

impl View for AliasOp {
    type V = OpModel;

    open spec fn view(&self) -> OpModel {
        match self {
            AliasOp::Add(d) => OpModel::Add(d@),
            AliasOp::Remove(n) => OpModel::Remove(n@),
            AliasOp::SetShortcut { name, key, value } => OpModel::SetShortcut {
                name: name@,
                key: key@,
                value: value@,
            },
            AliasOp::DelShortcut { name, key } => OpModel::DelShortcut { name: name@, key: key@ },
            AliasOp::ImportChrome { target } => OpModel::ImportChrome {
                target: crate::alias::opt_view(*target),
            },
        }
    }
}

pub const ADD_USAGE: &'static str = "usage: add <name>[,<trigger>...] <linux-cmd> // <macos-cmd>";

pub const DEL_USAGE: &'static str = "usage: del <name>";

pub const ARG_USAGE: &'static str = "usage: arg <name> <key> <value...>";

pub const UNARG_USAGE: &'static str = "usage: unarg <name> <key>";

pub const IMPORT_USAGE: &'static str = "usage: import-chrome [alias]";

pub const TOO_MANY_SEPS: &'static str = "too many // separators";

pub const NO_COMMAND: &'static str = "no command given ('-' skips one platform, not both)";

pub const EMPTY_NAME: &'static str = "alias name cannot be empty";

/// What a parse gives: an error message, nothing (help / unknown), or a
/// request.
pub type Parsed = Result<Option<OpModel>, Seq<char>>;

/// `-` (or an empty side) means the platform has no command configured.
pub open spec fn cmd_or_none(joined: Seq<char>) -> Option<Seq<char>> {
    let t = trim_seq(joined);
    if t.len() == 0 || t == "-"@ {
        None
    } else {
        Some(t)
    }
}

/// Piece `i + 1` of a name list is no valid trigger.
pub open spec fn bad_trigger_at(parts: Seq<Seq<char>>) -> spec_fn(int) -> bool {
    |i: int| parts[i + 1].len() == 0 || !ident(parts[i + 1])
}

/// `name[,trigger...]`: the name and its triggers, or why they are invalid.
pub open spec fn name_list(raw: Seq<char>) -> Result<(Seq<char>, Seq<Seq<char>>), Seq<char>> {
    let parts = split_on(raw, ',');
    let name = parts[0];
    if name.len() == 0 {
        Err(EMPTY_NAME@)
    } else if !ident(name) {
        Err("invalid alias name: "@ + name)
    } else {
        match first_where(parts.len() - 1, bad_trigger_at(parts)) {
            Some(i) => Err("invalid trigger: "@ + parts[i + 1]),
            None => Ok((name, parts.drop_first())),
        }
    }
}

/// Word `i` is the platform separator `//`.
pub open spec fn sep_at(ws: Seq<Seq<char>>) -> spec_fn(int) -> bool {
    |i: int| ws[i] == "//"@
}

/// How many words are the separator `//`.
pub open spec fn sep_count(ws: Seq<Seq<char>>) -> nat
    decreases ws.len(),
{
    if ws.len() == 0 {
        0
    } else {
        sep_count(ws.drop_last()) + if ws.last() == "//"@ {
            1nat
        } else {
            0nat
        }
    }
}

/// The (linux, macos) commands of `add`'s command words.
pub open spec fn commands_of(cmd: Seq<Seq<char>>) -> (Option<Seq<char>>, Option<Seq<char>>) {
    match first_where(cmd.len() as int, sep_at(cmd)) {
        Some(i) => (
            cmd_or_none(join(cmd.take(i), " "@)),
            cmd_or_none(join(cmd.skip(i + 1), " "@)),
        ),
        None => (cmd_or_none(join(cmd, " "@)), None),
    }
}

/// `add <name>[,<trigger>...] <linux-cmd> [// <macos-cmd>]`.
pub open spec fn add_parsed(args: Seq<Seq<char>>) -> Parsed {
    if args.len() == 0 {
        Err(ADD_USAGE@)
    } else {
        match name_list(args[0]) {
            Err(e) => Err(e),
            Ok(nl) => {
                let cmd = args.drop_first();
                if sep_count(cmd) > 1 {
                    Err(TOO_MANY_SEPS@)
                } else {
                    let (linux, macos) = commands_of(cmd);
                    if linux is None && macos is None {
                        Err(NO_COMMAND@)
                    } else {
                        Ok(
                            Some(
                                OpModel::Add(
                                    AliasView {
                                        name: nl.0,
                                        triggers: nl.1,
                                        linux,
                                        macos,
                                        shortcuts: Map::empty(),
                                    },
                                ),
                            ),
                        )
                    }
                }
            },
        }
    }
}

/// `arg <name> <key> <value...>`: the value is the raw remainder of the line
/// after the key word, so inner spacing survives.
pub open spec fn set_parsed(rest: Seq<char>) -> Parsed {
    let sp = spans(rest);
    if sp.len() < 3 {
        Err(ARG_USAGE@)
    } else {
        Ok(
            Some(
                OpModel::SetShortcut {
                    name: words(rest)[0],
                    key: words(rest)[1],
                    value: trim_seq(rest.subrange(sp[2].0, rest.len() as int)),
                },
            ),
        )
    }
}

/// The line after the first word and the one separating char. The first
/// word is dropped by byte length, so a separator that is not a one-byte
/// (ASCII) char, or a line that is only the word, leaves nothing.
pub open spec fn after_head(t: Seq<char>, n: int) -> Seq<char> {
    if n < t.len() && (t[n] as u32) < 128 {
        t.subrange(n + 1, t.len() as int)
    } else {
        Seq::empty()
    }
}

/// What `parse` makes of a line.
pub open spec fn colon_parsed(line: Seq<char>) -> Parsed {
    let t = trim_seq(line);
    let ws = words(t);
    if ws.len() == 0 {
        Ok(None)
    } else {
        let kw = unicode_lower(ws[0]);
        let args = ws.drop_first();
        if kw == "add"@ {
            add_parsed(args)
        } else if kw == "del"@ {
            if args.len() != 1 {
                Err(DEL_USAGE@)
            } else {
                Ok(Some(OpModel::Remove(args[0])))
            }
        } else if kw == "arg"@ || kw == "shortcut"@ {
            set_parsed(after_head(t, ws[0].len() as int))
        } else if kw == "unarg"@ || kw == "unshortcut"@ {
            if args.len() != 2 {
                Err(UNARG_USAGE@)
            } else {
                Ok(Some(OpModel::DelShortcut { name: args[0], key: args[1] }))
            }
        } else if kw == "import-chrome"@ {
            if args.len() == 0 {
                Ok(Some(OpModel::ImportChrome { target: None }))
            } else if args.len() == 1 && ident(args[0]) {
                Ok(Some(OpModel::ImportChrome { target: Some(args[0]) }))
            } else if args.len() == 1 {
                Err("invalid alias name: "@ + args[0])
            } else {
                Err(IMPORT_USAGE@)
            }
        } else {
            Ok(None)
        }
    }
}

/// `r` is the exec form of the parse result `m`.
pub open spec fn gives(r: Result<Option<AliasOp>, String>, m: Parsed) -> bool {
    match m {
        Ok(None) => r matches Ok(None),
        Ok(Some(op)) => r matches Ok(Some(o)) && o@ == op,
        Err(e) => r matches Err(x) && x@ == e,
    }
}

/// `-` (or an empty side) means the platform has no command configured.
fn cmd_or_none_exec(joined: &str) -> (r: Option<String>)
    ensures
        crate::alias::opt_view(r) == cmd_or_none(joined@),
{
    let t = trim(joined);
    if t.as_str().is_empty() || eq_str(t.as_str(), "-") {
        None
    } else {
        Some(t)
    }
}

/// Clones of `ws[lo..hi]`.
fn slice_words(ws: &Vec<String>, lo: usize, hi: usize) -> (r: Vec<String>)
    requires
        lo <= hi <= ws.len(),
    ensures
        views(r@) == views(ws@).subrange(lo as int, hi as int),
{
    let mut out: Vec<String> = Vec::new();
    let mut k = lo;
    while k < hi
        invariant
            lo <= k <= hi <= ws.len(),
            views(out@) == views(ws@).subrange(lo as int, k as int),
        decreases hi - k,
    {
        let ghost before = out@;
        out.push(ws[k].clone());
        assert(views(out@) =~= views(before).push(ws@[k as int]@));
        assert(views(ws@).subrange(lo as int, k + 1) =~= views(ws@).subrange(lo as int, k as int).push(
            ws@[k as int]@,
        ));
        k += 1;
    }
    out
}

/// The name list `raw` split into a name and its triggers.
fn parse_name_list(raw: &str) -> (r: Result<(String, Vec<String>), String>)
    ensures
        match name_list(raw@) {
            Ok(nl) => r matches Ok(p) && p.0@ == nl.0 && views(p.1@) == nl.1,
            Err(e) => r matches Err(x) && x@ == e,
        },
{
    let parts = split_char(raw, ',');
    let ghost ps = split_on(raw@, ',');
    assert(views(parts@) == ps);
    assert(ps[0] == parts@[0]@);
    let name = parts[0].clone();
    if name.as_str().is_empty() {
        return Err(owned(EMPTY_NAME));
    }
    if !valid_ident(name.as_str()) {
        return Err(cat2("invalid alias name: ", name.as_str()));
    }
    let n = parts.len();
    let mut i: usize = 1;
    while i < n
        invariant
            n == parts.len(),
            views(parts@) == ps,
            ps == split_on(raw@, ','),
            name@ == ps[0],
            ident(ps[0]),
            1 <= i <= n,
            forall|j: int| 0 <= j < i - 1 ==> !#[trigger] bad_trigger_at(ps)(j),
        decreases n - i,
    {
        let sc = parts[i].as_str();
        assert(ps[i as int] == parts@[i as int]@);
        if sc.is_empty() || !valid_ident(sc) {
            proof {
                assert(bad_trigger_at(ps)(i - 1));
                lemma_first_found(n - 1, bad_trigger_at(ps), i - 1);
            }
            let e = cat2("invalid trigger: ", sc);
            assert(first_where(ps.len() - 1, bad_trigger_at(ps)) == Some(i - 1));
            assert(sc@ == ps[i as int]);
            assert(e@ == "invalid trigger: "@ + ps[(i - 1) + 1]);
            assert(ps[0].len() != 0);
            assert(ident(ps[0]));
            assert(name_list(raw@) == Err::<(Seq<char>, Seq<Seq<char>>), Seq<char>>(e@));
            return Err(e);
        }
        i += 1;
    }
    proof {
        lemma_first_none(n - 1, bad_trigger_at(ps));
    }
    let triggers = slice_words(&parts, 1, n);
    assert(views(parts@).subrange(1, n as int) =~= ps.drop_first());
    Ok((name, triggers))
}

/// The platform commands of `add`'s command words, or the error for more
/// than one `//`.
fn split_commands(cmd: &Vec<String>) -> (r: Result<(Option<String>, Option<String>), String>)
    ensures
        sep_count(views(cmd@)) > 1 ==> (r matches Err(e) && e@ == TOO_MANY_SEPS@),
        sep_count(views(cmd@)) <= 1 ==> (r matches Ok(p) && (crate::alias::opt_view(p.0),
            crate::alias::opt_view(p.1)) == commands_of(views(cmd@))),
{
    let ghost c = views(cmd@);
    let n = cmd.len();
    let mut seps: usize = 0;
    let mut first: Option<usize> = None;
    for i in 0..n
        invariant
            n == cmd.len(),
            c == views(cmd@),
            seps == sep_count(c.take(i as int)),
            seps <= i,
            match first {
                Some(f) => f < i && sep_at(c)(f as int) && forall|j: int|
                    0 <= j < f ==> !#[trigger] sep_at(c)(j),
                None => forall|j: int| 0 <= j < i ==> !#[trigger] sep_at(c)(j),
            },
    {
        assert(c.take(i + 1).drop_last() =~= c.take(i as int));
        assert(c[i as int] == cmd@[i as int]@);
        if eq_str(cmd[i].as_str(), "//") {
            seps += 1;
            if first.is_none() {
                first = Some(i);
            }
        }
    }
    assert(c.take(n as int) =~= c);
    if seps > 1 {
        return Err(owned(TOO_MANY_SEPS));
    }
    match first {
        Some(f) => {
            proof {
                lemma_first_found(n as int, sep_at(c), f as int);
            }
            let before = slice_words(cmd, 0, f);
            let after = slice_words(cmd, f + 1, n);
            assert(c.subrange(0, f as int) =~= c.take(f as int));
            assert(c.subrange(f + 1, n as int) =~= c.skip(f + 1));
            let l = join_strings(&before, " ");
            let m = join_strings(&after, " ");
            Ok((cmd_or_none_exec(l.as_str()), cmd_or_none_exec(m.as_str())))
        },
        None => {
            proof {
                lemma_first_none(n as int, sep_at(c));
            }
            let l = join_strings(cmd, " ");
            Ok((cmd_or_none_exec(l.as_str()), None))
        },
    }
}

/// `add` from its argument words.
fn parse_add(args: &Vec<String>) -> (r: Result<Option<AliasOp>, String>)
    ensures
        gives(r, add_parsed(views(args@))),
{
    if args.len() == 0 {
        return Err(owned(ADD_USAGE));
    }
    let ghost a = views(args@);
    assert(a[0] == args@[0]@);
    let (name, triggers) = match parse_name_list(args[0].as_str()) {
        Ok(p) => p,
        Err(e) => {
            return Err(e);
        },
    };
    let cmd = slice_words(args, 1, args.len());
    assert(views(cmd@) =~= a.drop_first());
    let (linux, macos) = match split_commands(&cmd) {
        Ok(p) => p,
        Err(e) => {
            return Err(e);
        },
    };
    if linux.is_none() && macos.is_none() {
        return Err(owned(NO_COMMAND));
    }
    let def = AliasDef { name, triggers, linux, macos, shortcuts: ShortcutMap::new() };
    Ok(Some(AliasOp::Add(def)))
}

/// `arg` from the rest of the line after its first word.
fn parse_set_shortcut(rest: &Vec<char>) -> (r: Result<Option<AliasOp>, String>)
    ensures
        gives(r, set_parsed(rest@)),
{
    let sp = spans_of(rest);
    if sp.len() < 3 {
        return Err(owned(ARG_USAGE));
    }
    let ghost s = spans(rest@);
    assert(int_spans(sp@)[0] == (sp@[0].0 as int, sp@[0].1 as int));
    assert(int_spans(sp@)[1] == (sp@[1].0 as int, sp@[1].1 as int));
    assert(int_spans(sp@)[2] == (sp@[2].0 as int, sp@[2].1 as int));
    assert(spans_in(s, rest@.len() as int));
    assert(0 <= s[0].0 < s[0].1 <= rest@.len());
    assert(0 <= s[1].0 < s[1].1 <= rest@.len());
    assert(0 <= s[2].0 < s[2].1 <= rest@.len());
    let name = string_of(rest, sp[0].0, sp[0].1);
    let key = string_of(rest, sp[1].0, sp[1].1);
    let tail = string_of(rest, sp[2].0, rest.len());
    let value = trim(tail.as_str());
    Ok(Some(AliasOp::SetShortcut { name, key, value }))
}

/// Parse a colon command. The leading `:` has already been stripped by the
/// caller and the line is trimmed here. Returns `Ok(None)` for `help`,
/// empty input, or unknown sub-commands (the caller shows help text).
///
/// Supported forms:
///
/// ```text
/// add <name>[,<trigger>...] <linux-cmd> [// <macos-cmd>]
/// del <name>
/// arg <name> <key> <value...>  (shortcut ... is a synonym)
/// unarg <name> <key>           (unshortcut ... is a synonym)
/// import-chrome [alias]
/// ```
///
/// A command of `-` means "not configured on this platform". The command
/// strings are re-joined from the whitespace-separated words; shortcut
/// values keep their inner spacing: the value is the raw remainder.
pub fn parse(line: &str) -> (r: Result<Option<AliasOp>, String>)
    ensures
        gives(r, colon_parsed(line@)),
{
    let t = trim(line);
    let ws = words_of(t.as_str());
    let ghost w = words(t@);
    if ws.len() == 0 {
        return Ok(None);
    }
    assert(w[0] == ws@[0]@);
    let kw = to_lowercase(ws[0].as_str());
    let args = slice_words(&ws, 1, ws.len());
    assert(views(ws@).subrange(1, ws@.len() as int) =~= w.drop_first());
    let ghost a = w.drop_first();
    if eq_str(kw.as_str(), "add") {
        parse_add(&args)
    } else if eq_str(kw.as_str(), "del") {
        if args.len() != 1 {
            return Err(owned(DEL_USAGE));
        }
        assert(a[0] == args@[0]@);
        Ok(Some(AliasOp::Remove(args[0].clone())))
    } else if eq_str(kw.as_str(), "arg") || eq_str(kw.as_str(), "shortcut") {
        let tv = chars_of(t.as_str());
        let n0 = chars_of(ws[0].as_str()).len();
        let rest = if n0 < tv.len() && (tv[n0] as u32) < 128 {
            let r = string_of(&tv, n0 + 1, tv.len());
            chars_of(r.as_str())
        } else {
            Vec::new()
        };
        assert(rest@ =~= after_head(t@, w[0].len() as int));
        parse_set_shortcut(&rest)
    } else if eq_str(kw.as_str(), "unarg") || eq_str(kw.as_str(), "unshortcut") {
        if args.len() != 2 {
            return Err(owned(UNARG_USAGE));
        }
        assert(a[0] == args@[0]@ && a[1] == args@[1]@);
        Ok(Some(AliasOp::DelShortcut { name: args[0].clone(), key: args[1].clone() }))
    } else if eq_str(kw.as_str(), "import-chrome") {
        if args.len() == 0 {
            Ok(Some(AliasOp::ImportChrome { target: None }))
        } else if args.len() == 1 {
            assert(a[0] == args@[0]@);
            if valid_ident(args[0].as_str()) {
                Ok(Some(AliasOp::ImportChrome { target: Some(args[0].clone()) }))
            } else {
                Err(cat2("invalid alias name: ", args[0].as_str()))
            }
        } else {
            Err(owned(IMPORT_USAGE))
        }
    } else {
        Ok(None)
    }
}

} // verus!
