//! Catalog behind the command palette: the built-in `:`/`/` commands as
//! selectable rows.

use vstd::prelude::*;

use crate::text::{cat2, owned};

verus! {

/// One palette row.
#[derive(Debug, Clone, Copy, PartialEq, Eq)]
pub struct CommandSpec {
    /// Token inserted into the input (`:add`, `/settings`).
    pub token: &'static str,
    /// One-line description shown next to the token.
    pub desc: &'static str,
    /// True when the command still needs typed arguments before it can run.
    pub needs_arg: bool,
}

/// Number of palette rows.
pub const COUNT: usize = 6;

/// Row `i` of the palette, as (token, description, needs-argument).
pub open spec fn row(i: int) -> (Seq<char>, Seq<char>, bool) {
    if i == 0 {
        (":add"@, "define or override an alias"@, true)
    } else if i == 1 {
        (":del"@, "delete a user alias"@, true)
    } else if i == 2 {
        (":arg"@, "set a shortcut (alias key value)"@, true)
    } else if i == 3 {
        (":unarg"@, "remove a shortcut (alias key)"@, true)
    } else if i == 4 {
        (":help"@, "show the colon-command help"@, false)
    } else {
        ("/settings"@, "open the settings page"@, false)
    }
}

/// The model of a palette row.
pub open spec fn spec_of(c: CommandSpec) -> (Seq<char>, Seq<char>, bool) {
    (c.token@, c.desc@, c.needs_arg)
}

/// Every built-in `:`/`/` command, in palette order.
pub fn all() -> (r: [CommandSpec; 6])
    ensures
        forall|i: int| 0 <= i < 6 ==> spec_of(#[trigger] r@[i]) == row(i),
{
    [
        CommandSpec { token: ":add", desc: "define or override an alias", needs_arg: true },
        CommandSpec { token: ":del", desc: "delete a user alias", needs_arg: true },
        CommandSpec { token: ":arg", desc: "set a shortcut (alias key value)", needs_arg: true },
        CommandSpec { token: ":unarg", desc: "remove a shortcut (alias key)", needs_arg: true },
        CommandSpec { token: ":help", desc: "show the colon-command help", needs_arg: false },
        CommandSpec { token: "/settings", desc: "open the settings page", needs_arg: false },
    ]
}

/// Number of palette rows.
pub fn len() -> (n: usize)
    ensures
        n == COUNT,
{
    COUNT
}

/// Row `i`, or `None` when out of range.
pub fn get(i: usize) -> (r: Option<CommandSpec>)
    ensures
        i < COUNT ==> (r matches Some(c) && spec_of(c) == row(i as int)),
        i >= COUNT ==> r is None,
{
    if i < COUNT {
        let rows = all();
        Some(rows[i])
    } else {
        None
    }
}

/// Text `Enter` completes into the input: a trailing space while the command
/// still needs arguments, the bare token otherwise.
pub fn insert_text(c: &CommandSpec) -> (r: String)
    ensures
        r@ == if c.needs_arg {
            c.token@ + " "@
        } else {
            c.token@
        },
{
    if c.needs_arg {
        cat2(c.token, " ")
    } else {
        owned(c.token)
    }
}

} // verus!
