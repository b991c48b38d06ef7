//! The text and arithmetic of the screen layout: the hint rows, how many
//! rows a panel under the input box gets, and the column helpers of the
//! settings table. Drawing them with the terminal widgets stays in the
//! binary.

use vstd::prelude::*;

use crate::alias::{alias_views, platform_command, platform_command_of, AliasDef, AliasView};
use crate::platform::{name, platform_name, Platform};
use crate::settings_form::{step_count, steps_of, Form, FormModel, Purpose, PurposeModel};
use crate::text::{cat2, cat3, cat4, chars_of, decimal, join, join_strings, owned, string_of, u64_to_string, views};

verus! {

/// Input box height in rows: top border, input line, bottom border.
pub const INPUT_BOX_H: u16 = 3;

/// Separator between two hints.
pub const HINT_SEP: &'static str = " \u{b7} ";

/// The hidden-mode one-liner for wake key `wake`.
pub open spec fn hidden_text(wake: Seq<char>) -> Seq<char> {
    " xconsoler hidden \u{2014} "@ + wake + " wake \u{b7} Ctrl+C/D quit "@
}

/// Hidden-mode one-liner; the wake key is injected at render time so a
/// custom `--wake-key` / stored config shows the real binding.
pub fn hidden_hint(wake: &str) -> (r: String)
    ensures
        r@ == hidden_text(wake@),
{
    cat3(" xconsoler hidden \u{2014} ", wake, " wake \u{b7} Ctrl+C/D quit ")
}

/// The launcher's key hints, most essential first.
pub open spec fn key_segs(wake: Seq<char>) -> Seq<Seq<char>> {
    seq![
        wake + " hide"@,
        "Enter run"@,
        "\u{2191}\u{2193}/Tab select"@,
        "Ctrl+W/U edit"@,
        "Ctrl+C/D quit"@,
    ]
}

/// Rendered width of hints `segs`: text, separators and the two spaces the
/// row is padded with.
pub open spec fn hints_width(segs: Seq<Seq<char>>) -> int {
    join(segs, HINT_SEP@).len() + 2int
}

/// How many leading hints stay: the most, down to one, that fit `width`.
pub open spec fn kept_hints(segs: Seq<Seq<char>>, width: int, keep: int) -> int
    decreases keep,
{
    if keep > 1 && hints_width(segs.take(keep)) > width {
        kept_hints(segs, width, keep - 1)
    } else {
        keep
    }
}

/// The key-hints row for a bar `width` chars wide.
pub open spec fn keys_hint_text(wake: Seq<char>, width: int) -> Seq<char> {
    let segs = key_segs(wake);
    " "@ + join(segs.take(kept_hints(segs, width, 5)), HINT_SEP@) + " "@
}

/// `list.take(k)`, joined.
fn joined_prefix(list: &Vec<String>, k: usize, sep: &str) -> (r: String)
    requires
        k <= list.len(),
    ensures
        r@ == join(views(list@).take(k as int), sep@),
{
    let mut head: Vec<String> = Vec::new();
    for i in 0..k
        invariant
            k <= list.len(),
            views(head@) == views(list@).take(i as int),
    {
        let ghost before = head@;
        let c = list[i].clone();
        assert(c@ == views(list@)[i as int]);
        head.push(c);
        assert(views(head@) =~= views(before).push(c@));
        assert(views(head@) =~= views(list@).take(i + 1));
    }
    join_strings(&head, sep)
}

/// The first `keep` hints fit a bar `width` chars wide.
fn hints_fit(segs: &Vec<String>, keep: usize, width: usize) -> (r: bool)
    requires
        keep <= segs.len(),
    ensures
        r == (hints_width(views(segs@).take(keep as int)) <= width),
{
    let joined = joined_prefix(segs, keep, HINT_SEP);
    let w = chars_of(joined.as_str()).len();
    width >= 2 && w <= width - 2
}

/// Key-hints row under the list, shown while there is no status message.
/// A narrow bar drops the least essential hints whole (no mid-word
/// clipping): `Ctrl+C/D quit` goes first; the wake hint always stays.
pub fn keys_hint(wake: &str, width: usize) -> (r: String)
    ensures
        r@ == keys_hint_text(wake@, width as int),
{
    let segs: Vec<String> = vec![
        cat2(wake, " hide"),
        owned("Enter run"),
        owned("\u{2191}\u{2193}/Tab select"),
        owned("Ctrl+W/U edit"),
        owned("Ctrl+C/D quit"),
    ];
    let ghost s = key_segs(wake@);
    assert(views(segs@) =~= s);
    let mut keep: usize = 5;
    while keep > 1 && !hints_fit(&segs, keep, width)
        invariant
            1 <= keep <= 5,
            segs.len() == 5,
            views(segs@) == s,
            kept_hints(s, width as int, 5) == kept_hints(s, width as int, keep as int),
        decreases keep,
    {
        keep -= 1;
    }
    let joined = joined_prefix(&segs, keep, HINT_SEP);
    cat3(" ", joined.as_str(), " ")
}

/// Rows a panel under the input box may claim, as `(framed, rows)`: a
/// status message keeps its row; with room for a border the panel is framed
/// and leaves the hint row too, keeping at least one row; otherwise the
/// rows are drawn bare in what is left.
pub open spec fn panel_layout(area_h: int, y: int, want: int, keep_status: bool) -> (bool, int) {
    let below = if area_h > y {
        area_h - y
    } else {
        0
    };
    let room = if keep_status {
        if below > 0 {
            below - 1
        } else {
            0
        }
    } else {
        below
    };
    if room >= 3 {
        let cap = if room - 3 >= 1 {
            room - 3
        } else {
            1
        };
        (true, if want < cap {
            want
        } else {
            cap
        })
    } else {
        (false, if want < room {
            want
        } else {
            room
        })
    }
}

/// Rows a panel under the input box may claim, as `(framed, rows)` (see
/// [`panel_layout`]).
pub fn panel_rows(area_h: u16, y: u16, want: usize, keep_status: bool) -> (r: (bool, usize))
    ensures
        (r.0, r.1 as int) == panel_layout(area_h as int, y as int, want as int, keep_status),
{
    let below: usize = if area_h > y {
        (area_h - y) as usize
    } else {
        0
    };
    let room: usize = if keep_status {
        if below > 0 {
            below - 1
        } else {
            0
        }
    } else {
        below
    };
    if room >= 3 {
        let cap: usize = if room - 3 >= 1 {
            room - 3
        } else {
            1
        };
        (true, if want < cap {
            want
        } else {
            cap
        })
    } else {
        (false, if want < room {
            want
        } else {
            room
        })
    }
}

/// `s` padded with spaces to `w` chars (`format!("{s:<w$}")`).
pub open spec fn padded(s: Seq<char>, w: int) -> Seq<char> {
    if s.len() >= w {
        s
    } else {
        s + Seq::new((w - s.len()) as nat, |i: int| ' ')
    }
}

/// Left-align `s` in a column `w` chars wide.
pub fn pad(s: &str, w: usize) -> (r: String)
    ensures
        r@ == padded(s@, w as int),
{
    let n = chars_of(s).len();
    let mut r = owned(s);
    if n >= w {
        return r;
    }
    let mut i: usize = n;
    while i < w
        invariant
            n <= i <= w,
            n == s@.len(),
            r@ == s@ + Seq::new((i - n) as nat, |j: int| ' '),
        decreases w - i,
    {
        let ghost before = r@;
        crate::text::push_char(&mut r, ' ');
        assert(r@ =~= s@ + Seq::new((i + 1 - n) as nat, |j: int| ' '));
        i += 1;
    }
    r
}

/// `s` cut to at most `w` chars, ending in `…` when cut.
pub open spec fn truncated(s: Seq<char>, w: int) -> Seq<char> {
    if s.len() <= w {
        s
    } else {
        s.take(if w >= 1 {
            w - 1
        } else {
            0
        }) + "\u{2026}"@
    }
}

/// Unicode-safe truncation to at most `w` chars (adds `…` when cut).
pub fn truncate(s: &str, w: usize) -> (r: String)
    ensures
        r@ == truncated(s@, w as int),
{
    let v = chars_of(s);
    if v.len() <= w {
        return owned(s);
    }
    let keep = if w >= 1 {
        w - 1
    } else {
        0
    };
    let cut = string_of(&v, 0, keep);
    cat2(cut.as_str(), "\u{2026}")
}

// ----------------------------------------------------------------------
// The settings page's footer
// ----------------------------------------------------------------------

/// The settings list's footer hints, in display order.
pub open spec fn settings_hints() -> Seq<Seq<char>> {
    seq![
        "\u{2191}\u{2193}/jk move"@,
        "Enter/\u{2192} expand"@,
        "\u{2190} collapse"@,
        "n new alias"@,
        "e edit row"@,
        "s add shortcut"@,
        "t add trigger"@,
        "d delete"@,
        "q/Esc back"@,
    ]
}

/// The settings list's footer hints, in display order.
pub fn hint_segments() -> (r: Vec<String>)
    ensures
        views(r@) == settings_hints(),
{
    let r = vec![
        owned("\u{2191}\u{2193}/jk move"),
        owned("Enter/\u{2192} expand"),
        owned("\u{2190} collapse"),
        owned("n new alias"),
        owned("e edit row"),
        owned("s add shortcut"),
        owned("t add trigger"),
        owned("d delete"),
        owned("q/Esc back"),
    ];
    assert(views(r@) =~= settings_hints());
    r
}

/// Greedy packing in progress: the finished lines, the line being filled,
/// and that line's joined width.
pub struct Packing {
    pub lines: Seq<Seq<Seq<char>>>,
    pub cur: Seq<Seq<char>>,
    pub used: int,
}

/// Add `seg`: it joins the current line when the joined width stays within
/// `budget` (or the line is empty), else it opens a new line.
pub open spec fn pack_step(p: Packing, seg: Seq<char>, budget: int) -> Packing {
    let needed = if p.cur.len() == 0 {
        seg.len() as int
    } else {
        p.used + HINT_SEP@.len() + seg.len()
    };
    if p.cur.len() > 0 && needed > budget {
        Packing { lines: p.lines.push(p.cur), cur: seq![seg], used: seg.len() as int }
    } else {
        Packing { lines: p.lines, cur: p.cur.push(seg), used: needed }
    }
}

/// The packing of `segs` in order.
pub open spec fn pack_from(segs: Seq<Seq<char>>, budget: int) -> Packing
    decreases segs.len(),
{
    if segs.len() == 0 {
        Packing { lines: Seq::empty(), cur: Seq::empty(), used: 0 }
    } else {
        pack_step(pack_from(segs.drop_last(), budget), segs.last(), budget)
    }
}

/// The lines `segs` are packed onto.
pub open spec fn packed(segs: Seq<Seq<char>>, budget: int) -> Seq<Seq<Seq<char>>> {
    let p = pack_from(segs, budget);
    if p.cur.len() > 0 {
        p.lines.push(p.cur)
    } else {
        p.lines
    }
}

/// One footer line: its hints joined, with a space on either side.
pub open spec fn framed(line: Seq<Seq<char>>) -> Seq<char> {
    " "@ + join(line, HINT_SEP@) + " "@
}

/// The footer lines for `segs` on a page `width` chars wide: at least one.
pub open spec fn footer(segs: Seq<Seq<char>>, width: int) -> Seq<Seq<char>> {
    let ls = packed(segs, if width >= 2 {
        width - 2
    } else {
        0
    });
    if ls.len() == 0 {
        seq![" "@]
    } else {
        ls.map_values(|l: Seq<Seq<char>>| framed(l))
    }
}

/// Pack `segs` onto footer lines of at most `width` chars (see [`footer`]).
fn pack(segs: &Vec<String>, width: usize) -> (r: Vec<String>)
    ensures
        views(r@) == footer(views(segs@), width as int),
{
    let budget: usize = if width >= 2 {
        width - 2
    } else {
        0
    };
    let ghost sv = views(segs@);
    let sep = chars_of(HINT_SEP).len() as u128;
    let mut out: Vec<String> = Vec::new();
    let mut line: Vec<String> = Vec::new();
    let mut used: u128 = 0;
    let n = segs.len();
    for i in 0..n
        invariant
            n == segs.len(),
            sv == views(segs@),
            sep == HINT_SEP@.len(),
            sep <= usize::MAX,
            views(out@) == pack_from(sv.take(i as int), budget as int).lines.map_values(|l: Seq<Seq<char>>| framed(l)),
            views(line@) == pack_from(sv.take(i as int), budget as int).cur,
            used == pack_from(sv.take(i as int), budget as int).used,
            used <= usize::MAX,
    {
        let ghost p = pack_from(sv.take(i as int), budget as int);
        assert(sv.take(i + 1).drop_last() =~= sv.take(i as int));
        let seg = &segs[i];
        assert(seg@ == sv[i as int]);
        let len = chars_of(seg.as_str()).len() as u128;
        let needed: u128 = if line.len() == 0 {
            len
        } else {
            used + sep + len
        };
        if line.len() > 0 && needed > budget as u128 {
            let joined = join_strings(&line, HINT_SEP);
            let ghost before = out@;
            out.push(cat3(" ", joined.as_str(), " "));
            assert(views(out@) =~= views(before).push(framed(p.cur)));
            assert(views(out@) =~= p.lines.push(p.cur).map_values(|l: Seq<Seq<char>>| framed(l)));
            line = Vec::new();
            line.push(seg.clone());
            assert(views(line@) =~= seq![seg@]);
            used = len;
        } else {
            let ghost before = line@;
            line.push(seg.clone());
            assert(views(line@) =~= views(before).push(seg@));
            used = needed;
        }
    }
    assert(sv.take(n as int) =~= sv);
    if line.len() > 0 {
        let joined = join_strings(&line, HINT_SEP);
        let ghost before = out@;
        out.push(cat3(" ", joined.as_str(), " "));
        let ghost p = pack_from(sv, budget as int);
        assert(views(out@) =~= views(before).push(framed(p.cur)));
        assert(views(out@) =~= packed(sv, budget as int).map_values(|l: Seq<Seq<char>>| framed(l)));
    }
    if out.len() == 0 {
        out.push(owned(" "));
        assert(views(out@) =~= seq![" "@]);
    }
    out
}

/// The settings footer: [`hint_segments`] packed onto lines that never
/// exceed `width` chars, so a narrow bar wraps the hints instead of
/// clipping them. Hints keep their order and are never split; every line
/// gets one leading and one trailing space; at least one line is returned.
pub fn hint_lines(width: usize) -> (r: Vec<String>)
    ensures
        views(r@) == footer(settings_hints(), width as int),
{
    let segs = hint_segments();
    pack(&segs, width)
}

/// The hints of a list of lines, in order.
pub open spec fn flat(ls: Seq<Seq<Seq<char>>>) -> Seq<Seq<char>>
    decreases ls.len(),
{
    if ls.len() == 0 {
        Seq::empty()
    } else {
        flat(ls.drop_last()) + ls.last()
    }
}

/// What packing keeps true: the width it tracks is the current line's
/// joined width, the lines and the current one hold the hints in order, and
/// with every hint within the budget no line goes over it.
proof fn lemma_pack(segs: Seq<Seq<char>>, budget: int)
    requires
        budget >= 0,
    ensures
        pack_from(segs, budget).used == join(pack_from(segs, budget).cur, HINT_SEP@).len(),
        flat(pack_from(segs, budget).lines) + pack_from(segs, budget).cur == segs,
        segs.len() > 0 ==> pack_from(segs, budget).cur.len() > 0,
        (forall|i: int| 0 <= i < segs.len() ==> (#[trigger] segs[i]).len() <= budget) ==> {
            &&& pack_from(segs, budget).used <= budget
            &&& forall|j: int| 0 <= j < pack_from(segs, budget).lines.len() ==> join(
                #[trigger] pack_from(segs, budget).lines[j],
                HINT_SEP@,
            ).len() <= budget
        },
    decreases segs.len(),
{
    if segs.len() > 0 {
        let rest = segs.drop_last();
        lemma_pack(rest, budget);
        let p = pack_from(rest, budget);
        let seg = segs.last();
        if forall|i: int| 0 <= i < segs.len() ==> (#[trigger] segs[i]).len() <= budget {
            assert forall|i: int| 0 <= i < rest.len() implies (#[trigger] rest[i]).len() <= budget by {
                assert(rest[i] == segs[i]);
            }
            assert(seg.len() <= budget);
        }
        assert(seq![seg].drop_last() =~= Seq::<Seq<char>>::empty());
        if p.cur.len() > 0 {
            assert(p.cur.push(seg).drop_last() =~= p.cur);
        }
        let q = pack_step(p, seg, budget);
        if p.cur.len() > 0 && p.used + HINT_SEP@.len() + seg.len() > budget {
            assert(p.lines.push(p.cur).drop_last() =~= p.lines);
            assert(flat(q.lines) == flat(p.lines) + p.cur);
            assert(flat(q.lines) + q.cur =~= rest.push(seg));
            if forall|i: int| 0 <= i < segs.len() ==> (#[trigger] segs[i]).len() <= budget {
                assert forall|j: int| 0 <= j < q.lines.len() implies join(#[trigger] q.lines[j], HINT_SEP@).len() <= budget by {
                    if j < p.lines.len() {
                        assert(q.lines[j] == p.lines[j]);
                    } else {
                        assert(q.lines[j] == p.cur);
                    }
                }
            }
        } else {
            assert(flat(q.lines) + q.cur =~= (flat(p.lines) + p.cur).push(seg));
        }
        assert(rest.push(seg) =~= segs);
    }
}

/// Footer lines fit: when every hint plus the two padding spaces fits
/// `width`, no footer line is wider than `width`, and the lines hold every
/// hint exactly once, in order, none split across two lines.
pub proof fn lemma_footer_fits(segs: Seq<Seq<char>>, width: int)
    requires
        width >= 2,
        forall|i: int| 0 <= i < segs.len() ==> (#[trigger] segs[i]).len() + 2 <= width,
    ensures
        forall|j: int| 0 <= j < footer(segs, width).len() ==> (#[trigger] footer(segs, width)[j]).len() <= width,
        flat(packed(segs, width - 2)) == segs,
{
    lemma_pack(segs, width - 2);
    let p = pack_from(segs, width - 2);
    if p.cur.len() > 0 {
        assert(p.lines.push(p.cur).drop_last() =~= p.lines);
    } else {
        assert(p.cur =~= Seq::<Seq<char>>::empty());
        assert(flat(p.lines) + p.cur =~= flat(p.lines));
    }
    let ls = packed(segs, width - 2);
    assert forall|j: int| 0 <= j < ls.len() implies join(#[trigger] ls[j], HINT_SEP@).len() <= width - 2 by {
        if j < p.lines.len() {
            assert(ls[j] == p.lines[j]);
        }
    }
    if ls.len() == 0 {
        reveal_strlit(" ");
    }
    assert forall|j: int| 0 <= j < footer(segs, width).len() implies (#[trigger] footer(segs, width)[j]).len() <= width by {
        if ls.len() > 0 {
            reveal_strlit(" ");
            assert(footer(segs, width)[j] == framed(ls[j]));
        } else {
            reveal_strlit(" ");
        }
    }
}

// ----------------------------------------------------------------------
// The settings table and wizard
// ----------------------------------------------------------------------

/// What a wizard is called, before its step counter.
pub open spec fn purpose_label(p: PurposeModel) -> Seq<char> {
    match p {
        PurposeModel::NewAlias(_) => "new alias"@,
        PurposeModel::NewShortcut(_) => "new shortcut"@,
        PurposeModel::NewTrigger(_) => "new trigger"@,
        PurposeModel::EditCommand(a, _) => "edit command for '"@ + a + "'"@,
        PurposeModel::EditShortcut(a, k) => "edit shortcut "@ + a + "."@ + k,
        PurposeModel::EditTrigger(a, _) => "edit trigger '"@ + a + "'"@,
    }
}

/// A wizard's title, such as `new alias (2/3)`.
pub open spec fn form_title_text(f: FormModel) -> Seq<char> {
    purpose_label(f.purpose) + " ("@ + decimal((f.step + 1) as nat) + "/"@ + decimal(steps_of(f.purpose) as nat)
        + ")"@
}

/// Human title such as `new alias (2/3)`.
pub fn form_title(f: &Form) -> (r: String)
    requires
        f.step < usize::MAX,
    ensures
        r@ == form_title_text(f@),
{
    let label = match &f.purpose {
        Purpose::NewAlias(_) => owned("new alias"),
        Purpose::NewShortcut { .. } => owned("new shortcut"),
        Purpose::NewTrigger { .. } => owned("new trigger"),
        Purpose::EditCommand { alias, .. } => cat3("edit command for '", alias.as_str(), "'"),
        Purpose::EditShortcut { alias, old_key } => cat4("edit shortcut ", alias.as_str(), ".", old_key.as_str()),
        Purpose::EditTrigger { alias, .. } => cat3("edit trigger '", alias.as_str(), "'"),
    };
    let step = u64_to_string((f.step + 1) as u64);
    let n = u64_to_string(step_count(f) as u64);
    let head = cat3(label.as_str(), " (", step.as_str());
    cat4(head.as_str(), "/", n.as_str(), ")")
}

/// The prompt for the field step `step` of a wizard edits.
pub open spec fn prompt_text(p: PurposeModel, step: int) -> Seq<char> {
    match p {
        PurposeModel::NewAlias(pf) => if step == 0 {
            "name"@
        } else if step == 1 {
            "triggers (comma-separated, empty ok)"@
        } else if step == 2 {
            platform_name(pf) + " command \u{2014} use {input} where the input goes"@
        } else {
            "?"@
        },
        PurposeModel::EditCommand(_, pf) => if step == 0 {
            platform_name(pf) + " command \u{2014} use {input} where the input goes"@
        } else {
            "?"@
        },
        PurposeModel::NewShortcut(a) => if step == 0 {
            "shortcut key for '"@ + a + "' (one word)"@
        } else if step == 1 {
            "shortcut value (spaces allowed)"@
        } else {
            "?"@
        },
        PurposeModel::EditShortcut(a, _) => if step == 0 {
            "shortcut key for '"@ + a + "' (one word)"@
        } else if step == 1 {
            "shortcut value (spaces allowed)"@
        } else {
            "?"@
        },
        PurposeModel::NewTrigger(_) => if step == 0 {
            "trigger (one word, a-z 0-9 - _)"@
        } else {
            "?"@
        },
        PurposeModel::EditTrigger(..) => if step == 0 {
            "trigger (one word, a-z 0-9 - _)"@
        } else {
            "?"@
        },
    }
}

/// Prompt for the field currently being edited.
pub fn form_prompt(f: &Form) -> (r: String)
    ensures
        r@ == prompt_text(f@.purpose, f.step as int),
{
    match &f.purpose {
        Purpose::NewAlias(pf) => {
            if f.step == 0 {
                owned("name")
            } else if f.step == 1 {
                owned("triggers (comma-separated, empty ok)")
            } else if f.step == 2 {
                cat2(name(*pf), " command \u{2014} use {input} where the input goes")
            } else {
                owned("?")
            }
        },
        Purpose::EditCommand { platform, .. } => {
            if f.step == 0 {
                cat2(name(*platform), " command \u{2014} use {input} where the input goes")
            } else {
                owned("?")
            }
        },
        Purpose::NewShortcut { alias } | Purpose::EditShortcut { alias, .. } => {
            if f.step == 0 {
                cat3("shortcut key for '", alias.as_str(), "' (one word)")
            } else if f.step == 1 {
                owned("shortcut value (spaces allowed)")
            } else {
                owned("?")
            }
        },
        Purpose::NewTrigger { .. } | Purpose::EditTrigger { .. } => {
            if f.step == 0 {
                owned("trigger (one word, a-z 0-9 - _)")
            } else {
                owned("?")
            }
        },
    }
}

/// The widest of `floor` and the lengths of `f(d)` over `v`.
pub open spec fn widest(v: Seq<AliasView>, f: spec_fn(AliasView) -> Seq<char>, floor: int) -> int
    decreases v.len(),
{
    if v.len() == 0 {
        floor
    } else {
        let w = widest(v.drop_last(), f, floor);
        if f(v.last()).len() > w {
            f(v.last()).len() as int
        } else {
            w
        }
    }
}

/// The triggers column text of an alias.
pub open spec fn triggers_text(d: AliasView) -> Seq<char> {
    join(d.triggers, ","@)
}

/// The smallest of three.
pub open spec fn min3(a: int, b: int, c: int) -> int {
    let m = if a < b {
        a
    } else {
        b
    };
    if m < c {
        m
    } else {
        c
    }
}

/// (name, triggers) column widths: wide enough for the data and the
/// headers, capped so the command column keeps most of the line.
pub open spec fn column_layout(v: Seq<AliasView>, width: int) -> (int, int) {
    (
        min3(widest(v, |d: AliasView| d.name, 4), 20, width / 3),
        min3(widest(v, |d: AliasView| triggers_text(d), 9), 18, width / 4),
    )
}

/// (name, triggers) column widths from the data (see [`column_layout`]).
pub fn column_widths(aliases: &Vec<AliasDef>, width: usize) -> (r: (usize, usize))
    ensures
        (r.0 as int, r.1 as int) == column_layout(alias_views(aliases@), width as int),
{
    let ghost v = alias_views(aliases@);
    let mut nw: usize = 4;
    let mut sw: usize = 9;
    let n = aliases.len();
    for i in 0..n
        invariant
            n == aliases.len(),
            v == alias_views(aliases@),
            nw == widest(v.take(i as int), |d: AliasView| d.name, 4),
            sw == widest(v.take(i as int), |d: AliasView| triggers_text(d), 9),
    {
        assert(v.take(i + 1).drop_last() =~= v.take(i as int));
        assert(v.take(i + 1).last() == aliases@[i as int]@);
        let a = chars_of(aliases[i].name.as_str()).len();
        if a > nw {
            nw = a;
        }
        let t = join_strings(&aliases[i].triggers, ",");
        let b = chars_of(t.as_str()).len();
        if b > sw {
            sw = b;
        }
    }
    assert(v.take(n as int) =~= v);
    let nw = if nw < 20 {
        nw
    } else {
        20
    };
    let nw = if nw < width / 3 {
        nw
    } else {
        width / 3
    };
    let sw = if sw < 18 {
        sw
    } else {
        18
    };
    let sw = if sw < width / 4 {
        sw
    } else {
        width / 4
    };
    (nw, sw)
}

/// The table header: the column names padded to their widths.
pub open spec fn header_text(nw: int, sw: int, cw: int, platform: Platform) -> Seq<char> {
    padded("name"@, nw) + "  "@ + padded("triggers"@, sw) + "  "@ + padded(platform_name(platform), cw)
        + "  shortcuts"@
}

/// The table header for the page's platform.
pub fn header(nw: usize, sw: usize, cw: usize, platform: Platform) -> (r: String)
    ensures
        r@ == header_text(nw as int, sw as int, cw as int, platform),
{
    let a = pad("name", nw);
    let b = pad("triggers", sw);
    let c = pad(name(platform), cw);
    let ab = cat3(a.as_str(), "  ", b.as_str());
    cat4(ab.as_str(), "  ", c.as_str(), "  shortcuts")
}

/// The command column of an alias: this platform's stored command (never
/// the other platform's), `—` without one, cut then padded to `cw`.
pub open spec fn command_cell(d: AliasView, cw: int, platform: Platform) -> Seq<char> {
    padded(
        truncated(
            match platform_command_of(d, platform) {
                Some(c) => c,
                None => "\u{2014}"@,
            },
            cw,
        ),
        cw,
    )
}

/// The four cells of an alias row: name, triggers, this platform's command
/// and the number of shortcuts.
pub fn alias_cells(d: &AliasDef, nw: usize, sw: usize, cw: usize, platform: Platform) -> (r: (
    String,
    String,
    String,
    String,
))
    ensures
        r.0@ == padded(d@.name, nw as int),
        r.1@ == padded(triggers_text(d@), sw as int),
        r.2@ == command_cell(d@, cw as int, platform),
        r.3@ == decimal(d@.shortcuts.dom().len()),
{
    let t = join_strings(&d.triggers, ",");
    let cmd = match platform_command(d, platform) {
        Some(c) => truncate(c, cw),
        None => truncate("\u{2014}", cw),
    };
    let count = u64_to_string(d.shortcuts.len() as u64);
    (pad(d.name.as_str(), nw), pad(t.as_str(), sw), pad(cmd.as_str(), cw), count)
}

/// The indented trigger row `idx` under alias `alias`: `  ↳ trigger: tt`,
/// `…` in place of a trigger that is not there, cut to `width`.
pub open spec fn trigger_row_text(v: Seq<AliasView>, alias: int, idx: int, width: int) -> Seq<char> {
    let t = if 0 <= alias < v.len() && 0 <= idx < v[alias].triggers.len() {
        v[alias].triggers[idx]
    } else {
        "\u{2026}"@
    };
    truncated("  \u{21b3} trigger: "@ + t, width)
}

/// The indented trigger row text (see [`trigger_row_text`]).
pub fn trigger_row(aliases: &Vec<AliasDef>, alias: usize, idx: usize, width: usize) -> (r: String)
    ensures
        r@ == trigger_row_text(alias_views(aliases@), alias as int, idx as int, width as int),
{
    let t = if alias < aliases.len() && idx < aliases[alias].triggers.len() {
        assert(alias_views(aliases@)[alias as int].triggers[idx as int] == aliases@[alias as int].triggers@[idx as int]@);
        aliases[alias].triggers[idx].clone()
    } else {
        owned("\u{2026}")
    };
    let text = cat2("  \u{21b3} trigger: ", t.as_str());
    truncate(text.as_str(), width)
}

/// The indented shortcut row of `key` under alias `alias`:
/// `  key → value`, `…` in place of a value that is not there, cut to
/// `width`.
pub open spec fn shortcut_row_text(v: Seq<AliasView>, alias: int, key: Seq<char>, width: int) -> Seq<char> {
    let value = if 0 <= alias < v.len() && v[alias].shortcuts.dom().contains(key) {
        v[alias].shortcuts[key]
    } else {
        "\u{2026}"@
    };
    truncated("  "@ + key + " \u{2192} "@ + value, width)
}

/// The indented shortcut row text (see [`shortcut_row_text`]).
pub fn shortcut_row(aliases: &Vec<AliasDef>, alias: usize, key: &str, width: usize) -> (r: String)
    ensures
        r@ == shortcut_row_text(alias_views(aliases@), alias as int, key@, width as int),
{
    let value = if alias < aliases.len() {
        assert(alias_views(aliases@)[alias as int] == aliases@[alias as int]@);
        match aliases[alias].shortcuts.get(key) {
            Some(v) => v.clone(),
            None => owned("\u{2026}"),
        }
    } else {
        owned("\u{2026}")
    };
    let text = cat4("  ", key, " \u{2192} ", value.as_str());
    truncate(text.as_str(), width)
}

/// The mark before a status message.
pub fn status_mark(ok: bool) -> (r: &'static str)
    ensures
        r@ == (if ok {
            "\u{2713} "@
        } else {
            "\u{2717} "@
        }),
{
    if ok {
        "\u{2713} "
    } else {
        "\u{2717} "
    }
}

// ----------------------------------------------------------------------
// Styled rows
// ----------------------------------------------------------------------

/// Styled segments as plain values.
pub open spec fn seg_views<S>(v: Seq<(String, S)>) -> Seq<(Seq<char>, S)> {
    v.map_values(|p: (String, S)| (p.0@, p.1))
}

/// The segments laid on a row `width` chars wide, and the chars used: each
/// segment cut to what is left (a segment cut to nothing is dropped), in
/// the selection style on a selected row.
pub open spec fn laid<S>(segs: Seq<(Seq<char>, S)>, width: int, selected: bool, sel: S) -> (Seq<(Seq<char>, S)>, int)
    decreases segs.len(),
{
    if segs.len() == 0 {
        (Seq::empty(), 0)
    } else {
        let p = laid(segs.drop_last(), width, selected, sel);
        let seg = segs.last();
        if p.1 >= width {
            p
        } else {
            let t = seg.0.take(if seg.0.len() < width - p.1 {
                seg.0.len() as int
            } else {
                width - p.1
            });
            let style = if selected {
                sel
            } else {
                seg.1
            };
            (if t.len() > 0 {
                p.0.push((t, style))
            } else {
                p.0
            }, p.1 + t.len())
        }
    }
}

/// The row for `segs`: the laid segments, and on a selected row the rest of
/// the width filled with spaces in the selection style.
pub open spec fn row_segments<S>(segs: Seq<(Seq<char>, S)>, width: int, selected: bool, sel: S) -> Seq<(Seq<char>, S)> {
    let p = laid(segs, width, selected, sel);
    if selected && p.1 < width {
        p.0.push((Seq::new((width - p.1) as nat, |i: int| ' '), sel))
    } else {
        p.0
    }
}

/// `n` spaces.
fn spaces(n: usize) -> (r: String)
    ensures
        r@ == Seq::new(n as nat, |i: int| ' '),
{
    let mut r = String::new();
    for i in 0..n
        invariant
            r@ == Seq::new(i as nat, |j: int| ' '),
    {
        crate::text::push_char(&mut r, ' ');
        assert(r@ =~= Seq::new((i + 1) as nat, |j: int| ' '));
    }
    r
}

/// Lay out styled segments on one row `width` chars wide: truncation keeps
/// whole chars; a selected row takes the selection style and is padded
/// across the full width (see [`row_segments`]).
pub fn segments_line<S: Copy>(segs: Vec<(String, S)>, width: usize, selected: bool, sel: S) -> (r: Vec<(String, S)>)
    ensures
        seg_views(r@) == row_segments(seg_views(segs@), width as int, selected, sel),
{
    let ghost sv = seg_views(segs@);
    let mut out: Vec<(String, S)> = Vec::new();
    let mut used: usize = 0;
    let n = segs.len();
    for i in 0..n
        invariant
            n == segs.len(),
            sv == seg_views(segs@),
            (seg_views(out@), used as int) == laid(sv.take(i as int), width as int, selected, sel),
            used <= width,
    {
        assert(sv.take(i + 1).drop_last() =~= sv.take(i as int));
        assert(sv[i as int] == (segs@[i as int].0@, segs@[i as int].1));
        if used < width {
            let v = chars_of(segs[i].0.as_str());
            let k = if v.len() < width - used {
                v.len()
            } else {
                width - used
            };
            let taken = string_of(&v, 0, k);
            assert(taken@ =~= sv[i as int].0.take(k as int));
            let style = if selected {
                sel
            } else {
                segs[i].1
            };
            if k > 0 {
                let ghost before = out@;
                out.push((taken, style));
                assert(seg_views(out@) =~= seg_views(before).push((taken@, style)));
            }
            used = used + k;
        }
    }
    assert(sv.take(n as int) =~= sv);
    if selected && used < width {
        let pad = spaces(width - used);
        let ghost before = out@;
        out.push((pad, sel));
        assert(seg_views(out@) =~= seg_views(before).push((pad@, sel)));
    }
    out
}

/// `a - b`, or 0 when `b` is larger (`usize::saturating_sub`).
pub open spec fn sat_sub(a: int, b: int) -> int {
    if a >= b {
        a - b
    } else {
        0
    }
}

/// Lines the settings page's footer takes: the four-line wizard box while a
/// form is open, else a status line above the key-hint lines.
pub fn footer_height(form_open: bool, hint_lines: usize) -> (r: usize)
    requires
        hint_lines < usize::MAX,
    ensures
        r == if form_open {
            4
        } else {
            1 + hint_lines
        },
{
    if form_open {
        4
    } else {
        1 + hint_lines
    }
}

/// Table rows that fit in `inner` lines under the header, above a footer of
/// `footer` lines.
pub fn table_height(inner: usize, footer: usize) -> (r: usize)
    requires
        footer < usize::MAX,
    ensures
        r == sat_sub(inner as int, footer + 1),
{
    inner.saturating_sub(footer + 1)
}

/// The first table row shown: scrolled just far enough that the cursor row
/// is the last one visible, and never past the last screenful.
pub open spec fn table_offset_of(cursor: int, rows: int, height: int) -> int {
    if height == 0 {
        0
    } else {
        let a = sat_sub(cursor, height - 1);
        let b = sat_sub(rows, height);
        if a <= b {
            a
        } else {
            b
        }
    }
}

/// The first table row to draw for `cursor` among `rows` rows, `height` of
/// them visible. A cursor on a row is always in view.
pub fn table_offset(cursor: usize, rows: usize, height: usize) -> (r: usize)
    ensures
        r == table_offset_of(cursor as int, rows as int, height as int),
        cursor < rows && height > 0 ==> r <= cursor < r + height,
        r <= rows,
{
    if height == 0 {
        0
    } else {
        let a = cursor.saturating_sub(height - 1);
        let b = rows.saturating_sub(height);
        if a <= b {
            a
        } else {
            b
        }
    }
}

} // verus!
