//! Readline-style single-line editing: pure functions over `(text, caret)`.
//!
//! The caret is a **char index** in `0..=char_count`, so every operation is
//! unicode-safe and never splits a multi-byte char. Word motions use the
//! shell convention (`unix-word-rubout`, Ctrl+W in bash): a word is a run of
//! non-whitespace, so `sudo rm -rf /tmp/x` kills `/tmp/x` whole even though
//! it contains slashes. Nothing here mutates state: callers own the text.

use vstd::prelude::*;

use crate::text::{chars_of, is_whitespace, is_ws, string_of};

verus! {

/// Caret motions that leave the text unchanged.
#[derive(Debug, Clone, Copy, PartialEq, Eq, Structural)]
pub enum Motion {
    /// One char left.
    Left,
    /// One char right.
    Right,
    /// Start of the previous whitespace-delimited word.
    WordLeft,
    /// End of the next whitespace-delimited word.
    WordRight,
    /// Start of the line.
    Home,
    /// End of the line.
    End,
}

/// The caret moved into `0..=len`.
pub open spec fn clamped(s: Seq<char>, caret: int) -> int {
    if caret < s.len() {
        caret
    } else {
        s.len() as int
    }
}

/// Text and caret after inserting `c` at the caret.
pub open spec fn inserted(s: Seq<char>, caret: int, c: char) -> (Seq<char>, int) {
    (s.insert(clamped(s, caret), c), clamped(s, caret) + 1)
}

/// Text and caret after Backspace.
pub open spec fn backspaced(s: Seq<char>, caret: int) -> (Seq<char>, int) {
    let at = clamped(s, caret);
    if at == 0 {
        (s, 0)
    } else {
        (s.remove(at - 1), at - 1)
    }
}

/// Text and caret after Delete.
pub open spec fn deleted(s: Seq<char>, caret: int) -> (Seq<char>, int) {
    let at = clamped(s, caret);
    if at == s.len() {
        (s, at)
    } else {
        (s.remove(at), at)
    }
}

/// Text and caret after Ctrl+U.
pub open spec fn killed_to_start(s: Seq<char>, caret: int) -> (Seq<char>, int) {
    (s.skip(clamped(s, caret)), 0)
}

/// Text and caret after Ctrl+K.
pub open spec fn killed_to_end(s: Seq<char>, caret: int) -> (Seq<char>, int) {
    (s.take(clamped(s, caret)), clamped(s, caret))
}

/// Text and caret after Ctrl+W.
pub open spec fn killed_word(s: Seq<char>, caret: int) -> (Seq<char>, int) {
    let at = clamped(s, caret);
    (s.take(word_start(s, at)) + s.skip(at), word_start(s, at))
}

/// The whole of `v` as a `String`.
fn collect(v: &Vec<char>) -> (r: String)
    ensures
        r@ == v@,
{
    let r = string_of(v, 0, v.len());
    assert(v@.subrange(0, v@.len() as int) =~= v@);
    r
}

/// Clamp `caret` into `0..=char_count`.
pub fn clamp(s: &str, caret: usize) -> (r: usize)
    ensures
        r == clamped(s@, caret as int),
{
    let n = chars_of(s).len();
    if caret < n {
        caret
    } else {
        n
    }
}

/// Insert `c` at `caret`; returns the new text and the caret after it.
pub fn insert(s: &str, caret: usize, c: char) -> (r: (String, usize))
    ensures
        (r.0@, r.1 as int) == inserted(s@, caret as int, c),
        r.0@ == s@.insert(clamped(s@, caret as int), c),
        r.1 == clamped(s@, caret as int) + 1,
{
    let mut cs = chars_of(s);
    let at = if caret < cs.len() {
        caret
    } else {
        cs.len()
    };
    cs.insert(at, c);
    assert(at < cs.len());
    (collect(&cs), at + 1)
}

/// Delete the char before `caret` (Backspace); no-op at the start.
pub fn backspace(s: &str, caret: usize) -> (r: (String, usize))
    ensures
        (r.0@, r.1 as int) == backspaced(s@, caret as int),
        clamped(s@, caret as int) == 0 ==> r.0@ == s@ && r.1 == 0,
        clamped(s@, caret as int) > 0 ==> r.0@ == s@.remove(clamped(s@, caret as int) - 1) && r.1
            == clamped(s@, caret as int) - 1,
{
    let mut cs = chars_of(s);
    let at = if caret < cs.len() {
        caret
    } else {
        cs.len()
    };
    if at == 0 {
        return (collect(&cs), 0);
    }
    cs.remove(at - 1);
    (collect(&cs), at - 1)
}

/// Delete the char at `caret` (Delete); no-op at the end.
pub fn delete(s: &str, caret: usize) -> (r: (String, usize))
    ensures
        (r.0@, r.1 as int) == deleted(s@, caret as int),
        clamped(s@, caret as int) == s@.len() ==> r.0@ == s@,
        clamped(s@, caret as int) < s@.len() ==> r.0@ == s@.remove(clamped(s@, caret as int)),
        r.1 == clamped(s@, caret as int),
{
    let mut cs = chars_of(s);
    let at = if caret < cs.len() {
        caret
    } else {
        cs.len()
    };
    if at >= cs.len() {
        return (collect(&cs), at);
    }
    cs.remove(at);
    (collect(&cs), at)
}

/// Back from `i` over whitespace.
pub open spec fn back_ws(s: Seq<char>, i: int) -> int
    decreases i,
{
    if i > 0 && is_ws(s[i - 1]) {
        back_ws(s, i - 1)
    } else {
        i
    }
}

/// Back from `i` over non-whitespace.
pub open spec fn back_word(s: Seq<char>, i: int) -> int
    decreases i,
{
    if i > 0 && !is_ws(s[i - 1]) {
        back_word(s, i - 1)
    } else {
        i
    }
}

/// First index of the whitespace-delimited word before `at`, after any
/// whitespace just before `at`.
pub open spec fn word_start(s: Seq<char>, at: int) -> int {
    back_word(s, back_ws(s, at))
}

/// Forward from `i` over whitespace.
pub open spec fn fwd_ws(s: Seq<char>, i: int) -> int
    decreases s.len() - i,
{
    if 0 <= i < s.len() && is_ws(s[i]) {
        fwd_ws(s, i + 1)
    } else {
        i
    }
}

/// Forward from `i` over non-whitespace.
pub open spec fn fwd_word(s: Seq<char>, i: int) -> int
    decreases s.len() - i,
{
    if 0 <= i < s.len() && !is_ws(s[i]) {
        fwd_word(s, i + 1)
    } else {
        i
    }
}

/// Index just past the whitespace-delimited word from `at` on.
pub open spec fn word_end(s: Seq<char>, at: int) -> int {
    fwd_word(s, fwd_ws(s, at))
}

/// Where a motion takes the caret.
pub open spec fn moved(s: Seq<char>, caret: int, m: Motion) -> int {
    let n = s.len() as int;
    let at = clamped(s, caret);
    match m {
        Motion::Left => if at > 0 {
            at - 1
        } else {
            0
        },
        Motion::Right => if at < n {
            at + 1
        } else {
            n
        },
        Motion::Home => 0,
        Motion::End => n,
        Motion::WordLeft => word_start(s, at),
        Motion::WordRight => word_end(s, at),
    }
}

/// `word_start` from `at`, with the bounds it keeps.
fn word_start_exec(cs: &Vec<char>, at: usize) -> (r: usize)
    requires
        at <= cs.len(),
    ensures
        r == word_start(cs@, at as int),
        r <= at,
{
    let mut i = at;
    while i > 0 && is_whitespace(cs[i - 1])
        invariant
            i <= at <= cs.len(),
            back_ws(cs@, i as int) == back_ws(cs@, at as int),
        decreases i,
    {
        i -= 1;
    }
    let mid = i;
    while i > 0 && !is_whitespace(cs[i - 1])
        invariant
            i <= mid <= at <= cs.len(),
            mid == back_ws(cs@, at as int),
            back_word(cs@, i as int) == back_word(cs@, mid as int),
        decreases i,
    {
        i -= 1;
    }
    i
}

/// `word_end` from `at`.
fn word_end_exec(cs: &Vec<char>, at: usize) -> (r: usize)
    requires
        at <= cs.len(),
    ensures
        r == word_end(cs@, at as int),
        at <= r <= cs.len(),
{
    let n = cs.len();
    let mut i = at;
    while i < n && is_whitespace(cs[i])
        invariant
            n == cs.len(),
            at <= i <= n,
            fwd_ws(cs@, i as int) == fwd_ws(cs@, at as int),
        decreases n - i,
    {
        i += 1;
    }
    let mid = i;
    while i < n && !is_whitespace(cs[i])
        invariant
            n == cs.len(),
            at <= mid <= i <= n,
            mid == fwd_ws(cs@, at as int),
            fwd_word(cs@, i as int) == fwd_word(cs@, mid as int),
        decreases n - i,
    {
        i += 1;
    }
    i
}

/// Resolve one motion against `caret`, clamped at both ends.
pub fn motion(s: &str, caret: usize, m: Motion) -> (r: usize)
    ensures
        r == moved(s@, caret as int, m),
        r <= s@.len(),
{
    let cs = chars_of(s);
    let n = cs.len();
    let at = if caret < n {
        caret
    } else {
        n
    };
    match m {
        Motion::Left => if at > 0 {
            at - 1
        } else {
            0
        },
        Motion::Right => if at < n {
            at + 1
        } else {
            n
        },
        Motion::Home => 0,
        Motion::End => n,
        Motion::WordLeft => word_start_exec(&cs, at),
        Motion::WordRight => word_end_exec(&cs, at),
    }
}

/// Ctrl+U: kill from the start of the line to the caret.
pub fn kill_to_start(s: &str, caret: usize) -> (r: (String, usize))
    ensures
        (r.0@, r.1 as int) == killed_to_start(s@, caret as int),
        r.0@ == s@.skip(clamped(s@, caret as int)),
        r.1 == 0,
{
    let cs = chars_of(s);
    let at = if caret < cs.len() {
        caret
    } else {
        cs.len()
    };
    (string_of(&cs, at, cs.len()), 0)
}

/// Ctrl+K: kill from the caret to the end of the line.
pub fn kill_to_end(s: &str, caret: usize) -> (r: (String, usize))
    ensures
        (r.0@, r.1 as int) == killed_to_end(s@, caret as int),
        r.0@ == s@.take(clamped(s@, caret as int)),
        r.1 == clamped(s@, caret as int),
{
    let cs = chars_of(s);
    let at = if caret < cs.len() {
        caret
    } else {
        cs.len()
    };
    (string_of(&cs, 0, at), at)
}

/// Ctrl+W: kill the whitespace-delimited word before the caret, plus the
/// whitespace between it and the caret (bare Ctrl+W kills the whitespace).
pub fn kill_word(s: &str, caret: usize) -> (r: (String, usize))
    ensures
        (r.0@, r.1 as int) == killed_word(s@, caret as int),
        r.0@ == s@.take(word_start(s@, clamped(s@, caret as int))) + s@.skip(
            clamped(s@, caret as int),
        ),
        r.1 == word_start(s@, clamped(s@, caret as int)),
{
    let cs = chars_of(s);
    let at = if caret < cs.len() {
        caret
    } else {
        cs.len()
    };
    let start = word_start_exec(&cs, at);
    let mut text = string_of(&cs, 0, start);
    let tail = string_of(&cs, at, cs.len());
    text.append(tail.as_str());
    (text, start)
}

/// The text after Ctrl+T at `caret`: the two chars around the caret
/// swapped, the last two at the end of the line.
pub open spec fn transposed(s: Seq<char>, caret: int) -> (Seq<char>, int) {
    let n = s.len() as int;
    let at = clamped(s, caret);
    if n < 2 || at == 0 {
        (s, at)
    } else {
        let a = if at >= n {
            n - 2
        } else {
            at - 1
        };
        let b = a + 1;
        (s.update(a, s[b]).update(b, s[a]), if at >= n {
            n
        } else {
            at + 1
        })
    }
}

/// Ctrl+T: swap the two chars around the caret, then step over the pair.
/// At the end of the line the last two chars are swapped. No-op on a line
/// with fewer than two chars or with the caret at its start.
pub fn transpose(s: &str, caret: usize) -> (r: (String, usize))
    ensures
        (r.0@, r.1 as int) == transposed(s@, caret as int),
{
    let mut cs = chars_of(s);
    let n = cs.len();
    let at = if caret < n {
        caret
    } else {
        n
    };
    if n < 2 || at == 0 {
        return (collect(&cs), at);
    }
    let a = if at >= n {
        n - 2
    } else {
        at - 1
    };
    let b = a + 1;
    let ca = cs[a];
    let cb = cs[b];
    cs.set(a, cb);
    cs.set(b, ca);
    let next = if at >= n {
        n
    } else {
        at + 1
    };
    (collect(&cs), next)
}

/// Display width of `c` in terminal cells as the Unicode width tables give
/// it (`None` for control chars). The tables are the outside crate's and are
/// named here rather than restated.
pub uninterp spec fn display_width(c: char) -> Option<usize>;

/// `UnicodeWidthChar::width`: `None` exactly for the C0 and C1 control
/// codes, one cell for printable ASCII, and at most three cells otherwise
/// (the tables store two bits per char).
#[verifier::external_body]
fn char_width(c: char) -> (r: Option<usize>)
    ensures
        r == display_width(c),
        r is None <==> ((c as u32) < 0x20 || (0x7F <= (c as u32) && (c as u32) < 0xA0)),
        r matches Some(w) ==> w <= 3,
        r == Some(1usize) <== (0x20 <= (c as u32) && (c as u32) < 0x7F),
{
    unicode_width::UnicodeWidthChar::width(c)
}

/// Cells a char takes on screen; control chars count as one so the caret
/// arithmetic never divides by zero.
pub open spec fn cells(c: char) -> nat {
    match display_width(c) {
        Some(w) => w as nat,
        None => 1,
    }
}

/// Display width of `c` in terminal cells; control chars count as one.
pub fn cell_width(c: char) -> (r: usize)
    ensures
        r == cells(c),
        r <= 3,
{
    match char_width(c) {
        Some(w) => w,
        None => 1,
    }
}

/// Cells taken by a run of chars.
pub open spec fn cells_sum(s: Seq<char>) -> nat
    decreases s.len(),
{
    if s.len() == 0 {
        0
    } else {
        cells_sum(s.drop_last()) + cells(s.last())
    }
}

/// Scan back from `i` while the char before still fits next to `used`
/// cells: where the window starts and the cells then used.
pub open spec fn back_from(s: Seq<char>, i: int, used: int, budget: int) -> (int, int)
    decreases i,
{
    if i > 0 && used + cells(s[i - 1]) <= budget {
        back_from(s, i - 1, used + cells(s[i - 1]), budget)
    } else {
        (i, used)
    }
}

/// Scan forward from `e` while the next char still fits next to `used`
/// cells: where the window ends.
pub open spec fn fwd_from(s: Seq<char>, e: int, used: int, budget: int) -> int
    decreases s.len() - e,
{
    if 0 <= e < s.len() && used + cells(s[e]) <= budget {
        fwd_from(s, e + 1, used + cells(s[e]), budget)
    } else {
        e
    }
}

/// The visible window `(before, at, after)` for `caret` and a cell budget.
pub open spec fn windowed(s: Seq<char>, caret: int, budget: int) -> (Seq<char>, Option<char>, Seq<char>) {
    if budget == 0 {
        (Seq::empty(), None, Seq::empty())
    } else {
        let n = s.len() as int;
        let at = clamped(s, caret);
        let (start, used) = back_from(s, at, 1, budget);
        let end = if at < n && used + cells(s[at]) <= budget {
            fwd_from(s, at + 1, used + cells(s[at]), budget)
        } else {
            at
        };
        if end > at {
            (s.subrange(start, at), Some(s[at]), s.subrange(at + 1, end))
        } else {
            (s.subrange(start, at), None, Seq::empty())
        }
    }
}

/// Cells of an optional char.
pub open spec fn opt_cells(c: Option<char>) -> nat {
    match c {
        Some(c) => cells(c),
        None => 0,
    }
}

/// Prepending a char adds its cells.
pub proof fn lemma_cells_prepend(c: char, t: Seq<char>)
    ensures
        cells_sum(seq![c] + t) == cells(c) + cells_sum(t),
    decreases t.len(),
{
    let u = seq![c] + t;
    if t.len() > 0 {
        lemma_cells_prepend(c, t.drop_last());
        assert(u.drop_last() =~= seq![c] + t.drop_last());
        assert(u.last() == t.last());
        assert(cells_sum(u) == cells_sum(u.drop_last()) + cells(u.last()));
        assert(cells_sum(t) == cells_sum(t.drop_last()) + cells(t.last()));
    } else {
        assert(u.drop_last() =~= Seq::<char>::empty());
        assert(u.last() == c);
        assert(cells_sum(u.drop_last()) == 0);
        assert(cells_sum(u) == cells_sum(u.drop_last()) + cells(u.last()));
        assert(cells_sum(t) == 0);
    }
}

/// The back scan stays inside the budget and counts what it passes over.
pub proof fn lemma_back_from(s: Seq<char>, i: int, used: int, budget: int)
    requires
        0 <= i <= s.len(),
        used <= budget,
    ensures
        0 <= back_from(s, i, used, budget).0 <= i,
        back_from(s, i, used, budget).1 == used + cells_sum(
            s.subrange(back_from(s, i, used, budget).0, i),
        ),
        back_from(s, i, used, budget).1 <= budget,
    decreases i,
{
    if i > 0 && used + cells(s[i - 1]) <= budget {
        lemma_back_from(s, i - 1, used + cells(s[i - 1]), budget);
        let r = back_from(s, i, used, budget);
        assert(s.subrange(r.0, i).drop_last() =~= s.subrange(r.0, i - 1));
    } else {
        assert(s.subrange(i, i) =~= Seq::<char>::empty());
    }
}

/// The forward scan stays inside the budget.
pub proof fn lemma_fwd_from(s: Seq<char>, e: int, used: int, budget: int)
    requires
        0 <= e <= s.len(),
        used <= budget,
    ensures
        e <= fwd_from(s, e, used, budget) <= s.len(),
        used + cells_sum(s.subrange(e, fwd_from(s, e, used, budget))) <= budget,
    decreases s.len() - e,
{
    if e < s.len() && used + cells(s[e]) <= budget {
        lemma_fwd_from(s, e + 1, used + cells(s[e]), budget);
        let r = fwd_from(s, e, used, budget);
        assert(s.subrange(e, r) =~= seq![s[e]] + s.subrange(e + 1, r));
        lemma_cells_prepend(s[e], s.subrange(e + 1, r));
    } else {
        assert(s.subrange(e, e) =~= Seq::<char>::empty());
    }
}

/// Visible window around the caret for a cell `budget`: `(before, at, after)`.
/// `before` holds the chars before the caret, `at` the char the caret sits on
/// (`None` at the end of the line) and `after` the chars that follow it. The
/// caller paints one caret cell **between `before` and `at`**, so the window
/// always reserves exactly that one cell; widths are counted in terminal
/// cells (CJK/emoji take two), never in chars. A char is shown whole or not
/// at all, and the window scrolls right so the caret never leaves it: with a
/// short line the whole text plus the caret cell stays visible.
pub fn window(s: &str, caret: usize, budget: usize) -> (r: (String, Option<char>, String))
    ensures
        (r.0@, r.1, r.2@) == windowed(s@, caret as int, budget as int),
        budget > 0 ==> cells_sum(r.0@) + 1 + opt_cells(r.1) + cells_sum(r.2@) <= budget,
{
    if budget == 0 {
        return (String::new(), None, String::new());
    }
    let cs = chars_of(s);
    let n = cs.len();
    let at = if caret < n {
        caret
    } else {
        n
    };
    let ghost sv = cs@;
    let mut start = at;
    let mut used: usize = 1;
    while start > 0 && cell_width(cs[start - 1]) <= budget - used
        invariant
            sv == cs@,
            start <= at <= n == cs.len(),
            1 <= used <= budget,
            back_from(sv, start as int, used as int, budget as int) == back_from(
                sv,
                at as int,
                1,
                budget as int,
            ),
        decreases start,
    {
        used += cell_width(cs[start - 1]);
        start -= 1;
    }
    proof {
        lemma_back_from(sv, at as int, 1, budget as int);
    }
    let used_back = used;
    let mut end = at;
    if at < n {
        let c = cs[at];
        if cell_width(c) <= budget - used {
            used += cell_width(c);
            end = at + 1;
        }
    }
    if end > at {
        let ghost used_at = used;
        while end < n && cell_width(cs[end]) <= budget - used
            invariant
                sv == cs@,
                at < end <= n == cs.len(),
                used <= budget,
                fwd_from(sv, end as int, used as int, budget as int) == fwd_from(
                    sv,
                    at + 1,
                    used_at as int,
                    budget as int,
                ),
            decreases n - end,
        {
            used += cell_width(cs[end]);
            end += 1;
        }
        proof {
            lemma_fwd_from(sv, at + 1, used_at as int, budget as int);
        }
    }
    let before = string_of(&cs, start, at);
    if end > at {
        let after = string_of(&cs, at + 1, end);
        (before, Some(cs[at]), after)
    } else {
        (before, None, String::new())
    }
}

// ----------------------------------------------------------------------
// Laws
// ----------------------------------------------------------------------

/// Backspace right after inserting a char gives the text back, with the
/// caret where the insert put it (clamped).
pub proof fn lemma_backspace_undoes_insert(s: Seq<char>, caret: int, c: char)
    requires
        caret >= 0,
    ensures
        ({
            let t = s.insert(clamped(s, caret), c);
            let k = clamped(s, caret) + 1;
            clamped(t, k) == k && t.remove(k - 1) == s
        }),
{
    let at = clamped(s, caret);
    let t = s.insert(at, c);
    assert(t.remove(at) =~= s);
}

/// Ctrl+K and Ctrl+U at the same caret split the line: what the first
/// keeps, followed by what the second keeps, is the whole line.
pub proof fn lemma_kills_split_the_line(s: Seq<char>, caret: int)
    requires
        caret >= 0,
    ensures
        s.take(clamped(s, caret)) + s.skip(clamped(s, caret)) == s,
{
    assert(s.take(clamped(s, caret)) + s.skip(clamped(s, caret)) =~= s);
}

/// Ctrl+T twice at the end of the line gives the line back.
pub proof fn lemma_transpose_at_end_twice(s: Seq<char>)
    ensures
        transposed(transposed(s, s.len() as int).0, s.len() as int).0 == s,
{
    let n = s.len() as int;
    if n >= 2 {
        let t = transposed(s, n).0;
        assert(t.len() == n);
        assert(transposed(t, n).0 =~= s);
    }
}

/// The window is a piece of the line around the caret: `before` is the end
/// of the text before the caret, `at` the char under the caret, and `after`
/// the text right after it; with no char shown under the caret nothing
/// follows it.
pub proof fn lemma_window_is_around_the_caret(s: Seq<char>, caret: int, budget: int)
    requires
        caret >= 0,
        budget >= 1,
    ensures
        ({
            let (b, a, f) = windowed(s, caret, budget);
            let at = clamped(s, caret);
            &&& b.len() <= at
            &&& b == s.subrange(at - b.len(), at)
            &&& (a matches Some(c) ==> at < s.len() && c == s[at] && at + 1 + f.len() <= s.len() && f
                == s.subrange(at + 1, at + 1 + f.len()))
            &&& (a is None ==> f.len() == 0)
        }),
{
    let n = s.len() as int;
    let at = clamped(s, caret);
    lemma_back_from(s, at, 1, budget);
    let (start, used) = back_from(s, at, 1, budget);
    if at < n && used + cells(s[at]) <= budget {
        lemma_fwd_from(s, at + 1, used + cells(s[at]), budget);
    }
}

/// Every motion keeps the caret inside the line.
pub proof fn lemma_motion_in_line(s: Seq<char>, caret: int, m: Motion)
    requires
        caret >= 0,
    ensures
        0 <= moved(s, caret, m) <= s.len(),
{
    let at = clamped(s, caret);
    lemma_back_bounds(s, at);
    lemma_fwd_bounds(s, at);
}

/// The backward word scans stay in `0..=i`.
proof fn lemma_back_bounds(s: Seq<char>, i: int)
    requires
        0 <= i <= s.len(),
    ensures
        0 <= back_ws(s, i) <= i,
        0 <= word_start(s, i) <= i,
{
    lemma_back_ws(s, i);
    lemma_back_word(s, back_ws(s, i));
}

proof fn lemma_back_ws(s: Seq<char>, i: int)
    requires
        0 <= i,
    ensures
        0 <= back_ws(s, i) <= i,
    decreases i,
{
    if i > 0 && is_ws(s[i - 1]) {
        lemma_back_ws(s, i - 1);
    }
}

proof fn lemma_back_word(s: Seq<char>, i: int)
    requires
        0 <= i,
    ensures
        0 <= back_word(s, i) <= i,
    decreases i,
{
    if i > 0 && !is_ws(s[i - 1]) {
        lemma_back_word(s, i - 1);
    }
}

/// The forward word scans stay in `i..=len`.
proof fn lemma_fwd_bounds(s: Seq<char>, i: int)
    requires
        0 <= i <= s.len(),
    ensures
        i <= word_end(s, i) <= s.len(),
{
    lemma_fwd_ws(s, i);
    lemma_fwd_word(s, fwd_ws(s, i));
}

proof fn lemma_fwd_ws(s: Seq<char>, i: int)
    requires
        0 <= i <= s.len(),
    ensures
        i <= fwd_ws(s, i) <= s.len(),
    decreases s.len() - i,
{
    if i < s.len() && is_ws(s[i]) {
        lemma_fwd_ws(s, i + 1);
    }
}

proof fn lemma_fwd_word(s: Seq<char>, i: int)
    requires
        0 <= i <= s.len(),
    ensures
        i <= fwd_word(s, i) <= s.len(),
    decreases s.len() - i,
{
    if i < s.len() && !is_ws(s[i]) {
        lemma_fwd_word(s, i + 1);
    }
}

} // verus!
