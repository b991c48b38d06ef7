//! Case-insensitive subsequence fuzzy scoring.
//!
//! Scoring rules (applied per matched needle character, matched greedily
//! left to right):
//!
//! * +3 for every matched character
//! * +1 extra when the hit directly follows the previous hit (consecutive)
//! * +5 extra when the hit starts a word (previous haystack char is a space,
//!   `-`, `_`, `/`, `.`, or the haystack start)
//! * +8 extra when the haystack starts with the whole needle
//!
//! A non-matching needle yields `None`; an empty needle yields `Some(0)`.

use vstd::prelude::*;

use crate::search::{first_where, lemma_first_found, lemma_first_none};
use crate::text::{chars_of, lower, lower_seq, to_lower};

verus! {

/// Longest needle whose score is sure to fit an `i32`.
pub const MAX_NEEDLE: usize = 200_000_000;

/// A char after which a hit starts a word.
pub open spec fn word_sep(c: char) -> bool {
    c == ' ' || c == '-' || c == '_' || c == '/' || c == '.'
}

/// Position `i` (at or after `from`) holds `c`.
pub open spec fn hit_at(h: Seq<char>, c: char, from: int) -> spec_fn(int) -> bool {
    |i: int| from <= i && h[i] == c
}

/// The first position at or after `from` holding `c`.
pub open spec fn find_from(h: Seq<char>, c: char, from: int) -> Option<int> {
    first_where(h.len() as int, hit_at(h, c, from))
}

/// Points for a hit at `pos` after a previous hit at `prev`.
pub open spec fn hit_points(h: Seq<char>, pos: int, prev: Option<int>) -> int {
    3 + (if prev == Some(pos - 1) {
        1int
    } else {
        0
    }) + (if pos == 0 || word_sep(h[pos - 1]) {
        5int
    } else {
        0
    })
}

/// Greedy match of `n[k..]` against `h` from position `from`: the points of
/// the remaining hits, or `None` when one of them is missing.
pub open spec fn scan(h: Seq<char>, n: Seq<char>, k: int, from: int, prev: Option<int>) -> Option<int>
    decreases n.len() - k,
{
    if k >= n.len() || k < 0 {
        Some(0)
    } else {
        match find_from(h, n[k], from) {
            None => None,
            Some(pos) => match scan(h, n, k + 1, pos + 1, Some(pos)) {
                None => None,
                Some(t) => Some(hit_points(h, pos, prev) + t),
            },
        }
    }
}

/// `h` starts with `n`.
pub open spec fn starts(h: Seq<char>, n: Seq<char>) -> bool {
    h.len() >= n.len() && h.subrange(0, n.len() as int) == n
}

/// The score of `needle` against `haystack`.
pub open spec fn score_of(needle: Seq<char>, haystack: Seq<char>) -> Option<int> {
    let n = lower_seq(needle);
    let h = lower_seq(haystack);
    if n.len() == 0 {
        Some(0)
    } else {
        match scan(h, n, 0, 0, None) {
            None => None,
            Some(t) => Some(
                t + if starts(h, n) {
                    8int
                } else {
                    0
                },
            ),
        }
    }
}

/// A scan never scores more than 9 points per remaining needle char.
proof fn lemma_scan_bound(h: Seq<char>, n: Seq<char>, k: int, from: int, prev: Option<int>)
    requires
        0 <= k <= n.len(),
    ensures
        scan(h, n, k, from, prev) matches Some(t) ==> 0 <= t <= 9 * (n.len() - k),
    decreases n.len() - k,
{
    if k < n.len() {
        match find_from(h, n[k], from) {
            None => {},
            Some(pos) => {
                lemma_scan_bound(h, n, k + 1, pos + 1, Some(pos));
            },
        }
    }
}

/// `p` places `n[k..]` in `h` at strictly increasing positions, all at or
/// after `from`.
pub open spec fn placed_from(h: Seq<char>, n: Seq<char>, k: int, from: int, p: Seq<int>) -> bool {
    &&& p.len() == n.len() - k
    &&& forall|i: int| 0 <= i < p.len() ==> from <= #[trigger] p[i] < h.len() && h[p[i]] == n[k + i]
    &&& forall|i: int, j: int| 0 <= i < j < p.len() ==> #[trigger] p[i] < #[trigger] p[j]
}

/// `n` is a subsequence of `h`: its chars occur in `h` in order, each at a
/// later position than the one before.
pub open spec fn subsequence(n: Seq<char>, h: Seq<char>) -> bool {
    exists|p: Seq<int>| placed_from(h, n, 0, 0, p)
}

/// A found position holds the char, and no earlier one at or after `from`
/// does.
proof fn lemma_find(h: Seq<char>, c: char, from: int)
    requires
        0 <= from,
    ensures
        find_from(h, c, from) matches Some(pos) ==> from <= pos < h.len() && h[pos] == c && forall|j: int|
            from <= j < pos ==> h[j] != c,
        find_from(h, c, from) is None ==> forall|j: int| from <= j < h.len() ==> h[j] != c,
{
    match find_from(h, c, from) {
        Some(pos) => {
            crate::search::lemma_first_some(h.len() as int, hit_at(h, c, from));
            assert forall|j: int| from <= j < pos implies h[j] != c by {
                assert(!hit_at(h, c, from)(j));
            }
        },
        None => {
            assert forall|j: int| from <= j < h.len() implies h[j] != c by {
                if h[j] == c {
                    lemma_some_hit(h, c, from, j);
                }
            }
        },
    }
}

/// A hit at `j` yields a first one.
proof fn lemma_some_hit(h: Seq<char>, c: char, from: int, j: int)
    requires
        0 <= from <= j < h.len(),
        h[j] == c,
    ensures
        find_from(h, c, from) is Some,
    decreases j - from,
{
    if forall|i: int| 0 <= i < j ==> !#[trigger] hit_at(h, c, from)(i) {
        lemma_first_found(h.len() as int, hit_at(h, c, from), j);
    } else {
        let i = choose|i: int| 0 <= i < j && #[trigger] hit_at(h, c, from)(i);
        lemma_some_hit(h, c, from, i);
    }
}

/// A successful scan places the rest of the needle.
proof fn lemma_scan_places(h: Seq<char>, n: Seq<char>, k: int, from: int, prev: Option<int>) -> (p: Seq<int>)
    requires
        0 <= k <= n.len(),
        0 <= from,
        scan(h, n, k, from, prev) is Some,
    ensures
        placed_from(h, n, k, from, p),
    decreases n.len() - k,
{
    if k == n.len() {
        Seq::empty()
    } else {
        let pos = find_from(h, n[k], from)->0;
        lemma_find(h, n[k], from);
        let rest = lemma_scan_places(h, n, k + 1, pos + 1, Some(pos));
        let p = seq![pos] + rest;
        assert forall|i: int| 0 <= i < p.len() implies from <= #[trigger] p[i] < h.len() && h[p[i]] == n[k + i] by {
            if i > 0 {
                assert(p[i] == rest[i - 1]);
            }
        }
        assert forall|i: int, j: int| 0 <= i < j < p.len() implies #[trigger] p[i] < #[trigger] p[j] by {
            if i > 0 {
                assert(p[i] == rest[i - 1] && p[j] == rest[j - 1]);
            } else {
                assert(p[j] == rest[j - 1]);
            }
        }
        p
    }
}

/// Wherever the rest of the needle can be placed, the greedy scan succeeds.
proof fn lemma_placed_scans(h: Seq<char>, n: Seq<char>, k: int, from: int, prev: Option<int>, p: Seq<int>)
    requires
        0 <= k <= n.len(),
        0 <= from,
        placed_from(h, n, k, from, p),
    ensures
        scan(h, n, k, from, prev) is Some,
    decreases n.len() - k,
{
    if k < n.len() {
        assert(from <= p[0] < h.len() && h[p[0]] == n[k + 0]);
        lemma_some_hit(h, n[k], from, p[0]);
        lemma_find(h, n[k], from);
        let pos = find_from(h, n[k], from)->0;
        assert(pos <= p[0]);
        let rest = p.drop_first();
        assert forall|i: int| 0 <= i < rest.len() implies pos + 1 <= #[trigger] rest[i] < h.len() && h[rest[i]]
            == n[k + 1 + i] by {
            assert(rest[i] == p[i + 1]);
            assert(p[0] < p[i + 1]);
        }
        assert forall|i: int, j: int| 0 <= i < j < rest.len() implies #[trigger] rest[i] < #[trigger] rest[j] by {
            assert(rest[i] == p[i + 1] && rest[j] == p[j + 1]);
        }
        lemma_placed_scans(h, n, k + 1, pos + 1, Some(pos), rest);
    }
}

/// A needle that matches a piece of a text matches the whole text: its
/// score against the text exists whenever its score against the piece does.
pub proof fn lemma_score_in_larger_text(needle: Seq<char>, piece: Seq<char>, text: Seq<char>, a: int)
    requires
        0 <= a,
        a + piece.len() <= text.len(),
        text.subrange(a, a + piece.len()) == piece,
        score_of(needle, piece) is Some,
    ensures
        score_of(needle, text) is Some,
{
    lemma_score_iff_subsequence(needle, piece);
    lemma_score_iff_subsequence(needle, text);
    let n = lower_seq(needle);
    let hp = lower_seq(piece);
    let ht = lower_seq(text);
    let p = choose|p: Seq<int>| placed_from(hp, n, 0, 0, p);
    let q = p.map_values(|x: int| x + a);
    assert forall|i: int| 0 <= i < q.len() implies 0 <= #[trigger] q[i] < ht.len() && ht[q[i]] == n[0 + i] by {
        assert(q[i] == p[i] + a);
        assert(hp[p[i]] == n[0 + i]);
        assert(piece[p[i]] == text.subrange(a, a + piece.len())[p[i]]);
    }
    assert forall|i: int, j: int| 0 <= i < j < q.len() implies #[trigger] q[i] < #[trigger] q[j] by {
        assert(p[i] < p[j]);
    }
    assert(placed_from(ht, n, 0, 0, q));
}

/// A needle scores exactly when, case folded, it is a subsequence of the
/// haystack: each of its chars found in order, each at a later position than
/// the one before. So a needle longer than the haystack, or asking for a
/// char more often than the haystack holds it, never scores.
pub proof fn lemma_score_iff_subsequence(needle: Seq<char>, haystack: Seq<char>)
    ensures
        score_of(needle, haystack) is Some <==> subsequence(lower_seq(needle), lower_seq(haystack)),
{
    let n = lower_seq(needle);
    let h = lower_seq(haystack);
    if n.len() == 0 {
        assert(placed_from(h, n, 0, 0, Seq::<int>::empty()));
    } else {
        if scan(h, n, 0, 0, None) is Some {
            let p = lemma_scan_places(h, n, 0, 0, None);
        }
        if subsequence(n, h) {
            let p = choose|p: Seq<int>| placed_from(h, n, 0, 0, p);
            lemma_placed_scans(h, n, 0, 0, None, p);
        }
    }
}

/// Lower-cased chars of `s`.
fn lowered(s: &str) -> (v: Vec<char>)
    ensures
        v@ == lower_seq(s@),
{
    let c = chars_of(s);
    let mut v: Vec<char> = Vec::new();
    let n = c.len();
    for i in 0..n
        invariant
            n == c.len(),
            c@ == s@,
            v@ == lower_seq(s@).take(i as int),
    {
        v.push(to_lower(c[i]));
        assert(v@ =~= lower_seq(s@).take(i + 1));
    }
    assert(v@ =~= lower_seq(s@));
    v
}

/// First position at or after `from` holding `c`.
fn find_hit(h: &Vec<char>, c: char, from: usize) -> (r: Option<usize>)
    ensures
        r matches Some(p) ==> find_from(h@, c, from as int) == Some(p as int),
        r is None ==> find_from(h@, c, from as int) is None,
{
    let mut i = from;
    while i < h.len()
        invariant
            from <= i,
            forall|j: int| 0 <= j < i ==> !#[trigger] hit_at(h@, c, from as int)(j),
        decreases h.len() - i,
    {
        if h[i] == c {
            proof {
                lemma_first_found(h@.len() as int, hit_at(h@, c, from as int), i as int);
            }
            return Some(i);
        }
        i += 1;
    }
    proof {
        lemma_first_none(h@.len() as int, hit_at(h@, c, from as int));
    }
    None
}

/// Score `needle` against `haystack` (both compared case-insensitively).
pub fn score(needle: &str, haystack: &str) -> (r: Option<i32>)
    requires
        needle@.len() <= MAX_NEEDLE,
    ensures
        match score_of(needle@, haystack@) {
            Some(s) => r == Some(s as i32) && s == r->0,
            None => r is None,
        },
{
    let n = lowered(needle);
    if n.len() == 0 {
        return Some(0);
    }
    let h = lowered(haystack);
    let mut total: i32 = 0;
    let mut prefix = false;
    if h.len() >= n.len() {
        let mut j: usize = 0;
        prefix = true;
        while j < n.len()
            invariant
                h.len() >= n.len(),
                j <= n.len(),
                prefix <==> forall|l: int| 0 <= l < j ==> h@[l] == n@[l],
            decreases n.len() - j,
        {
            if h[j] != n[j] {
                prefix = false;
            }
            j += 1;
        }
        proof {
            if prefix {
                assert(h@.subrange(0, n@.len() as int) =~= n@);
            } else {
                let l = choose|l: int| 0 <= l < n@.len() && h@[l] != n@[l];
                assert(h@.subrange(0, n@.len() as int)[l] != n@[l]);
            }
        }
    }
    proof {
        assert(prefix == starts(h@, n@));
        lemma_scan_bound(h@, n@, 0, 0, None);
    }
    let mut from: usize = 0;
    let mut prev: Option<usize> = None;
    let mut k: usize = 0;
    while k < n.len()
        invariant
            n@ == lower_seq(needle@),
            h@ == lower_seq(haystack@),
            n@.len() <= MAX_NEEDLE,
            k <= n.len(),
            0 <= total <= 9 * k,
            from <= h.len(),
            prev matches Some(p) ==> p + 1 == from,
            prev is None ==> from == 0 && k == 0,
            scan(h@, n@, 0, 0, None) == match scan(
                h@,
                n@,
                k as int,
                from as int,
                match prev {
                    Some(p) => Some(p as int),
                    None => None,
                },
            ) {
                None => None,
                Some(t) => Some(total + t),
            },
        decreases n.len() - k,
    {
        let ghost prev_int: Option<int> = match prev {
            Some(p) => Some(p as int),
            None => None,
        };
        let pos = match find_hit(&h, n[k], from) {
            Some(p) => p,
            None => {
                return None;
            },
        };
        let mut s: i32 = 3;
        match prev {
            Some(p) => {
                if pos == p + 1 {
                    s += 1;
                }
            },
            None => {},
        }
        if pos == 0 || h[pos - 1] == ' ' || h[pos - 1] == '-' || h[pos - 1] == '_' || h[pos - 1]
            == '/' || h[pos - 1] == '.' {
            s += 5;
        }
        proof {
            assert(s == hit_points(h@, pos as int, prev_int));
        }
        total += s;
        prev = Some(pos);
        from = pos + 1;
        k += 1;
    }
    if prefix {
        total += 8;
    }
    Some(total)
}

} // verus!
