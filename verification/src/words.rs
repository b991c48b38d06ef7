//! Whitespace tokenization (`str::split_whitespace`) and splitting on a
//! separator char (`str::split`), with the spec functions their contracts
//! speak of.

use vstd::prelude::*;

use crate::text::{chars_of, is_whitespace, is_ws, push_char, string_of, trim, trim_seq, views};

verus! {

/// The maximal runs of non-whitespace chars of `s`, as half-open index
/// ranges, left to right.
pub open spec fn spans(s: Seq<char>) -> Seq<(int, int)>
    decreases s.len(),
{
    if s.len() == 0 {
        Seq::empty()
    } else {
        let p = spans(s.drop_last());
        let i = s.len() - 1;
        if is_ws(s[i]) {
            p
        } else if i > 0 && !is_ws(s[i - 1]) && p.len() > 0 {
            p.update(p.len() - 1, (p.last().0, i + 1))
        } else {
            p.push((i, i + 1))
        }
    }
}

/// The whitespace-separated words of `s`.
pub open spec fn words(s: Seq<char>) -> Seq<Seq<char>> {
    spans(s).map_values(|p: (int, int)| s.subrange(p.0, p.1))
}

/// Every span lies inside `s` and is non-empty.
pub open spec fn spans_in(sp: Seq<(int, int)>, n: int) -> bool {
    forall|k: int| 0 <= k < sp.len() ==> 0 <= (#[trigger] sp[k]).0 < sp[k].1 <= n
}

/// The spans of `s` lie inside `s`.
pub proof fn lemma_spans_in(s: Seq<char>)
    ensures
        spans_in(spans(s), s.len() as int),
    decreases s.len(),
{
    if s.len() > 0 {
        lemma_spans_in(s.drop_last());
    }
}

/// Spans of machine indices, read as integers.
pub open spec fn int_spans(v: Seq<(usize, usize)>) -> Seq<(int, int)> {
    v.map_values(|p: (usize, usize)| (p.0 as int, p.1 as int))
}

/// The spans of the words of `v`.
pub fn spans_of(v: &Vec<char>) -> (r: Vec<(usize, usize)>)
    ensures
        int_spans(r@) == spans(v@),
        spans_in(spans(v@), v@.len() as int),
{
    let mut out: Vec<(usize, usize)> = Vec::new();
    let n = v.len();
    for i in 0..n
        invariant
            n == v.len(),
            int_spans(out@) == spans(v@.take(i as int)),
            forall|k: int| 0 <= k < out@.len() ==> (#[trigger] out@[k]).1 <= i,
    {
        let ghost before = out@;
        let ghost pre = v@.take(i as int);
        assert(v@.take(i + 1).drop_last() =~= pre);
        if is_whitespace(v[i]) {
        } else if i > 0 && !is_whitespace(v[i - 1]) && out.len() > 0 {
            let last = out.len() - 1;
            let start = out[last].0;
            out.set(last, (start, i + 1));
            assert(int_spans(out@) =~= int_spans(before).update(
                last as int,
                (int_spans(before).last().0, i + 1),
            ));
        } else {
            out.push((i, i + 1));
            assert(int_spans(out@) =~= int_spans(before).push((i as int, i + 1)));
        }
    }
    assert(v@.take(n as int) =~= v@);
    proof {
        lemma_spans_in(v@);
    }
    out
}

/// `s.split_whitespace()`, owned.
pub fn words_of(s: &str) -> (r: Vec<String>)
    ensures
        views(r@) == words(s@),
{
    let v = chars_of(s);
    let sp = spans_of(&v);
    let mut out: Vec<String> = Vec::new();
    let n = sp.len();
    for k in 0..n
        invariant
            n == sp.len(),
            v@ == s@,
            int_spans(sp@) == spans(s@),
            spans_in(spans(s@), s@.len() as int),
            views(out@) == words(s@).take(k as int),
    {
        let (a, b) = sp[k];
        assert(int_spans(sp@)[k as int] == (a as int, b as int));
        let w = string_of(&v, a, b);
        let ghost before = out@;
        out.push(w);
        assert(views(out@) =~= views(before).push(w@));
        assert(words(s@).take(k + 1) =~= words(s@).take(k as int).push(words(s@)[k as int]));
    }
    assert(words(s@).take(n as int) =~= words(s@));
    out
}

/// The pieces of `s` between occurrences of `c` (`str::split`): one more
/// piece than there are separators, empty pieces kept.
pub open spec fn split_on(s: Seq<char>, c: char) -> Seq<Seq<char>>
    decreases s.len(),
{
    if s.len() == 0 {
        seq![Seq::empty()]
    } else {
        let p = split_on(s.drop_last(), c);
        if s.last() == c {
            p.push(Seq::empty())
        } else {
            p.update(p.len() - 1, p.last().push(s.last()))
        }
    }
}

/// There is always at least one piece.
pub proof fn lemma_split_nonempty(s: Seq<char>, c: char)
    ensures
        split_on(s, c).len() >= 1,
    decreases s.len(),
{
    if s.len() > 0 {
        lemma_split_nonempty(s.drop_last(), c);
    }
}

/// `s.split(c)`, owned.
pub fn split_char(s: &str, c: char) -> (r: Vec<String>)
    ensures
        views(r@) == split_on(s@, c),
        r@.len() >= 1,
{
    let v = chars_of(s);
    let mut parts: Vec<String> = Vec::new();
    let mut cur = String::new();
    let n = v.len();
    for i in 0..n
        invariant
            n == v.len(),
            v@ == s@,
            views(parts@).push(cur@) == split_on(s@.take(i as int), c),
    {
        let ghost p = split_on(s@.take(i as int), c);
        assert(s@.take(i + 1).drop_last() =~= s@.take(i as int));
        assert(p.len() == parts@.len() + 1);
        if v[i] == c {
            let ghost before = parts@;
            parts.push(cur);
            cur = String::new();
            assert(views(parts@) =~= views(before).push(p.last()));
            assert(views(parts@).push(cur@) =~= p.push(Seq::empty()));
        } else {
            let ghost before = cur@;
            push_char(&mut cur, v[i]);
            assert(views(parts@).push(cur@) =~= p.update(p.len() - 1, p.last().push(v@[i as int])));
        }
    }
    assert(s@.take(n as int) =~= s@);
    let ghost before = parts@;
    parts.push(cur);
    assert(views(parts@) =~= views(before).push(cur@));
    proof {
        lemma_split_nonempty(s@, c);
    }
    parts
}

/// The trimmed, non-empty pieces among `ps`.
pub open spec fn kept_pieces(ps: Seq<Seq<char>>) -> Seq<Seq<char>>
    decreases ps.len(),
{
    if ps.len() == 0 {
        Seq::empty()
    } else if trim_seq(ps.last()).len() > 0 {
        kept_pieces(ps.drop_last()).push(trim_seq(ps.last()))
    } else {
        kept_pieces(ps.drop_last())
    }
}

/// The trimmed, non-empty pieces of `s` split on `c`
/// (`s.split(c).map(str::trim).filter(|p| !p.is_empty())`), owned.
pub fn kept_split(s: &str, c: char) -> (r: Vec<String>)
    ensures
        views(r@) == kept_pieces(split_on(s@, c)),
{
    let parts = split_char(s, c);
    let ghost ps = split_on(s@, c);
    let mut out: Vec<String> = Vec::new();
    let n = parts.len();
    for i in 0..n
        invariant
            n == parts.len(),
            views(parts@) == ps,
            views(out@) == kept_pieces(ps.take(i as int)),
    {
        assert(ps.take(i + 1).drop_last() =~= ps.take(i as int));
        assert(ps.take(i + 1).last() == parts@[i as int]@);
        let w = trim(parts[i].as_str());
        if !w.as_str().is_empty() {
            let ghost before = out@;
            out.push(w);
            assert(views(out@) =~= views(before).push(w@));
        }
    }
    assert(ps.take(n as int) =~= ps);
    out
}

} // verus!
