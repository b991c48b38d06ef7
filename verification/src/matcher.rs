//! Candidate ranking: matching history first (newest first), then concrete
//! shortcut rows by fuzzy score, filling only the slots history leaves.

use vstd::prelude::*;

use crate::alias::{
    alias_views, entry_label, entry_label_of, resolve, resolve_index, resolved, AliasDef,
    AliasView,
};
use crate::fuzzy::{score, score_of, MAX_NEEDLE};
use crate::search::{first_where, lemma_first_found, lemma_first_none, lemma_first_some};
use crate::storage::{decoded_text, entry_view, entry_views, EntryView, HistoryEntry, Store};
use crate::text::{cat3, chars_of, is_whitespace, is_ws, join, join_strings, owned, string_of, trim, trim_seq, views};

verus! {

/// A selectable completion candidate.
#[derive(Debug, Clone, PartialEq)]
pub enum Candidate {
    /// History entry at this index of the store's history.
    History { idx: usize },
    /// Concrete shortcut `key` of the alias named `alias`.
    Shortcut { alias: String, key: String },
}

/// A candidate as plain values.
pub enum Pick {
    History(int),
    Shortcut(Seq<char>, Seq<char>),
}

impl View for Candidate {
    type V = Pick;

    open spec fn view(&self) -> Pick {
        match self {
            Candidate::History { idx } => Pick::History(*idx as int),
            Candidate::Shortcut { alias, key } => Pick::Shortcut(alias@, key@),
        }
    }
}

/// The models of a candidate list.
pub open spec fn picks(v: Seq<Candidate>) -> Seq<Pick> {
    v.map_values(|c: Candidate| c@)
}

/// The label a history entry shows for its alias: the first trigger (or
/// name) of the alias it resolves to, else the stored alias text.
pub open spec fn label_for(defs: Seq<AliasView>, alias: Seq<char>) -> Seq<char> {
    match resolved(defs, alias) {
        Some(i) => entry_label_of(defs[i]),
        None => alias,
    }
}

/// The text a history entry is matched on: `"<label> <input>"`.
pub open spec fn entry_text(defs: Seq<AliasView>, e: EntryView) -> Seq<char> {
    label_for(defs, e.0) + " "@ + decoded_text(e.1)
}

/// Indices of the history entries matching `q`, in store order.
pub open spec fn history_hits(defs: Seq<AliasView>, h: Seq<EntryView>, q: Seq<char>) -> Seq<int>
    decreases h.len(),
{
    if h.len() == 0 {
        Seq::empty()
    } else {
        let prev = history_hits(defs, h.drop_last(), q);
        if score_of(q, entry_text(defs, h.last())) is Some {
            prev.push(h.len() - 1)
        } else {
            prev
        }
    }
}

/// History picks for a list of indices.
pub open spec fn history_picks(idx: Seq<int>) -> Seq<Pick> {
    idx.map_values(|i: int| Pick::History(i))
}

/// The first `n` history rows.
pub open spec fn recent(n: int) -> Seq<Pick> {
    Seq::new(n as nat, |i: int| Pick::History(i))
}

/// The text a shortcut row is matched on: the alias name, its triggers,
/// the key and the value, space-separated.
pub open spec fn row_text(d: AliasView, k: Seq<char>) -> Seq<char> {
    join(seq![d.name] + d.triggers + seq![k, d.shortcuts[k]], " "@)
}

/// A scored row.
pub type Scored = (int, Pick);

/// The matching shortcut rows of keys `ks` of alias `d`, in key order.
pub open spec fn key_rows(d: AliasView, ks: Seq<Seq<char>>, q: Seq<char>) -> Seq<Scored>
    decreases ks.len(),
{
    if ks.len() == 0 {
        Seq::empty()
    } else {
        let prev = key_rows(d, ks.drop_last(), q);
        match score_of(q, row_text(d, ks.last())) {
            Some(s) => prev.push((s, Pick::Shortcut(d.name, ks.last()))),
            None => prev,
        }
    }
}

/// The matching shortcut rows of every alias, alias by alias, keys in order.
pub open spec fn shortcut_rows(defs: Seq<AliasDef>, q: Seq<char>) -> Seq<Scored>
    decreases defs.len(),
{
    if defs.len() == 0 {
        Seq::empty()
    } else {
        shortcut_rows(defs.drop_last(), q) + key_rows(
            defs.last()@,
            defs.last().shortcuts.key_seq(),
            q,
        )
    }
}

/// Row `i` scores below `x`.
pub open spec fn below(s: Seq<Scored>, x: int) -> spec_fn(int) -> bool {
    |i: int| s[i].0 < x
}

/// `x` inserted after every row scoring at least as much.
pub open spec fn insert_ranked(s: Seq<Scored>, x: Scored) -> Seq<Scored> {
    match first_where(s.len() as int, below(s, x.0)) {
        Some(p) => s.insert(p, x),
        None => s.push(x),
    }
}

/// Rows by score, highest first; equal scores keep their order.
pub open spec fn ranked(s: Seq<Scored>) -> Seq<Scored>
    decreases s.len(),
{
    if s.len() == 0 {
        s
    } else {
        insert_ranked(ranked(s.drop_last()), s.last())
    }
}

/// The picks of scored rows.
pub open spec fn row_picks(s: Seq<Scored>) -> Seq<Pick> {
    s.map_values(|r: Scored| r.1)
}

/// The first `limit` of `s`.
pub open spec fn capped<A>(s: Seq<A>, limit: int) -> Seq<A> {
    if s.len() <= limit {
        s
    } else {
        s.take(limit)
    }
}

/// What [`candidates`] lists for `query`.
pub open spec fn ranked_candidates(
    defs: Seq<AliasDef>,
    h: Seq<EntryView>,
    query: Seq<char>,
    limit: int,
) -> Seq<Pick> {
    let q = trim_seq(query);
    if q.len() == 0 {
        recent(if h.len() <= limit {
            h.len() as int
        } else {
            limit
        })
    } else {
        capped(
            history_picks(history_hits(alias_views(defs), h, q)) + row_picks(
                ranked(shortcut_rows(defs, q)),
            ),
            limit,
        )
    }
}

/// Whether history entry `e` matches `q`.
fn entry_matches(defs: &Vec<AliasDef>, e: &HistoryEntry, q: &str) -> (r: bool)
    requires
        q@.len() <= MAX_NEEDLE,
    ensures
        r == (score_of(q@, entry_text(alias_views(defs@), entry_view(*e))) is Some),
{
    let label: String = match resolve_index(defs.as_slice(), e.alias.as_str()) {
        Some(i) => owned(entry_label(&defs[i])),
        None => e.alias.clone(),
    };
    let input = e.input();
    let text = cat3(label.as_str(), " ", input.as_str());
    score(q, text.as_str()).is_some()
}

/// Indices of the history entries matching `q`, in store order.
pub fn history_matches(defs: &Vec<AliasDef>, history: &Vec<HistoryEntry>, q: &str) -> (r: Vec<usize>)
    requires
        q@.len() <= MAX_NEEDLE,
    ensures
        r@.map_values(|i: usize| i as int) == history_hits(alias_views(defs@), entry_views(history@), q@),
        forall|j: int| 0 <= j < r@.len() ==> r@[j] < history@.len(),
{
    let ghost dv = alias_views(defs@);
    let ghost h = entry_views(history@);
    let mut out: Vec<usize> = Vec::new();
    let n = history.len();
    for i in 0..n
        invariant
            n == history.len(),
            h == entry_views(history@),
            dv == alias_views(defs@),
            q@.len() <= MAX_NEEDLE,
            out@.map_values(|i: usize| i as int) == history_hits(dv, h.take(i as int), q@),
            forall|j: int| 0 <= j < out@.len() ==> out@[j] < i,
    {
        assert(h.take(i + 1).drop_last() =~= h.take(i as int));
        assert(h.take(i + 1).last() == entry_view(history@[i as int]));
        let ghost before = out@;
        if entry_matches(defs, &history[i], q) {
            out.push(i);
            assert(out@.map_values(|i: usize| i as int) =~= before.map_values(|i: usize| i as int).push(
                i as int,
            ));
        }
    }
    assert(h.take(n as int) =~= h);
    out
}

/// A scored candidate row.
pub struct Row {
    pub score: i32,
    pub pick: Candidate,
}

/// The models of scored rows.
pub open spec fn scored(v: Seq<Row>) -> Seq<Scored> {
    v.map_values(|r: Row| (r.score as int, r.pick@))
}

/// Insert `x` after every row scoring at least as much.
fn insert_row(v: &mut Vec<Row>, x: Row)
    ensures
        scored(final(v)@) == insert_ranked(scored(old(v)@), (x.score as int, x.pick@)),
{
    let ghost s = scored(v@);
    let n = v.len();
    let mut p: usize = 0;
    while p < n && v[p].score >= x.score
        invariant
            n == v.len(),
            s == scored(v@),
            p <= n,
            forall|j: int| 0 <= j < p ==> !#[trigger] below(s, x.score as int)(j),
        decreases n - p,
    {
        assert(s[p as int].0 == v@[p as int].score);
        p += 1;
    }
    let ghost xs = (x.score as int, x.pick@);
    if p < n {
        assert(s[p as int].0 == v@[p as int].score);
        proof {
            lemma_first_found(n as int, below(s, x.score as int), p as int);
        }
        v.insert(p, x);
        assert(scored(v@) =~= s.insert(p as int, xs));
    } else {
        proof {
            lemma_first_none(n as int, below(s, x.score as int));
        }
        v.push(x);
        assert(scored(v@) =~= s.push(xs));
    }
}

/// The text a shortcut row of `def` is matched on.
fn row_text_exec(def: &AliasDef, key: &String, value: &String) -> (r: String)
    requires
        def@.shortcuts.dom().contains(key@),
        def@.shortcuts[key@] == value@,
    ensures
        r@ == row_text(def@, key@),
{
    let mut parts: Vec<String> = Vec::new();
    parts.push(def.name.clone());
    let nt = def.triggers.len();
    for j in 0..nt
        invariant
            nt == def.triggers.len(),
            views(parts@) == seq![def.name@] + views(def.triggers@).take(j as int),
    {
        let ghost before = parts@;
        parts.push(def.triggers[j].clone());
        assert(views(parts@) =~= views(before).push(def.triggers@[j as int]@));
        assert(views(def.triggers@).take(j + 1) =~= views(def.triggers@).take(j as int).push(
            def.triggers@[j as int]@,
        ));
    }
    assert(views(def.triggers@).take(nt as int) =~= views(def.triggers@));
    let ghost before = parts@;
    parts.push(key.clone());
    parts.push(value.clone());
    assert(views(parts@) =~= seq![def@.name] + def@.triggers + seq![key@, def@.shortcuts[key@]]);
    join_strings(&parts, " ")
}

/// Append the matching shortcut rows of `def`, key order, to `out`.
fn push_key_rows(out: &mut Vec<Row>, def: &AliasDef, q: &str)
    requires
        q@.len() <= MAX_NEEDLE,
    ensures
        scored(final(out)@) == scored(old(out)@) + key_rows(def@, def.shortcuts.key_seq(), q@),
{
    let keys = def.shortcuts.keys();
    let ghost ks = def.shortcuts.key_seq();
    let n = keys.len();
    for i in 0..n
        invariant
            n == keys.len(),
            views(keys@) == ks,
            ks == def.shortcuts.key_seq(),
            forall|k: Seq<char>|
                def@.shortcuts.dom().contains(k) <==> exists|j: int|
                    0 <= j < keys.len() && #[trigger] keys@[j]@ == k,
            q@.len() <= MAX_NEEDLE,
            scored(out@) == scored(old(out)@) + key_rows(def@, ks.take(i as int), q@),
    {
        let key = &keys[i];
        assert(ks[i as int] == key@);
        assert(def@.shortcuts.dom().contains(key@));
        assert(ks.take(i + 1).drop_last() =~= ks.take(i as int));
        assert(ks.take(i + 1).last() == key@);
        let value = match def.shortcuts.get(key.as_str()) {
            Some(v) => v.clone(),
            None => {
                assert(false);
                String::new()
            },
        };
        let text = row_text_exec(def, key, &value);
        let ghost before = out@;
        match score(q, text.as_str()) {
            Some(s) => {
                out.push(
                    Row {
                        score: s,
                        pick: Candidate::Shortcut { alias: def.name.clone(), key: key.clone() },
                    },
                );
                assert(scored(out@) =~= scored(before).push(
                    (s as int, Pick::Shortcut(def@.name, key@)),
                ));
            },
            None => {},
        }
    }
    assert(ks.take(n as int) =~= ks);
}

/// Every matching shortcut row, alias by alias.
fn all_shortcut_rows(defs: &Vec<AliasDef>, q: &str) -> (r: Vec<Row>)
    requires
        q@.len() <= MAX_NEEDLE,
    ensures
        scored(r@) == shortcut_rows(defs@, q@),
{
    let mut out: Vec<Row> = Vec::new();
    assert(scored(out@) =~= Seq::<Scored>::empty());
    let n = defs.len();
    for i in 0..n
        invariant
            n == defs.len(),
            q@.len() <= MAX_NEEDLE,
            scored(out@) == shortcut_rows(defs@.take(i as int), q@),
    {
        assert(defs@.take(i + 1).drop_last() =~= defs@.take(i as int));
        assert(defs@.take(i + 1).last() == defs@[i as int]);
        push_key_rows(&mut out, &defs[i], q);
    }
    assert(defs@.take(n as int) =~= defs@);
    out
}

/// Rows by score, highest first, equal scores in the order they came in.
fn rank_rows(rows: Vec<Row>) -> (r: Vec<Row>)
    ensures
        scored(r@) == ranked(scored(rows@)),
{
    let ghost s = scored(rows@);
    let mut out: Vec<Row> = Vec::new();
    let mut rest = rows;
    let n = rest.len();
    let mut i: usize = 0;
    while i < n
        invariant
            n == s.len(),
            i <= n,
            rest@.len() == n - i,
            scored(rest@) == s.skip(i as int),
            scored(out@) == ranked(s.take(i as int)),
        decreases n - i,
    {
        let ghost before = rest@;
        let x = rest.remove(0);
        assert(scored(before)[0] == s[i as int]);
        assert forall|k: int| 0 <= k < n - i - 1 implies #[trigger] scored(rest@)[k] == s.skip(i + 1)[k] by {
            assert(rest@[k] == before[k + 1]);
            assert(scored(before)[k + 1] == s.skip(i as int)[k + 1]);
        }
        assert(scored(rest@) =~= s.skip(i + 1));
        assert(s.take(i + 1).drop_last() =~= s.take(i as int));
        assert(s.take(i + 1).last() == s[i as int]);
        insert_row(&mut out, x);
        i += 1;
    }
    assert(s.take(n as int) =~= s);
    out
}

/// Rank candidates for `query` (whitespace-trimmed).
///
/// * Empty query: the most recent history entries only (newest first, no
///   shortcut rows), up to `limit`.
/// * Otherwise: history entries whose `"<label> <input>"` fuzzy-matches
///   `query` come first, in store order (newest first, no score sort); then
///   shortcut rows whose `"<alias> <triggers> <key> <value>"` matches, by
///   fuzzy score descending, ties by alias order then key order. Shortcut
///   rows only fill the slots history leaves.
pub fn candidates(store: &Store, defs: &Vec<AliasDef>, query: &str, limit: usize) -> (r: Vec<
    Candidate,
>)
    requires
        query@.len() <= MAX_NEEDLE,
    ensures
        picks(r@) == ranked_candidates(defs@, entry_views(store.history@), query@, limit as int),
{
    let history = &store.history;
    let q = trim(query);
    let n = history.len();
    if q.as_str().is_empty() {
        let m = if n <= limit {
            n
        } else {
            limit
        };
        let mut out: Vec<Candidate> = Vec::new();
        for i in 0..m
            invariant
                picks(out@) == recent(i as int),
        {
            let ghost before = out@;
            out.push(Candidate::History { idx: i });
            assert(picks(out@) =~= picks(before).push(Pick::History(i as int)));
            assert(recent(i as int).push(Pick::History(i as int)) =~= recent(i + 1));
        }
        return out;
    }
    proof {
        crate::text::lemma_trim_len(query@);
    }
    let hits = history_matches(defs, history, q.as_str());
    let rows = rank_rows(all_shortcut_rows(defs, q.as_str()));
    let ghost all = history_picks(history_hits(alias_views(defs@), entry_views(history@), q@))
        + row_picks(ranked(shortcut_rows(defs@, q@)));
    let mut out: Vec<Candidate> = Vec::new();
    let nh = hits.len();
    let mut i: usize = 0;
    while i < nh && out.len() < limit
        invariant
            nh == hits.len(),
            i <= nh,
            out@.len() == i,
            out@.len() <= limit,
            all == history_picks(hits@.map_values(|i: usize| i as int)) + row_picks(scored(rows@)),
            picks(out@) == all.take(i as int),
        decreases nh - i,
    {
        out.push(Candidate::History { idx: hits[i] });
        assert(all[i as int] == Pick::History(hits@[i as int] as int));
        assert(picks(out@) =~= all.take(i + 1));
        i += 1;
    }
    let nr = rows.len();
    let mut j: usize = 0;
    while j < nr && out.len() < limit
        invariant
            nh == hits.len(),
            nr == rows.len(),
            j <= nr,
            out@.len() <= limit,
            out@.len() == nh + j || (j == 0 && out@.len() == limit),
            out@.len() <= nh + j,
            all.len() == nh + nr,
            all == history_picks(hits@.map_values(|i: usize| i as int)) + row_picks(scored(rows@)),
            picks(out@) == all.take(out@.len() as int),
        decreases nr - j,
    {
        let k = out.len();
        out.push(dup_candidate(&rows[j].pick));
        assert(all[k as int] == rows@[j as int].pick@);
        assert(picks(out@) =~= all.take(k + 1));
        j += 1;
    }
    proof {
        if all.len() <= limit {
            assert(out@.len() == all.len());
            assert(all.take(all.len() as int) =~= all);
        } else {
            assert(out@.len() == limit);
        }
    }
    out
}

/// An independent copy of a candidate.
pub fn dup_candidate(c: &Candidate) -> (r: Candidate)
    ensures
        r@ == c@,
{
    match c {
        Candidate::History { idx } => Candidate::History { idx: *idx },
        Candidate::Shortcut { alias, key } => Candidate::Shortcut { alias: alias.clone(), key: key.clone() },
    }
}

/// Position `i` of `s` is whitespace.
pub open spec fn ws_at(s: Seq<char>) -> spec_fn(int) -> bool {
    |i: int| is_ws(s[i])
}

/// The shortcut rows of alias `d` for a typed `partial`: every key scoring
/// 0 when `partial` is empty, else the keys `partial` fuzzy-matches, in key
/// order.
pub open spec fn partial_rows(d: AliasView, ks: Seq<Seq<char>>, partial: Seq<char>) -> Seq<Scored>
    decreases ks.len(),
{
    if ks.len() == 0 {
        Seq::empty()
    } else {
        let prev = partial_rows(d, ks.drop_last(), partial);
        if partial.len() == 0 {
            prev.push((0, Pick::Shortcut(d.name, ks.last())))
        } else {
            match score_of(partial, ks.last()) {
                Some(s) => prev.push((s, Pick::Shortcut(d.name, ks.last()))),
                None => prev,
            }
        }
    }
}

/// What [`shortcut_candidates`] lists for a raw input `<trigger> <partial>`.
pub open spec fn shortcut_picks(defs: Seq<AliasDef>, input: Seq<char>, limit: int) -> Seq<Pick> {
    match first_where(input.len() as int, ws_at(input)) {
        None => Seq::empty(),
        Some(w) => match resolved(alias_views(defs), input.take(w)) {
            None => Seq::empty(),
            Some(i) => capped(
                row_picks(
                    ranked(
                        partial_rows(
                            defs[i]@,
                            defs[i].shortcuts.key_seq(),
                            trim_seq(input.skip(w + 1)),
                        ),
                    ),
                ),
                limit,
            ),
        },
    }
}

/// Concrete shortcut sub-candidates for a raw input of the form
/// `<trigger> <partial>`. A bare `br` (no whitespace yet) lists none, so
/// the normal ranking applies; once there is a whitespace the alias's
/// shortcuts take over, ranked by fuzzy score on the key (every key when the
/// partial is empty), ties by key order.
pub fn shortcut_candidates(defs: &Vec<AliasDef>, input: &str, limit: usize) -> (r: Vec<Candidate>)
    requires
        input@.len() <= MAX_NEEDLE,
    ensures
        picks(r@) == shortcut_picks(defs@, input@, limit as int),
{
    let v = chars_of(input);
    let n = v.len();
    let mut w: usize = 0;
    while w < n && !is_whitespace(v[w])
        invariant
            v@ == input@,
            n == v.len(),
            w <= n,
            forall|j: int| 0 <= j < w ==> !#[trigger] ws_at(input@)(j),
        decreases n - w,
    {
        w += 1;
    }
    if w == n {
        proof {
            lemma_first_none(n as int, ws_at(input@));
        }
        return Vec::new();
    }
    proof {
        lemma_first_found(n as int, ws_at(input@), w as int);
    }
    let head = string_of(&v, 0, w);
    assert(head@ =~= input@.take(w as int));
    let i = match resolve_index(defs.as_slice(), head.as_str()) {
        Some(i) => i,
        None => {
            return Vec::new();
        },
    };
    let def = &defs[i];
    let rest = string_of(&v, w + 1, n);
    assert(rest@ =~= input@.skip(w + 1));
    let partial = trim(rest.as_str());
    let keys = def.shortcuts.keys();
    let ghost ks = def.shortcuts.key_seq();
    let nk = keys.len();
    let mut rows: Vec<Row> = Vec::new();
    assert(scored(rows@) =~= Seq::<Scored>::empty());
    let empty = partial.as_str().is_empty();
    if !empty {
        proof {
            crate::text::lemma_trim_len(rest@);
        }
    }
    for k in 0..nk
        invariant
            nk == keys.len(),
            views(keys@) == ks,
            ks == def.shortcuts.key_seq(),
            empty == (partial@.len() == 0),
            partial@.len() <= rest@.len(),
            rest@.len() <= input@.len(),
            input@.len() <= MAX_NEEDLE,
            scored(rows@) == partial_rows(def@, ks.take(k as int), partial@),
    {
        let key = &keys[k];
        assert(ks[k as int] == key@);
        assert(ks.take(k + 1).drop_last() =~= ks.take(k as int));
        assert(ks.take(k + 1).last() == key@);
        let ghost before = rows@;
        if empty {
            rows.push(Row { score: 0, pick: Candidate::Shortcut { alias: def.name.clone(), key: key.clone() } });
            assert(scored(rows@) =~= scored(before).push((0, Pick::Shortcut(def@.name, key@))));
        } else {
            match score(partial.as_str(), key.as_str()) {
                Some(s) => {
                    rows.push(Row { score: s, pick: Candidate::Shortcut { alias: def.name.clone(), key: key.clone() } });
                    assert(scored(rows@) =~= scored(before).push((s as int, Pick::Shortcut(def@.name, key@))));
                },
                None => {},
            }
        }
    }
    assert(ks.take(nk as int) =~= ks);
    let ranked_rows = rank_rows(rows);
    let m = ranked_rows.len();
    let cap = if m <= limit {
        m
    } else {
        limit
    };
    let mut out: Vec<Candidate> = Vec::new();
    for j in 0..cap
        invariant
            cap <= m == ranked_rows.len(),
            picks(out@) == row_picks(scored(ranked_rows@)).take(j as int),
    {
        let ghost before = out@;
        out.push(dup_candidate(&ranked_rows[j].pick));
        assert(picks(out@) =~= picks(before).push(ranked_rows@[j as int].pick@));
        assert(row_picks(scored(ranked_rows@))[j as int] == ranked_rows@[j as int].pick@);
        assert(picks(out@) =~= row_picks(scored(ranked_rows@)).take(j + 1));
    }
    assert(row_picks(scored(ranked_rows@)).take(m as int) =~= row_picks(scored(ranked_rows@)));
    out
}

/// Scores never increase down the rows.
pub open spec fn by_score(s: Seq<Scored>) -> bool {
    forall|i: int, j: int| 0 <= i < j < s.len() ==> (#[trigger] s[i]).0 >= (#[trigger] s[j]).0
}

/// Ranking orders the rows by score, highest first, and keeps every row:
/// the ranked rows are the given ones, rearranged.
pub proof fn lemma_ranked_by_score(s: Seq<Scored>)
    ensures
        by_score(ranked(s)),
        ranked(s).to_multiset() == s.to_multiset(),
    decreases s.len(),
{
    if s.len() > 0 {
        let rest = s.drop_last();
        lemma_ranked_by_score(rest);
        let r = ranked(rest);
        let x = s.last();
        match first_where(r.len() as int, below(r, x.0)) {
            Some(p) => {
                lemma_first_some(r.len() as int, below(r, x.0));
                let t = r.insert(p, x);
                assert forall|i: int, j: int| 0 <= i < j < t.len() implies (#[trigger] t[i]).0 >= (#[trigger] t[j]).0 by {
                    if i < p && j == p {
                        assert(!below(r, x.0)(i));
                    } else if i < p && j > p {
                        assert(t[j] == r[j - 1]);
                    } else if i == p {
                        assert(t[j] == r[j - 1]);
                        assert(below(r, x.0)(p));
                        if j - 1 > p {
                            assert(r[p].0 >= r[j - 1].0);
                        }
                    } else if j < p {
                        assert(t[i] == r[i] && t[j] == r[j]);
                    } else {
                        assert(t[i] == r[i - 1] && t[j] == r[j - 1]);
                    }
                }
                vstd::seq_lib::to_multiset_insert(r, p, x);
            },
            None => {
                lemma_first_none_exact(r.len() as int, below(r, x.0));
                let t = r.push(x);
                assert forall|i: int, j: int| 0 <= i < j < t.len() implies (#[trigger] t[i]).0 >= (#[trigger] t[j]).0 by {
                    if j == r.len() {
                        assert(!below(r, x.0)(i));
                    } else {
                        assert(t[i] == r[i] && t[j] == r[j]);
                    }
                }
                vstd::seq_lib::to_multiset_build(r, x);
            },
        }
        assert(rest.push(x) =~= s);
        vstd::seq_lib::to_multiset_build(rest, x);
    }
}

/// The matching history indices increase, name entries of `h`, and each
/// names an entry that matches `q`.
pub proof fn lemma_history_hits(defs: Seq<AliasView>, h: Seq<EntryView>, q: Seq<char>)
    ensures
        forall|i: int, j: int|
            0 <= i < j < history_hits(defs, h, q).len() ==> #[trigger] history_hits(defs, h, q)[i]
                < #[trigger] history_hits(defs, h, q)[j],
        forall|i: int|
            0 <= i < history_hits(defs, h, q).len() ==> 0 <= #[trigger] history_hits(defs, h, q)[i] < h.len()
                && score_of(q, entry_text(defs, h[history_hits(defs, h, q)[i]])) is Some,
    decreases h.len(),
{
    if h.len() > 0 {
        lemma_history_hits(defs, h.drop_last(), q);
        let p = history_hits(defs, h.drop_last(), q);
        assert forall|i: int| 0 <= i < p.len() implies h[p[i]] == h.drop_last()[p[i]] by {}
    }
}

/// Shortcut rows only ever pick shortcuts.
proof fn lemma_key_rows_pick_shortcuts(d: AliasView, ks: Seq<Seq<char>>, q: Seq<char>)
    ensures
        forall|i: int| 0 <= i < key_rows(d, ks, q).len() ==> (#[trigger] key_rows(d, ks, q)[i]).1 is Shortcut,
    decreases ks.len(),
{
    if ks.len() > 0 {
        lemma_key_rows_pick_shortcuts(d, ks.drop_last(), q);
    }
}

proof fn lemma_shortcut_rows_pick_shortcuts(defs: Seq<AliasDef>, q: Seq<char>)
    ensures
        forall|i: int| 0 <= i < shortcut_rows(defs, q).len() ==> (#[trigger] shortcut_rows(defs, q)[i]).1 is Shortcut,
    decreases defs.len(),
{
    if defs.len() > 0 {
        lemma_shortcut_rows_pick_shortcuts(defs.drop_last(), q);
        let a = shortcut_rows(defs.drop_last(), q);
        let b = key_rows(defs.last()@, defs.last().shortcuts.key_seq(), q);
        lemma_key_rows_pick_shortcuts(defs.last()@, defs.last().shortcuts.key_seq(), q);
        assert forall|i: int| 0 <= i < (a + b).len() implies (#[trigger] (a + b)[i]).1 is Shortcut by {
            if i < a.len() {
                assert((a + b)[i] == a[i]);
            } else {
                assert((a + b)[i] == b[i - a.len()]);
            }
        }
    }
}

/// Partial-key rows only ever pick shortcuts.
proof fn lemma_partial_rows_pick_shortcuts(d: AliasView, ks: Seq<Seq<char>>, partial: Seq<char>)
    ensures
        forall|i: int|
            0 <= i < partial_rows(d, ks, partial).len() ==> (#[trigger] partial_rows(d, ks, partial)[i]).1 is Shortcut,
    decreases ks.len(),
{
    if ks.len() > 0 {
        lemma_partial_rows_pick_shortcuts(d, ks.drop_last(), partial);
    }
}

/// The `<alias> <partial>` list picks shortcuts only, at most `limit` of
/// them.
pub proof fn lemma_shortcut_picks_are_shortcuts(defs: Seq<AliasDef>, input: Seq<char>, limit: int)
    requires
        limit >= 0,
    ensures
        shortcut_picks(defs, input, limit).len() <= limit,
        forall|i: int|
            0 <= i < shortcut_picks(defs, input, limit).len() ==> (#[trigger] shortcut_picks(defs, input, limit)[i]) is Shortcut,
{
    match first_where(input.len() as int, ws_at(input)) {
        None => {},
        Some(w) => match resolved(alias_views(defs), input.take(w)) {
            None => {},
            Some(i) => {
                let rows = partial_rows(defs[i]@, defs[i].shortcuts.key_seq(), trim_seq(input.skip(w + 1)));
                lemma_partial_rows_pick_shortcuts(defs[i]@, defs[i].shortcuts.key_seq(), trim_seq(input.skip(w + 1)));
                lemma_ranked_by_score(rows);
                let rk = ranked(rows);
                assert forall|k: int| 0 <= k < rk.len() implies (#[trigger] rk[k]).1 is Shortcut by {
                    assert(rk.contains(rk[k]));
                    vstd::seq_lib::to_multiset_contains(rk, rk[k]);
                    vstd::seq_lib::to_multiset_contains(rows, rk[k]);
                    let m = choose|m: int| 0 <= m < rows.len() && rows[m] == rk[k];
                    assert(rows[m].1 is Shortcut);
                }
                let sp = row_picks(rk);
                let r = capped(sp, limit);
                assert forall|k: int| 0 <= k < r.len() implies #[trigger] r[k] is Shortcut by {
                    assert(r[k] == sp[k]);
                    assert(sp[k] == rk[k].1);
                }
            },
        },
    }
}

/// The candidate list: at most `limit` rows; for a blank query the newest
/// history entries in store order; else the matching history entries first,
/// in store order, then shortcut rows only.
pub proof fn lemma_candidates_shape(defs: Seq<AliasDef>, h: Seq<EntryView>, query: Seq<char>, limit: int)
    requires
        limit >= 0,
    ensures
        ranked_candidates(defs, h, query, limit).len() <= limit,
        trim_seq(query).len() == 0 ==> ranked_candidates(defs, h, query, limit) == recent(
            if h.len() <= limit {
                h.len() as int
            } else {
                limit
            },
        ),
        forall|i: int, j: int|
            0 <= i < j < ranked_candidates(defs, h, query, limit).len() && (#[trigger] ranked_candidates(
                defs,
                h,
                query,
                limit,
            )[j]) is History ==> (#[trigger] ranked_candidates(defs, h, query, limit)[i]) is History
                && ranked_candidates(defs, h, query, limit)[i]->History_0 < ranked_candidates(
                defs,
                h,
                query,
                limit,
            )[j]->History_0,
        forall|i: int|
            0 <= i < ranked_candidates(defs, h, query, limit).len() && (#[trigger] ranked_candidates(
                defs,
                h,
                query,
                limit,
            )[i]) is History ==> 0 <= ranked_candidates(defs, h, query, limit)[i]->History_0 < h.len(),
{
    let q = trim_seq(query);
    if q.len() > 0 {
        let hits = history_hits(alias_views(defs), h, q);
        lemma_history_hits(alias_views(defs), h, q);
        let rows = shortcut_rows(defs, q);
        lemma_shortcut_rows_pick_shortcuts(defs, q);
        lemma_ranked_by_score(rows);
        let rk = ranked(rows);
        assert forall|i: int| 0 <= i < rk.len() implies (#[trigger] rk[i]).1 is Shortcut by {
            assert(rk.contains(rk[i]));
            vstd::seq_lib::to_multiset_contains(rk, rk[i]);
            vstd::seq_lib::to_multiset_contains(rows, rk[i]);
            let k = choose|k: int| 0 <= k < rows.len() && rows[k] == rk[i];
            assert(rows[k].1 is Shortcut);
        }
        let hp = history_picks(hits);
        let sp = row_picks(rk);
        let all = hp + sp;
        assert forall|i: int| 0 <= i < all.len() && (#[trigger] all[i]) is History implies i < hp.len() by {
            if i >= hp.len() {
                assert(all[i] == sp[i - hp.len()]);
                assert(sp[i - hp.len()] == rk[i - hp.len()].1);
            }
        }
        let r = capped(all, limit);
        assert forall|i: int| 0 <= i < r.len() implies #[trigger] r[i] == all[i] by {}
    }
}

/// A key of `ks` whose row text the query matches gives a shortcut row.
proof fn lemma_key_rows_reach(d: AliasView, ks: Seq<Seq<char>>, q: Seq<char>, k: Seq<char>)
    requires
        ks.contains(k),
        score_of(q, row_text(d, k)) is Some,
    ensures
        exists|i: int| 0 <= i < key_rows(d, ks, q).len() && (#[trigger] key_rows(d, ks, q)[i]).1 == Pick::Shortcut(d.name, k),
    decreases ks.len(),
{
    let r = key_rows(d, ks, q);
    if ks.last() == k {
        let s = score_of(q, row_text(d, k))->0;
        assert(r[r.len() - 1].1 == Pick::Shortcut(d.name, k));
    } else {
        let j = choose|j: int| 0 <= j < ks.len() && ks[j] == k;
        assert(ks.drop_last()[j] == k);
        lemma_key_rows_reach(d, ks.drop_last(), q, k);
        let p = key_rows(d, ks.drop_last(), q);
        let i = choose|i: int| 0 <= i < p.len() && (#[trigger] p[i]).1 == Pick::Shortcut(d.name, k);
        assert(r[i] == p[i]);
    }
}

/// A shortcut row is matched on its alias's name, every trigger word, the
/// key and the value: when the query matches any one of them, each listed
/// key of the alias gives a shortcut row. So `open` reaches the `me` row
/// of an alias `gh` with the trigger `git-open`.
pub proof fn lemma_words_reach_rows(d: AliasView, ks: Seq<Seq<char>>, q: Seq<char>, k: Seq<char>, w: Seq<char>)
    requires
        ks.contains(k),
        d.shortcuts.dom().contains(k),
        w == d.name || d.triggers.contains(w) || w == k || w == d.shortcuts[k],
        score_of(q, w) is Some,
    ensures
        exists|i: int| 0 <= i < key_rows(d, ks, q).len() && (#[trigger] key_rows(d, ks, q)[i]).1 == Pick::Shortcut(d.name, k),
{
    let words = seq![d.name] + d.triggers + seq![k, d.shortcuts[k]];
    let j: int = if w == d.name {
        0
    } else if d.triggers.contains(w) {
        let t = choose|t: int| 0 <= t < d.triggers.len() && d.triggers[t] == w;
        1 + t
    } else if w == k {
        1 + d.triggers.len() as int
    } else {
        2 + d.triggers.len() as int
    };
    assert(words[j] == w);
    let a = crate::text::lemma_join_holds(words, " "@, j);
    crate::fuzzy::lemma_score_in_larger_text(q, w, row_text(d, k), a);
    lemma_key_rows_reach(d, ks, q, k);
}

/// The same over every alias: a query matching a word of alias `defs[a]`
/// lists a shortcut row for each of its keys.
pub proof fn lemma_words_reach_shortcut_rows(defs: Seq<AliasDef>, q: Seq<char>, a: int, k: Seq<char>, w: Seq<char>)
    requires
        0 <= a < defs.len(),
        defs[a].shortcuts.key_seq().contains(k),
        defs[a]@.shortcuts.dom().contains(k),
        w == defs[a]@.name || defs[a]@.triggers.contains(w) || w == k || w == defs[a]@.shortcuts[k],
        score_of(q, w) is Some,
    ensures
        exists|i: int|
            0 <= i < shortcut_rows(defs, q).len() && (#[trigger] shortcut_rows(defs, q)[i]).1 == Pick::Shortcut(defs[a]@.name, k),
    decreases defs.len(),
{
    let rest = shortcut_rows(defs.drop_last(), q);
    let last = key_rows(defs.last()@, defs.last().shortcuts.key_seq(), q);
    let all = shortcut_rows(defs, q);
    assert(all == rest + last);
    if a == defs.len() - 1 {
        lemma_words_reach_rows(defs.last()@, defs.last().shortcuts.key_seq(), q, k, w);
        let i = choose|i: int| 0 <= i < last.len() && (#[trigger] last[i]).1 == Pick::Shortcut(defs[a]@.name, k);
        assert(all[rest.len() + i] == last[i]);
    } else {
        assert(defs.drop_last()[a] == defs[a]);
        lemma_words_reach_shortcut_rows(defs.drop_last(), q, a, k, w);
        let i = choose|i: int| 0 <= i < rest.len() && (#[trigger] rest[i]).1 == Pick::Shortcut(defs[a]@.name, k);
        assert(all[i] == rest[i]);
    }
}

/// The rows scoring exactly `v`.
pub open spec fn scoring(v: int) -> spec_fn(Scored) -> bool {
    |r: Scored| r.0 == v
}

/// Ranking is stable: the rows of any one score come out in the order they
/// went in.
pub proof fn lemma_ranked_is_stable(s: Seq<Scored>, v: int)
    ensures
        ranked(s).filter(scoring(v)) == s.filter(scoring(v)),
    decreases s.len(),
{
    if s.len() > 0 {
        let rest = s.drop_last();
        let x = s.last();
        let pred = scoring(v);
        lemma_ranked_is_stable(rest, v);
        lemma_ranked_by_score(rest);
        let r = ranked(rest);
        assert(rest.push(x) =~= s);
        rest.lemma_filter_push(x, pred);
        r.lemma_filter_push(x, pred);
        match first_where(r.len() as int, below(r, x.0)) {
            Some(p) => {
                lemma_first_some(r.len() as int, below(r, x.0));
                let head = r.take(p);
                let tail = r.skip(p);
                assert(r.insert(p, x) =~= head.push(x) + tail);
                assert(r =~= head + tail);
                Seq::filter_distributes_over_add(head.push(x), tail, pred);
                Seq::filter_distributes_over_add(head, tail, pred);
                head.lemma_filter_push(x, pred);
                if x.0 == v {
                    assert(below(r, x.0)(p));
                    assert forall|k: int| 0 <= k < tail.len() implies !pred(#[trigger] tail[k]) by {
                        assert(tail[k] == r[p + k]);
                        if k > 0 {
                            assert(r[p].0 >= r[p + k].0);
                        }
                    }
                    assert(tail.all(|y: Scored| !pred(y)));
                    tail.lemma_all_neg_filter_empty(pred);
                    assert(tail.filter(pred) =~= Seq::<Scored>::empty());
                    assert(head.filter(pred) + tail.filter(pred) =~= head.filter(pred));
                    assert(head.push(x).filter(pred) + tail.filter(pred) =~= head.filter(pred).push(x));
                } else {
                    assert(head.filter(pred) + tail.filter(pred) == r.filter(pred));
                }
            },
            None => {},
        }
    }
}

/// With no first position, no position holds.
proof fn lemma_first_none_exact(n: int, p: spec_fn(int) -> bool)
    requires
        first_where(n, p) is None,
    ensures
        forall|j: int| 0 <= j < n ==> !#[trigger] p(j),
{
    assert forall|j: int| 0 <= j < n implies !#[trigger] p(j) by {
        if p(j) {
            lemma_least(n, p, j);
        }
    }
}

/// A position that holds yields a first one.
proof fn lemma_least(n: int, p: spec_fn(int) -> bool, j: int)
    requires
        0 <= j < n,
        p(j),
    ensures
        first_where(n, p) is Some,
    decreases j,
{
    if forall|k: int| 0 <= k < j ==> !#[trigger] p(k) {
        lemma_first_found(n, p, j);
    } else {
        let k = choose|k: int| 0 <= k < j && #[trigger] p(k);
        lemma_least(n, p, k);
    }
}

} // verus!
