//! History recording on top of [`crate::storage::Store`].

use vstd::prelude::*;

use crate::storage::{
    encoded, entry_view, entry_views, EntryView, HistoryEntry, Store, MAX_HISTORY,
};
use crate::text::eq_str;

verus! {

/// Entry `e` is the run of `alias` with encoded input `enc`.
pub open spec fn same_key(e: EntryView, alias: Seq<char>, enc: Seq<char>) -> bool {
    e.0 == alias && e.1 == enc
}

/// `h` without the entries for `alias` + `enc`, order kept.
pub open spec fn without(h: Seq<EntryView>, alias: Seq<char>, enc: Seq<char>) -> Seq<EntryView>
    decreases h.len(),
{
    if h.len() == 0 {
        h
    } else {
        let r = without(h.drop_last(), alias, enc);
        if same_key(h.last(), alias, enc) {
            r
        } else {
            r.push(h.last())
        }
    }
}

/// The history after recording a run: the fresh entry first, any older
/// entry with the same alias and input dropped, capped at [`MAX_HISTORY`].
pub open spec fn recorded(h: Seq<EntryView>, alias: Seq<char>, input: Seq<char>, ts: u64) -> Seq<
    EntryView,
> {
    let t = seq![(alias, encoded(input), ts)] + without(h, alias, encoded(input));
    if t.len() <= MAX_HISTORY {
        t
    } else {
        t.take(MAX_HISTORY as int)
    }
}

/// Record an execution into `store.history`.
///
/// Dedup is by alias and stored input: an existing entry with the same key
/// is removed first. The fresh entry is inserted at index 0 (newest first)
/// and the list is truncated to [`MAX_HISTORY`].
pub fn record(store: &mut Store, alias: &str, input: &str, ts: u64)
    ensures
        entry_views(final(store).history@) == recorded(
            entry_views(old(store).history@),
            alias@,
            input@,
            ts,
        ),
        final(store).config == old(store).config,
        final(store).aliases == old(store).aliases,
        final(store).version == old(store).version,
        final(store).from_newer_version == old(store).from_newer_version,
        final(store).load_notice == old(store).load_notice,
{
    let entry = HistoryEntry::new(alias, input, ts);
    let ghost h = entry_views(store.history@);
    let ghost e = entry_view(entry);
    let ghost enc = encoded(input@);
    // Drop every entry with the same key, in place: `i` entries are kept so
    // far, and the unexamined ones follow them.
    let mut i: usize = 0;
    let ghost mut k: int = 0;
    while i < store.history.len()
        invariant
            0 <= k <= h.len(),
            i <= store.history.len(),
            e == (alias@, enc, ts),
            entry.alias@ == alias@,
            entry.input_b64@ == enc,
            entry_views(store.history@) == without(h.take(k), alias@, enc) + h.skip(k),
            i == without(h.take(k), alias@, enc).len(),
            store.config == old(store).config,
            store.aliases == old(store).aliases,
            store.version == old(store).version,
            store.from_newer_version == old(store).from_newer_version,
            store.load_notice == old(store).load_notice,
            h == entry_views(old(store).history@),
        decreases h.len() - k,
    {
        let ghost kept = without(h.take(k), alias@, enc);
        proof {
            assert(h.take(k + 1).drop_last() =~= h.take(k));
            assert(entry_views(store.history@)[i as int] == h[k]);
            assert(h.take(k + 1).last() == h[k]);
        }
        if store.history[i].alias == entry.alias && store.history[i].input_b64 == entry.input_b64 {
            let ghost before = entry_views(store.history@);
            store.history.remove(i);
            proof {
                assert(entry_views(store.history@) =~= before.remove(i as int));
                assert(before.remove(i as int) =~= kept + h.skip(k + 1));
                k = k + 1;
            }
        } else {
            proof {
                assert(kept.push(h[k]) + h.skip(k + 1) =~= kept + h.skip(k));
                k = k + 1;
            }
            i += 1;
        }
    }
    proof {
        assert(k == h.len()) by {
            if k < h.len() {
                assert(entry_views(store.history@).len() > i);
            }
        }
        assert(h.take(k) =~= h);
        assert(h.skip(k) =~= Seq::<EntryView>::empty());
    }
    let ghost rest = entry_views(store.history@);
    assert(rest =~= without(h, alias@, enc));
    store.history.insert(0, entry);
    assert(entry_views(store.history@) =~= seq![e] + rest);
    let ghost t = seq![e] + rest;
    store.history.truncate(MAX_HISTORY);
    proof {
        if t.len() > MAX_HISTORY {
            assert(entry_views(store.history@) =~= t.take(MAX_HISTORY as int));
        } else {
            assert(entry_views(store.history@) =~= t);
        }
    }
}

/// No two entries share alias and stored input.
pub open spec fn unique_keys(h: Seq<EntryView>) -> bool {
    forall|i: int, j: int|
        0 <= i < j < h.len() ==> !(#[trigger] h[i].0 == #[trigger] h[j].0 && h[i].1 == h[j].1)
}

proof fn lemma_without(h: Seq<EntryView>, alias: Seq<char>, enc: Seq<char>)
    ensures
        forall|i: int| 0 <= i < without(h, alias, enc).len() ==> !same_key(
            #[trigger] without(h, alias, enc)[i],
            alias,
            enc,
        ),
        forall|i: int|
            0 <= i < without(h, alias, enc).len() ==> h.contains(#[trigger] without(h, alias, enc)[i]),
        without(h, alias, enc).len() <= h.len(),
        unique_keys(h) ==> unique_keys(without(h, alias, enc)),
    decreases h.len(),
{
    if h.len() > 0 {
        let p = h.drop_last();
        lemma_without(p, alias, enc);
        let r = without(p, alias, enc);
        assert forall|i: int| 0 <= i < r.len() implies h.contains(#[trigger] r[i]) by {
            assert(p.contains(r[i]));
            let k = choose|k: int| 0 <= k < p.len() && p[k] == r[i];
            assert(h[k] == r[i]);
        }
        if !same_key(h.last(), alias, enc) {
            assert(h[h.len() - 1] == h.last());
            let w = r.push(h.last());
            if unique_keys(h) {
                assert forall|i: int, j: int|
                    0 <= i < j < w.len() implies !(#[trigger] w[i].0 == #[trigger] w[j].0 && w[i].1
                    == w[j].1) by {
                    if j == w.len() - 1 {
                        assert(p.contains(r[i]));
                        let k = choose|k: int| 0 <= k < p.len() && p[k] == r[i];
                        assert(h[k] == r[i]);
                        assert(k < h.len() - 1);
                    } else {
                        assert(w[i] == r[i] && w[j] == r[j]);
                        assert(unique_keys(p)) by {
                            assert forall|a: int, b: int|
                                0 <= a < b < p.len() implies !(#[trigger] p[a].0 == #[trigger] p[b].0
                                && p[a].1 == p[b].1) by {
                                assert(p[a] == h[a] && p[b] == h[b]);
                            }
                        }
                    }
                }
            }
            assert forall|i: int| 0 <= i < w.len() implies h.contains(#[trigger] w[i]) by {
                if i == w.len() - 1 {
                    assert(h[h.len() - 1] == w[i]);
                } else {
                    assert(w[i] == r[i]);
                }
            }
        } else {
            if unique_keys(h) {
                assert(unique_keys(p)) by {
                    assert forall|a: int, b: int|
                        0 <= a < b < p.len() implies !(#[trigger] p[a].0 == #[trigger] p[b].0 && p[a].1
                        == p[b].1) by {
                        assert(p[a] == h[a] && p[b] == h[b]);
                    }
                }
            }
        }
    }
}

/// Recording keeps the history free of duplicate runs and within
/// [`MAX_HISTORY`], and puts the fresh run first.
pub proof fn lemma_record_keeps_history_sound(
    h: Seq<EntryView>,
    alias: Seq<char>,
    input: Seq<char>,
    ts: u64,
)
    requires
        unique_keys(h),
    ensures
        unique_keys(recorded(h, alias, input, ts)),
        recorded(h, alias, input, ts).len() <= MAX_HISTORY,
        recorded(h, alias, input, ts).len() >= 1,
        recorded(h, alias, input, ts)[0] == (alias, encoded(input), ts),
        forall|i: int|
            1 <= i < recorded(h, alias, input, ts).len() ==> !same_key(
                #[trigger] recorded(h, alias, input, ts)[i],
                alias,
                encoded(input),
            ),
{
    let enc = encoded(input);
    lemma_without(h, alias, enc);
    let w = without(h, alias, enc);
    let t = seq![(alias, enc, ts)] + w;
    assert forall|i: int, j: int|
        0 <= i < j < t.len() implies !(#[trigger] t[i].0 == #[trigger] t[j].0 && t[i].1 == t[j].1) by {
        if i == 0 {
            assert(t[j] == w[j - 1]);
            assert(!same_key(w[j - 1], alias, enc));
        } else {
            assert(t[i] == w[i - 1] && t[j] == w[j - 1]);
        }
    }
    assert forall|i: int| 1 <= i < t.len() implies !same_key(#[trigger] t[i], alias, enc) by {
        assert(t[i] == w[i - 1]);
    }
    let r = recorded(h, alias, input, ts);
    if t.len() > MAX_HISTORY {
        assert forall|i: int, j: int|
            0 <= i < j < r.len() implies !(#[trigger] r[i].0 == #[trigger] r[j].0 && r[i].1 == r[j].1) by {
            assert(r[i] == t[i] && r[j] == t[j]);
        }
        assert forall|i: int| 1 <= i < r.len() implies !same_key(#[trigger] r[i], alias, enc) by {
            assert(r[i] == t[i]);
        }
    }
}

} // verus!
