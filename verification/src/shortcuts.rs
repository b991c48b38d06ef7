//! The shortcut table of an alias: shortcut key -> value, kept in key order
//! (the order `String` sorts in), with at most one value per key.
//!
//! Its model is a finite map from key to value ([`ShortcutMap::view`]); the
//! stored order is what [`ShortcutMap::keys`] lists, strictly increasing.

use vstd::prelude::*;

use crate::order::{
    compare, lemma_lt_irreflexive, lemma_lt_total, lemma_lt_transitive, lemma_sorted_by_set, seq_lt,
    strictly_sorted,
};
use crate::text::{chars_of, views};

verus! {

/// Key/value pairs as plain char sequences.
pub type Pairs = Seq<(Seq<char>, Seq<char>)>;

/// The keys of `s`, in order.
pub open spec fn keys_of(s: Pairs) -> Seq<Seq<char>> {
    s.map_values(|p: (Seq<char>, Seq<char>)| p.0)
}

/// Pairs ordered strictly by key (so no key occurs twice).
pub open spec fn sorted_pairs(s: Pairs) -> bool {
    forall|i: int, j: int| 0 <= i < j < s.len() ==> seq_lt(#[trigger] s[i].0, #[trigger] s[j].0)
}

/// Owned string pairs, as char sequences.
pub open spec fn view_pairs(e: Seq<(String, String)>) -> Pairs {
    e.map_values(|p: (String, String)| (p.0@, p.1@))
}

/// Some position holding key `k`.
pub open spec fn index_of_key(s: Pairs, k: Seq<char>) -> int {
    choose|i: int| 0 <= i < s.len() && #[trigger] s[i].0 == k
}

/// The map the pairs spell: each key to the value stored beside it.
pub open spec fn pairs_map(s: Pairs) -> Map<Seq<char>, Seq<char>> {
    Map::new(
        |k: Seq<char>| exists|i: int| 0 <= i < s.len() && #[trigger] s[i].0 == k,
        |k: Seq<char>| s[index_of_key(s, k)].1,
    )
}

proof fn lemma_unique(s: Pairs, i: int, j: int)
    requires
        sorted_pairs(s),
        0 <= i < s.len(),
        0 <= j < s.len(),
        s[i].0 == s[j].0,
    ensures
        i == j,
{
    if i < j {
        assert(seq_lt(s[i].0, s[j].0));
        lemma_lt_irreflexive(s[i].0);
    } else if j < i {
        assert(seq_lt(s[j].0, s[i].0));
        lemma_lt_irreflexive(s[i].0);
    }
}

proof fn lemma_at(s: Pairs, i: int)
    requires
        sorted_pairs(s),
        0 <= i < s.len(),
    ensures
        pairs_map(s).dom().contains(s[i].0),
        pairs_map(s)[s[i].0] == s[i].1,
{
    let k = s[i].0;
    assert(exists|j: int| 0 <= j < s.len() && #[trigger] s[j].0 == k) by {
        assert(s[i].0 == k);
    }
    let j = index_of_key(s, k);
    lemma_unique(s, i, j);
    assert(pairs_map(s).dom().contains(k));
    assert(pairs_map(s)[k] == s[j].1);
}

proof fn lemma_absent(s: Pairs, k: Seq<char>)
    requires
        forall|i: int| 0 <= i < s.len() ==> #[trigger] s[i].0 != k,
    ensures
        !pairs_map(s).dom().contains(k),
{
}

proof fn lemma_keys_sorted(s: Pairs)
    requires
        sorted_pairs(s),
    ensures
        strictly_sorted(keys_of(s)),
{
    assert forall|i: int, j: int| 0 <= i < j < keys_of(s).len() implies seq_lt(
        #[trigger] keys_of(s)[i],
        #[trigger] keys_of(s)[j],
    ) by {
        assert(keys_of(s)[i] == s[i].0);
        assert(keys_of(s)[j] == s[j].0);
    }
}

proof fn lemma_insert_value(s: Pairs, p: int, k: Seq<char>, v: Seq<char>, x: Seq<char>)
    requires
        sorted_pairs(s),
        sorted_pairs(s.insert(p, (k, v))),
        0 <= p <= s.len(),
        pairs_map(s.insert(p, (k, v))).dom().contains(x),
        x != k ==> pairs_map(s).dom().contains(x),
    ensures
        pairs_map(s.insert(p, (k, v)))[x] == pairs_map(s).insert(k, v)[x],
{
    let t = s.insert(p, (k, v));
    if x == k {
        assert(t[p] == (k, v));
        lemma_at(t, p);
    } else {
        let i = choose|i: int| 0 <= i < s.len() && #[trigger] s[i].0 == x;
        lemma_at(s, i);
        if i < p {
            assert(t[i] == s[i]);
            lemma_at(t, i);
        } else {
            assert(t[i + 1] == s[i]);
            lemma_at(t, i + 1);
        }
    }
}

/// Inserting a new key at its sorted position keeps the pairs sorted and
/// adds exactly that key to the map.
proof fn lemma_insert(s: Pairs, p: int, k: Seq<char>, v: Seq<char>)
    requires
        sorted_pairs(s),
        0 <= p <= s.len(),
        forall|j: int| 0 <= j < p ==> seq_lt(#[trigger] s[j].0, k),
        p < s.len() ==> seq_lt(k, s[p].0),
    ensures
        sorted_pairs(s.insert(p, (k, v))),
        pairs_map(s.insert(p, (k, v))) == pairs_map(s).insert(k, v),
{
    let t = s.insert(p, (k, v));
    assert forall|i: int, j: int| 0 <= i < j < t.len() implies seq_lt(
        #[trigger] t[i].0,
        #[trigger] t[j].0,
    ) by {
        if j < p {
            assert(t[i] == s[i] && t[j] == s[j]);
        } else if j == p {
            assert(t[i] == s[i]);
        } else if i == p {
            assert(t[j] == s[j - 1]);
            if j - 1 > p {
                lemma_lt_transitive(k, s[p].0, s[j - 1].0);
            }
        } else if i < p {
            assert(t[i] == s[i] && t[j] == s[j - 1]);
            assert(seq_lt(s[i].0, k));
            assert(seq_lt(k, s[p].0));
            lemma_lt_transitive(s[i].0, k, s[p].0);
            if j - 1 > p {
                lemma_lt_transitive(s[i].0, s[p].0, s[j - 1].0);
            }
        } else {
            assert(t[i] == s[i - 1] && t[j] == s[j - 1]);
        }
    }
    let m = pairs_map(s).insert(k, v);
    assert forall|x: Seq<char>| #[trigger] pairs_map(t).dom().contains(x) <==> m.dom().contains(x) by {
        if pairs_map(t).dom().contains(x) {
            let i = choose|i: int| 0 <= i < t.len() && #[trigger] t[i].0 == x;
            if i < p {
                assert(s[i].0 == x);
            } else if i > p {
                assert(s[i - 1].0 == x);
            }
        }
        if m.dom().contains(x) && x != k {
            let i = choose|i: int| 0 <= i < s.len() && #[trigger] s[i].0 == x;
            if i < p {
                assert(t[i].0 == x);
            } else {
                assert(t[i + 1].0 == x);
            }
        }
        if x == k {
            assert(t[p].0 == x);
        }
    }
    assert forall|x: Seq<char>| #[trigger] pairs_map(t).dom().contains(x) implies pairs_map(t)[x]
        == m[x] by {
        lemma_insert_value(s, p, k, v, x);
    }
    assert(pairs_map(t) =~= m);
}

/// Replacing the value stored at an existing key.
proof fn lemma_update(s: Pairs, p: int, v: Seq<char>)
    requires
        sorted_pairs(s),
        0 <= p < s.len(),
    ensures
        sorted_pairs(s.update(p, (s[p].0, v))),
        pairs_map(s.update(p, (s[p].0, v))) == pairs_map(s).insert(s[p].0, v),
{
    let k = s[p].0;
    let t = s.update(p, (k, v));
    assert forall|i: int, j: int| 0 <= i < j < t.len() implies seq_lt(
        #[trigger] t[i].0,
        #[trigger] t[j].0,
    ) by {
        assert(t[i].0 == s[i].0 && t[j].0 == s[j].0);
    }
    let m = pairs_map(s).insert(k, v);
    lemma_at(s, p);
    assert forall|x: Seq<char>| #[trigger] pairs_map(t).dom().contains(x) <==> m.dom().contains(x) by {
        if pairs_map(t).dom().contains(x) {
            let i = choose|i: int| 0 <= i < t.len() && #[trigger] t[i].0 == x;
            assert(s[i].0 == x);
        }
        if m.dom().contains(x) {
            if x == k {
                assert(t[p].0 == x);
            } else {
                let i = choose|i: int| 0 <= i < s.len() && #[trigger] s[i].0 == x;
                assert(t[i].0 == x);
            }
        }
    }
    assert forall|x: Seq<char>| #[trigger] pairs_map(t).dom().contains(x) implies pairs_map(t)[x]
        == m[x] by {
        let i = choose|i: int| 0 <= i < t.len() && #[trigger] t[i].0 == x;
        lemma_at(t, i);
        if i != p {
            assert(t[i] == s[i]);
            lemma_at(s, i);
            if x == k {
                lemma_unique(s, i, p);
            }
        }
    }
    assert(pairs_map(t) =~= m);
}

/// Dropping the pair stored at position `p`.
proof fn lemma_remove(s: Pairs, p: int)
    requires
        sorted_pairs(s),
        0 <= p < s.len(),
    ensures
        sorted_pairs(s.remove(p)),
        pairs_map(s.remove(p)) == pairs_map(s).remove(s[p].0),
{
    let k = s[p].0;
    let t = s.remove(p);
    assert forall|i: int, j: int| 0 <= i < j < t.len() implies seq_lt(
        #[trigger] t[i].0,
        #[trigger] t[j].0,
    ) by {
        let i2 = if i < p {
            i
        } else {
            i + 1
        };
        let j2 = if j < p {
            j
        } else {
            j + 1
        };
        assert(t[i] == s[i2] && t[j] == s[j2]);
    }
    let m = pairs_map(s).remove(k);
    assert forall|x: Seq<char>| #[trigger] pairs_map(t).dom().contains(x) <==> m.dom().contains(x) by {
        if pairs_map(t).dom().contains(x) {
            let i = choose|i: int| 0 <= i < t.len() && #[trigger] t[i].0 == x;
            let i2 = if i < p {
                i
            } else {
                i + 1
            };
            assert(s[i2].0 == x);
            if x == k {
                lemma_unique(s, i2, p);
            }
        }
        if m.dom().contains(x) {
            let i = choose|i: int| 0 <= i < s.len() && #[trigger] s[i].0 == x;
            assert(i != p);
            if i < p {
                assert(t[i].0 == x);
            } else {
                assert(t[i - 1].0 == x);
            }
        }
    }
    assert forall|x: Seq<char>| #[trigger] pairs_map(t).dom().contains(x) implies pairs_map(t)[x]
        == m[x] by {
        let i = choose|i: int| 0 <= i < t.len() && #[trigger] t[i].0 == x;
        lemma_at(t, i);
        let i2 = if i < p {
            i
        } else {
            i + 1
        };
        assert(t[i] == s[i2]);
        lemma_at(s, i2);
    }
    assert(pairs_map(t) =~= m);
}

/// The keys of sorted pairs are exactly the map's domain, each listed once.
proof fn lemma_domain(s: Pairs)
    requires
        sorted_pairs(s),
    ensures
        keys_of(s).no_duplicates(),
        keys_of(s).to_set() == pairs_map(s).dom(),
        pairs_map(s).dom().finite(),
        pairs_map(s).dom().len() == s.len(),
{
    assert(keys_of(s).no_duplicates()) by {
        assert forall|i: int, j: int|
            0 <= i < keys_of(s).len() && 0 <= j < keys_of(s).len() && i != j implies keys_of(
            s,
        )[i] != keys_of(s)[j] by {
            if keys_of(s)[i] == keys_of(s)[j] {
                lemma_unique(s, i, j);
            }
        }
    }
    assert forall|x: Seq<char>| #[trigger] keys_of(s).to_set().contains(x) <==> pairs_map(
        s,
    ).dom().contains(x) by {
        if keys_of(s).to_set().contains(x) {
            let i = choose|i: int| 0 <= i < keys_of(s).len() && keys_of(s)[i] == x;
            assert(s[i].0 == x);
        }
        if pairs_map(s).dom().contains(x) {
            let i = choose|i: int| 0 <= i < s.len() && #[trigger] s[i].0 == x;
            assert(keys_of(s)[i] == x);
            assert(keys_of(s).contains(x));
        }
    }
    assert(keys_of(s).to_set() =~= pairs_map(s).dom());
    keys_of(s).unique_seq_to_set();
    vstd::seq_lib::seq_to_set_is_finite(keys_of(s));
}

/// The keys of a table in increasing order: the one strictly sorted list
/// that holds exactly its domain.
pub open spec fn sorted_keys(m: Map<Seq<char>, Seq<char>>) -> Seq<Seq<char>> {
    choose|s: Seq<Seq<char>>| strictly_sorted(s) && s.to_set() == m.dom()
}

/// Sorted pairs list their keys in the order [`sorted_keys`] gives.
proof fn lemma_sorted_keys(s: Pairs)
    requires
        sorted_pairs(s),
    ensures
        keys_of(s) == sorted_keys(pairs_map(s)),
{
    lemma_domain(s);
    lemma_keys_sorted(s);
    let m = pairs_map(s);
    assert(strictly_sorted(keys_of(s)) && keys_of(s).to_set() == m.dom());
    let c = sorted_keys(m);
    lemma_sorted_by_set(keys_of(s), c);
}

/// Shortcut key -> value, ordered by key.
#[derive(Debug, PartialEq)]
pub struct ShortcutMap {
    entries: Vec<(String, String)>,
}

impl ShortcutMap {
    /// The stored pairs, as char sequences, in key order.
    pub closed spec fn pairs(&self) -> Pairs {
        view_pairs(self.entries@)
    }

    /// The keys in increasing order.
    pub open spec fn key_seq(&self) -> Seq<Seq<char>> {
        sorted_keys(self@)
    }

    #[verifier::type_invariant]
    closed spec fn sorted(&self) -> bool {
        sorted_pairs(self.pairs())
    }
}

impl View for ShortcutMap {
    type V = Map<Seq<char>, Seq<char>>;

    closed spec fn view(&self) -> Map<Seq<char>, Seq<char>> {
        pairs_map(self.pairs())
    }
}

impl ShortcutMap {
    /// An empty table.
    pub fn new() -> (m: Self)
        ensures
            m@ == Map::<Seq<char>, Seq<char>>::empty(),
    {
        let m = ShortcutMap { entries: Vec::new() };
        assert(m@ =~= Map::<Seq<char>, Seq<char>>::empty());
        m
    }

    /// Number of keys.
    pub fn len(&self) -> (n: usize)
        ensures
            self@.dom().finite(),
            n == self@.dom().len(),
    {
        proof {
            use_type_invariant(self);
            lemma_domain(self.pairs());
        }
        self.entries.len()
    }

    /// No key at all.
    pub fn is_empty(&self) -> (b: bool)
        ensures
            b <==> self@.dom() == Set::<Seq<char>>::empty(),
    {
        proof {
            use_type_invariant(self);
            lemma_domain(self.pairs());
            if self.entries.len() > 0 {
                lemma_at(self.pairs(), 0);
            }
        }
        let b = self.entries.len() == 0;
        proof {
            if b {
                assert(self@.dom() =~= Set::<Seq<char>>::empty());
            } else {
                assert(self@.dom().contains(self.pairs()[0].0));
            }
        }
        b
    }

    /// Position of `k`: the first stored key not sorting before it, and
    /// whether that key is `k` itself.
    fn position(&self, k: &Vec<char>) -> (r: (usize, bool))
        ensures
            r.0 <= self.pairs().len(),
            forall|j: int| 0 <= j < r.0 ==> seq_lt(#[trigger] self.pairs()[j].0, k@),
            r.0 < self.pairs().len() && !r.1 ==> seq_lt(k@, self.pairs()[r.0 as int].0),
            r.1 <==> (r.0 < self.pairs().len() && self.pairs()[r.0 as int].0 == k@),
    {
        let n = self.entries.len();
        let mut i: usize = 0;
        while i < n
            invariant
                n == self.entries.len() == self.pairs().len(),
                i <= n,
                forall|j: int| 0 <= j < i ==> seq_lt(#[trigger] self.pairs()[j].0, k@),
            decreases n - i,
        {
            let key = chars_of(self.entries[i].0.as_str());
            assert(key@ == self.pairs()[i as int].0);
            let c = compare(&key, k);
            if c >= 0 {
                proof {
                    if c > 0 {
                        crate::order::lemma_lt_asymmetric(k@, key@);
                    }
                }
                return (i, c == 0);
            }
            i += 1;
        }
        (i, false)
    }

    /// The value stored at `k`.
    pub fn get(&self, k: &str) -> (r: Option<&String>)
        ensures
            r is Some <==> self@.dom().contains(k@),
            r matches Some(v) ==> self@[k@] == v@,
    {
        proof {
            use_type_invariant(self);
        }
        let kv = chars_of(k);
        let (p, found) = self.position(&kv);
        if found {
            proof {
                lemma_at(self.pairs(), p as int);
            }
            Some(&self.entries[p].1)
        } else {
            proof {
                assert forall|i: int| 0 <= i < self.pairs().len() implies #[trigger] self.pairs()[i].0
                    != kv@ by {
                    if i < p {
                        assert(seq_lt(self.pairs()[i].0, kv@));
                        lemma_lt_irreflexive(kv@);
                    } else if i > p {
                        assert(seq_lt(kv@, self.pairs()[p as int].0));
                        assert(seq_lt(self.pairs()[p as int].0, self.pairs()[i].0));
                        lemma_lt_transitive(kv@, self.pairs()[p as int].0, self.pairs()[i].0);
                        lemma_lt_irreflexive(kv@);
                    }
                }
                lemma_absent(self.pairs(), kv@);
            }
            None
        }
    }

    /// Whether `k` has a value.
    pub fn contains_key(&self, k: &str) -> (b: bool)
        ensures
            b <==> self@.dom().contains(k@),
    {
        self.get(k).is_some()
    }

    /// Set `k` to `v`; the previous value of `k`, if any, is returned.
    pub fn insert(&mut self, k: String, v: String) -> (r: Option<String>)
        ensures
            final(self)@ == old(self)@.insert(k@, v@),
            r is Some <==> old(self)@.dom().contains(k@),
            r matches Some(o) ==> old(self)@[k@] == o@,
    {
        proof {
            use_type_invariant(&*self);
        }
        let kv = chars_of(k.as_str());
        let (p, found) = self.position(&kv);
        let ghost s = self.pairs();
        let mut e: Vec<(String, String)> = Vec::new();
        std::mem::swap(&mut e, &mut self.entries);
        assert(view_pairs(e@) == s);
        if found {
            let prev = e.remove(p);
            e.insert(p, (k, v));
            proof {
                lemma_at(s, p as int);
                lemma_update(s, p as int, v@);
                assert(view_pairs(e@) =~= s.update(
                    p as int,
                    (s[p as int].0, v@),
                ));
            }
            self.entries = e;
            Some(prev.1)
        } else {
            e.insert(p, (k, v));
            proof {
                lemma_insert(s, p as int, kv@, v@);
                assert(view_pairs(e@) =~= s.insert(
                    p as int,
                    (kv@, v@),
                ));
                assert forall|i: int| 0 <= i < s.len() implies #[trigger] s[i].0 != kv@ by {
                    if i < p {
                        lemma_lt_irreflexive(kv@);
                    } else {
                        assert(seq_lt(kv@, s[p as int].0));
                        if i > p {
                            assert(seq_lt(s[p as int].0, s[i].0));
                            lemma_lt_transitive(kv@, s[p as int].0, s[i].0);
                        }
                        lemma_lt_irreflexive(kv@);
                    }
                }
                lemma_absent(s, kv@);
            }
            self.entries = e;
            None
        }
    }

    /// Drop `k`; its value, if it had one, is returned.
    pub fn remove(&mut self, k: &str) -> (r: Option<String>)
        ensures
            final(self)@ == old(self)@.remove(k@),
            r is Some <==> old(self)@.dom().contains(k@),
            r matches Some(o) ==> old(self)@[k@] == o@,
    {
        proof {
            use_type_invariant(&*self);
        }
        let kv = chars_of(k);
        let (p, found) = self.position(&kv);
        let ghost s = self.pairs();
        if found {
            let mut e: Vec<(String, String)> = Vec::new();
            std::mem::swap(&mut e, &mut self.entries);
            let prev = e.remove(p);
            proof {
                lemma_at(s, p as int);
                lemma_remove(s, p as int);
                assert(view_pairs(e@) =~= s.remove(p as int));
            }
            self.entries = e;
            Some(prev.1)
        } else {
            proof {
                assert forall|i: int| 0 <= i < s.len() implies #[trigger] s[i].0 != kv@ by {
                    if i < p {
                        lemma_lt_irreflexive(kv@);
                    } else {
                        assert(seq_lt(kv@, s[p as int].0));
                        if i > p {
                            assert(seq_lt(s[p as int].0, s[i].0));
                            lemma_lt_transitive(kv@, s[p as int].0, s[i].0);
                        }
                        lemma_lt_irreflexive(kv@);
                    }
                }
                lemma_absent(s, kv@);
                assert(self@ =~= self@.remove(kv@));
            }
            None
        }
    }

    /// Drop every key.
    pub fn clear(&mut self)
        ensures
            final(self)@ == Map::<Seq<char>, Seq<char>>::empty(),
    {
        self.entries = Vec::new();
        assert(self@ =~= Map::<Seq<char>, Seq<char>>::empty());
    }

    /// Every key, in increasing order.
    pub fn keys(&self) -> (r: Vec<String>)
        ensures
            views(r@) == self.key_seq(),
            strictly_sorted(views(r@)),
            forall|k: Seq<char>|
                self@.dom().contains(k) <==> exists|i: int| 0 <= i < r.len() && #[trigger] r@[i]@ == k,
            r.len() == self@.dom().len(),
    {
        proof {
            use_type_invariant(self);
            lemma_domain(self.pairs());
            lemma_keys_sorted(self.pairs());
            lemma_sorted_keys(self.pairs());
        }
        let mut r: Vec<String> = Vec::new();
        let n = self.entries.len();
        for i in 0..n
            invariant
                n == self.entries.len() == self.pairs().len(),
                views(r@) == keys_of(self.pairs()).take(i as int),
        {
            let k = self.entries[i].0.clone();
            assert(self.pairs()[i as int] == (self.entries@[i as int].0@, self.entries@[i as int].1@));
            assert(keys_of(self.pairs())[i as int] == self.pairs()[i as int].0);
            let ghost before = r@;
            r.push(k);
            assert(views(r@) =~= views(before).push(k@));
            assert(keys_of(self.pairs()).take(i + 1) =~= keys_of(self.pairs()).take(i as int).push(
                keys_of(self.pairs())[i as int],
            ));
        }
        proof {
            assert(views(r@) =~= keys_of(self.pairs()));
            assert forall|k: Seq<char>| self@.dom().contains(k) implies exists|i: int|
                0 <= i < r.len() && #[trigger] r@[i]@ == k by {
                let i = choose|i: int| 0 <= i < self.pairs().len() && #[trigger] self.pairs()[i].0 == k;
                assert(views(r@)[i] == k);
            }
            assert forall|k: Seq<char>| (exists|i: int| 0 <= i < r.len() && #[trigger] r@[i]@ == k)
                implies self@.dom().contains(k) by {
                let i = choose|i: int| 0 <= i < r.len() && #[trigger] r@[i]@ == k;
                assert(views(r@)[i] == k);
                assert(self.pairs()[i].0 == k);
            }
        }
        r
    }

    /// An independent copy of the table.
    pub fn duplicate(&self) -> (r: Self)
        ensures
            r@ == self@,
    {
        proof {
            use_type_invariant(self);
        }
        let mut e: Vec<(String, String)> = Vec::new();
        let n = self.entries.len();
        for i in 0..n
            invariant
                n == self.entries.len(),
                view_pairs(e@) == self.pairs().take(i as int),
        {
            let k = self.entries[i].0.clone();
            let v = self.entries[i].1.clone();
            assert(self.pairs()[i as int] == (self.entries@[i as int].0@, self.entries@[i as int].1@));
            let ghost before = e@;
            e.push((k, v));
            assert(view_pairs(e@) =~= view_pairs(before).push((k@, v@)));
            assert(self.pairs().take(i + 1) =~= self.pairs().take(i as int).push(
                self.pairs()[i as int],
            ));
        }
        assert(view_pairs(e@) =~= self.pairs());
        ShortcutMap { entries: e }
    }
}

impl Default for ShortcutMap {
    /// An empty table.
    fn default() -> (m: Self)
        ensures
            m@ == Map::<Seq<char>, Seq<char>>::empty(),
    {
        ShortcutMap::new()
    }
}

impl Clone for ShortcutMap {
    fn clone(&self) -> (r: Self)
        ensures
            r@ == self@,
    {
        self.duplicate()
    }
}

} // verus!
