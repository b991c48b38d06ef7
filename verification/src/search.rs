//! "The first position where a predicate holds", the shape of every lookup
//! in the alias list (by name, by trigger word, by claim on a word).

use vstd::prelude::*;

verus! {

/// The first `i` in `0..n` with `p(i)`, if there is one.
pub open spec fn first_where(n: int, p: spec_fn(int) -> bool) -> Option<int> {
    if exists|i: int| 0 <= i < n && #[trigger] p(i) && forall|j: int| 0 <= j < i ==> !#[trigger] p(j) {
        Some(choose|i: int| 0 <= i < n && #[trigger] p(i) && forall|j: int| 0 <= j < i ==> !#[trigger] p(j))
    } else {
        None
    }
}

/// `i` is the first position where `p` holds.
pub proof fn lemma_first_found(n: int, p: spec_fn(int) -> bool, i: int)
    requires
        0 <= i < n,
        p(i),
        forall|j: int| 0 <= j < i ==> !#[trigger] p(j),
    ensures
        first_where(n, p) == Some(i),
{
    let k = choose|k: int| 0 <= k < n && #[trigger] p(k) && forall|j: int| 0 <= j < k ==> !#[trigger] p(j);
    if k < i {
        assert(!p(k));
    }
    if i < k {
        assert(!p(i));
    }
}

/// `p` holds nowhere in `0..n`.
pub proof fn lemma_first_none(n: int, p: spec_fn(int) -> bool)
    requires
        forall|j: int| 0 <= j < n ==> !#[trigger] p(j),
    ensures
        first_where(n, p) is None,
{
}

/// What a found position satisfies.
pub proof fn lemma_first_some(n: int, p: spec_fn(int) -> bool)
    requires
        first_where(n, p) is Some,
    ensures
        0 <= first_where(n, p)->0 < n,
        p(first_where(n, p)->0),
        forall|j: int| 0 <= j < first_where(n, p)->0 ==> !#[trigger] p(j),
{
}

} // verus!
