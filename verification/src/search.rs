//! The first position that satisfies a predicate, as a specification, with
//! the lemmas that tie a linear scan to it.
use vstd::prelude::*;

verus! {

/// The least `i` in `from..n` with `p(i)`, or `n` when there is none.
pub open spec fn first_from(from: int, n: int, p: spec_fn(int) -> bool) -> int
    decreases n - from,
{
    if from >= n {
        n
    } else if p(from) {
        from
    } else {
        first_from(from + 1, n, p)
    }
}

/// The least `i` in `0..n` with `p(i)`, or `n` when there is none.
pub open spec fn first_where(n: int, p: spec_fn(int) -> bool) -> int {
    first_from(0, n, p)
}

/// What `first_from` returns: a position in range, the predicate holding
/// there, and nowhere before it.
pub proof fn lemma_first_from(from: int, n: int, p: spec_fn(int) -> bool)
    requires
        from <= n,
    ensures
        from <= first_from(from, n, p) <= n,
        first_from(from, n, p) < n ==> p(first_from(from, n, p)),
        forall|j: int| from <= j < first_from(from, n, p) ==> !#[trigger] p(j),
    decreases n - from,
{
    if from < n && !p(from) {
        lemma_first_from(from + 1, n, p);
    }
}

/// A position with nothing before it that satisfies the predicate, and which
/// satisfies it or is the end, is the first one.
pub proof fn lemma_first_is(from: int, n: int, p: spec_fn(int) -> bool, k: int)
    requires
        from <= k <= n,
        forall|j: int| from <= j < k ==> !#[trigger] p(j),
        k == n || p(k),
    ensures
        first_from(from, n, p) == k,
    decreases n - from,
{
    if from < k {
        lemma_first_is(from + 1, n, p, k);
    }
}

/// What `first_where` returns.
pub proof fn lemma_first_where(n: int, p: spec_fn(int) -> bool)
    requires
        0 <= n,
    ensures
        0 <= first_where(n, p) <= n,
        first_where(n, p) < n ==> p(first_where(n, p)),
        forall|j: int| 0 <= j < first_where(n, p) ==> !#[trigger] p(j),
{
    lemma_first_from(0, n, p);
}

} // verus!
