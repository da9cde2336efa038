//! Searches through a range of positions, stated once.
use vstd::prelude::*;

verus! {

/// The first position of `[i, n)` at which `p` holds.
pub open spec fn first_from(p: spec_fn(int) -> bool, i: int, n: int) -> Option<int>
    decreases n - i,
{
    if i >= n {
        None
    } else if p(i) {
        Some(i)
    } else {
        first_from(p, i + 1, n)
    }
}

/// The last position of `[0, n)` at which `p` holds.
pub open spec fn last_below(p: spec_fn(int) -> bool, n: int) -> Option<int>
    decreases n,
{
    if n <= 0 {
        None
    } else if p(n - 1) {
        Some(n - 1)
    } else {
        last_below(p, n - 1)
    }
}

/// What a first position is.
pub proof fn lemma_first_from(p: spec_fn(int) -> bool, i: int, n: int)
    ensures
        match first_from(p, i, n) {
            Some(k) => i <= k < n && p(k) && forall|j: int| i <= j < k ==> !(#[trigger] p(j)),
            None => forall|j: int| i <= j < n ==> !(#[trigger] p(j)),
        },
    decreases n - i,
{
    if i < n && !p(i) {
        lemma_first_from(p, i + 1, n);
    }
}

/// What a last position is.
pub proof fn lemma_last_below(p: spec_fn(int) -> bool, n: int)
    ensures
        match last_below(p, n) {
            Some(k) => 0 <= k < n && p(k) && forall|j: int| k < j < n ==> !(#[trigger] p(j)),
            None => forall|j: int| 0 <= j < n ==> !(#[trigger] p(j)),
        },
    decreases n,
{
    if n > 0 && !p(n - 1) {
        lemma_last_below(p, n - 1);
    }
}

/// Conditions that agree on a range have the same first position there.
pub proof fn lemma_first_from_same(
    p: spec_fn(int) -> bool,
    q: spec_fn(int) -> bool,
    i: int,
    n: int,
)
    requires
        forall|k: int| i <= k < n ==> #[trigger] p(k) == q(k),
    ensures
        first_from(p, i, n) == first_from(q, i, n),
    decreases n - i,
{
    if i < n {
        assert(p(i) == q(i));
        lemma_first_from_same(p, q, i + 1, n);
    }
}

/// Conditions that agree on a range have the same last position there.
pub proof fn lemma_last_below_same(p: spec_fn(int) -> bool, q: spec_fn(int) -> bool, n: int)
    requires
        forall|k: int| 0 <= k < n ==> #[trigger] p(k) == q(k),
    ensures
        last_below(p, n) == last_below(q, n),
    decreases n,
{
    if n > 0 {
        assert(p(n - 1) == q(n - 1));
        lemma_last_below_same(p, q, n - 1);
    }
}

} // verus!
