//! How many of a list of names were not met yet.
use vstd::prelude::*;

verus! {

/// How many of the first `n` members are not among `seen`.
pub open spec fn fresh<A>(v: Seq<A>, seen: Seq<A>, n: nat) -> nat
    decreases n,
{
    if n == 0 {
        0
    } else {
        fresh(v, seen, (n - 1) as nat) + if seen.contains(v[n - 1]) {
            0nat
        } else {
            1nat
        }
    }
}

/// What was met stays met.
pub proof fn lemma_seen<A>(seen: Seq<A>, x: A, y: A)
    ensures
        seen.push(x).contains(y) <==> seen.contains(y) || x == y,
{
    if seen.contains(y) {
        let i = choose|i: int| 0 <= i < seen.len() && seen[i] == y;
        assert(seen.push(x)[i] == y);
    }
    if x == y {
        assert(seen.push(x)[seen.len() as int] == y);
    }
    if seen.push(x).contains(y) {
        let i = choose|i: int| 0 <= i < seen.push(x).len() && seen.push(x)[i] == y;
        if i < seen.len() {
            assert(seen[i] == y);
        }
    }
}

/// Meeting a member leaves fewer.
pub proof fn lemma_fresh_less<A>(v: Seq<A>, seen: Seq<A>, x: A, n: nat)
    requires
        n <= v.len(),
        !seen.contains(x),
    ensures
        fresh(v, seen.push(x), n) <= fresh(v, seen, n),
        (exists|i: int| 0 <= i < n && #[trigger] v[i] == x) ==> fresh(v, seen.push(x), n) < fresh(
            v,
            seen,
            n,
        ),
    decreases n,
{
    if n > 0 {
        lemma_fresh_less(v, seen, x, (n - 1) as nat);
        lemma_seen(seen, x, v[n - 1]);
        if exists|i: int| 0 <= i < n && #[trigger] v[i] == x {
            let i = choose|i: int| 0 <= i < n && #[trigger] v[i] == x;
            if i < n - 1 {
                assert(exists|i: int| 0 <= i < (n - 1) as nat && #[trigger] v[i] == x);
            }
        }
    }
}

} // verus!
