//! Reachability in a finite graph given by adjacency lists.
use vstd::prelude::*;

verus! {

/// Whether `p` is a walk along the edges.
pub open spec fn is_walk(edge: spec_fn(int, int) -> bool, p: Seq<int>) -> bool {
    p.len() > 0 && forall|k: int| 0 <= k < p.len() - 1 ==> edge(#[trigger] p[k], p[k + 1])
}

/// Whether a walk leads from `s` to `j`.
pub open spec fn reachable(edge: spec_fn(int, int) -> bool, s: int, j: int) -> bool {
    exists|p: Seq<int>| #[trigger] is_walk(edge, p) && p[0] == s && p.last() == j
}

/// Every node is reachable from itself.
pub proof fn lemma_reach_self(edge: spec_fn(int, int) -> bool, s: int)
    ensures
        reachable(edge, s, s),
{
    assert(is_walk(edge, seq![s]));
}

/// A walk can be continued by one edge.
pub proof fn lemma_reach_step(edge: spec_fn(int, int) -> bool, s: int, i: int, j: int)
    requires
        reachable(edge, s, i),
        edge(i, j),
    ensures
        reachable(edge, s, j),
{
    let p = choose|p: Seq<int>| #[trigger] is_walk(edge, p) && p[0] == s && p.last() == i;
    let q = p.push(j);
    assert forall|k: int| 0 <= k < q.len() - 1 implies edge(#[trigger] q[k], q[k + 1]) by {
        if k < p.len() - 1 {
            assert(edge(p[k], p[k + 1]));
        }
    }
    assert(is_walk(edge, q));
}

/// A set that holds `s` and is closed under the edges holds whatever is
/// reachable from `s`.
pub proof fn lemma_reach_within(
    edge: spec_fn(int, int) -> bool,
    s: int,
    j: int,
    inside: spec_fn(int) -> bool,
)
    requires
        reachable(edge, s, j),
        inside(s),
        forall|a: int, b: int| inside(a) && #[trigger] edge(a, b) ==> inside(b),
    ensures
        inside(j),
{
    let p = choose|p: Seq<int>| #[trigger] is_walk(edge, p) && p[0] == s && p.last() == j;
    lemma_walk_within(edge, p, inside, p.len() - 1);
}

proof fn lemma_walk_within(
    edge: spec_fn(int, int) -> bool,
    p: Seq<int>,
    inside: spec_fn(int) -> bool,
    k: int,
)
    requires
        is_walk(edge, p),
        inside(p[0]),
        forall|a: int, b: int| inside(a) && #[trigger] edge(a, b) ==> inside(b),
        0 <= k < p.len(),
    ensures
        inside(p[k]),
    decreases k,
{
    if k > 0 {
        lemma_walk_within(edge, p, inside, k - 1);
        assert(edge(p[k - 1], p[k - 1 + 1]));
    }
}

/// The edges of adjacency lists.
pub open spec fn list_edge(adj: Seq<Vec<usize>>) -> spec_fn(int, int) -> bool {
    |i: int, j: int| 0 <= i < adj.len() && listed(adj[i]@, j)
}

/// Whether a list of positions holds `j`.
pub open spec fn listed(v: Seq<usize>, j: int) -> bool {
    exists|k: int| 0 <= k < v.len() && v[k] == j
}

/// How many marks are not set.
pub open spec fn unmarked(mask: Seq<bool>) -> nat
    decreases mask.len(),
{
    if mask.len() == 0 {
        0
    } else {
        unmarked(mask.drop_last()) + if mask.last() {
            0nat
        } else {
            1nat
        }
    }
}

proof fn lemma_mark(mask: Seq<bool>, j: int)
    requires
        0 <= j < mask.len(),
        !mask[j],
    ensures
        unmarked(mask.update(j, true)) + 1 == unmarked(mask),
    decreases mask.len(),
{
    let n = mask.update(j, true);
    if j == mask.len() - 1 {
        assert(n.drop_last() =~= mask.drop_last());
    } else {
        assert(n.drop_last() =~= mask.drop_last().update(j, true));
        lemma_mark(mask.drop_last(), j);
    }
}

/// Mark every node that is reachable from `start`.
pub fn closure(adj: &Vec<Vec<usize>>, start: usize) -> (mask: Vec<bool>)
    requires
        start < adj@.len(),
        forall|i: int, k: int|
            0 <= i < adj@.len() && 0 <= k < adj@[i]@.len() ==> #[trigger] adj@[i]@[k] < adj@.len(),
    ensures
        mask@.len() == adj@.len(),
        forall|j: int|
            0 <= j < adj@.len() ==> #[trigger] mask@[j] == reachable(
                list_edge(adj@),
                start as int,
                j,
            ),
{
    let n = adj.len();
    let ghost edge = list_edge(adj@);
    let mut mask: Vec<bool> = Vec::new();
    let mut z: usize = 0;
    while z < n
        invariant
            z <= n,
            mask@.len() == z,
            forall|j: int| 0 <= j < z ==> !(#[trigger] mask@[j]),
        decreases n - z,
    {
        mask.push(false);
        z = z + 1;
    }
    mask.set(start, true);
    let mut queue: Vec<usize> = Vec::new();
    queue.push(start);
    proof {
        lemma_reach_self(edge, start as int);
        assert(queue@[0] == start);
        assert(queue@.contains(start));
    }
    while queue.len() > 0
        invariant
            n == adj@.len(),
            start < n,
            edge == list_edge(adj@),
            mask@.len() == n,
            mask@[start as int],
            forall|i: int, k: int|
                0 <= i < n && 0 <= k < adj@[i]@.len() ==> #[trigger] adj@[i]@[k] < n,
            forall|q: int| 0 <= q < queue@.len() ==> (#[trigger] queue@[q]) < n && mask@[queue@[q] as int],
            forall|j: int| 0 <= j < n && #[trigger] mask@[j] ==> reachable(edge, start as int, j),
            // a marked node that no longer waits has all its successors marked
            forall|i: int, j: int|
                0 <= i < n && mask@[i] && !queue@.contains(i as usize) && #[trigger] edge(i, j)
                    ==> 0 <= j < n && mask@[j],
        decreases unmarked(mask@), queue@.len(),
    {
        let ghost before = queue@;
        let ghost count = unmarked(mask@);
        let i = match queue.pop() {
            Some(i) => i,
            None => start,
        };
        assert(i == before.last());
        assert(before =~= queue@.push(i));
        assert(mask@[i as int]);
        let ghost rest = queue@;
        let mut k: usize = 0;
        while k < adj[i].len()
            invariant
                n == adj@.len(),
                start < n,
                i < n,
                edge == list_edge(adj@),
                k <= adj@[i as int]@.len(),
                mask@.len() == n,
                mask@[start as int],
                mask@[i as int],
                before =~= rest.push(i),
                forall|a: int, b: int|
                    0 <= a < n && 0 <= b < adj@[a]@.len() ==> #[trigger] adj@[a]@[b] < n,
                forall|q: int|
                    0 <= q < queue@.len() ==> (#[trigger] queue@[q]) < n && mask@[queue@[q] as int],
                forall|j: int| 0 <= j < n && #[trigger] mask@[j] ==> reachable(edge, start as int, j),
                forall|b: int| 0 <= b < k ==> mask@[#[trigger] adj@[i as int]@[b] as int],
                forall|x: usize| rest.contains(x) ==> queue@.contains(x),
                forall|a: int, j: int|
                    0 <= a < n && a != i && mask@[a] && !queue@.contains(a as usize) && #[trigger] edge(
                        a,
                        j,
                    ) ==> 0 <= j < n && mask@[j],
                unmarked(mask@) < count || (unmarked(mask@) == count && queue@ == rest),
            decreases adj@[i as int]@.len() - k,
        {
            let j = adj[i][k];
            assert(adj@[i as int]@[k as int] < n);
            if !mask[j] {
                let ghost m0 = mask@;
                let ghost q0 = queue@;
                mask.set(j, true);
                queue.push(j);
                proof {
                    lemma_mark(m0, j as int);
                    assert(edge(i as int, j as int));
                    lemma_reach_step(edge, start as int, i as int, j as int);
                    assert forall|x: usize| q0.contains(x) implies queue@.contains(x) by {
                        let w = choose|w: int| 0 <= w < q0.len() && q0[w] == x;
                        assert(queue@[w] == x);
                    }
                    assert(queue@[queue@.len() - 1] == j);
                    assert(queue@.contains(j));
                    assert forall|a: int, b: int|
                        0 <= a < n && a != i && mask@[a] && !queue@.contains(a as usize)
                            && #[trigger] edge(a, b) implies 0 <= b < n && mask@[b] by {
                        assert(a != j);
                        assert(m0[a]);
                    }
                }
            }
            k = k + 1;
        }
        proof {
            assert forall|a: int, j: int|
                0 <= a < n && mask@[a] && !queue@.contains(a as usize) && #[trigger] edge(
                    a,
                    j,
                ) implies 0 <= j < n && mask@[j] by {
                if a == i {
                    let w = choose|w: int| 0 <= w < adj@[a]@.len() && adj@[a]@[w] == j;
                    assert(mask@[adj@[i as int]@[w] as int]);
                }
            }
            if unmarked(mask@) == count {
                assert(queue@.len() < before.len());
            }
        }
    }
    proof {
        let inside = |j: int| 0 <= j < n && mask@[j];
        assert forall|j: int| 0 <= j < n implies #[trigger] mask@[j] == reachable(
            edge,
            start as int,
            j,
        ) by {
            if reachable(edge, start as int, j) {
                assert forall|a: int, b: int| inside(a) && #[trigger] edge(a, b) implies inside(b) by {
                    assert(!queue@.contains(a as usize));
                }
                lemma_reach_within(edge, start as int, j, inside);
            }
        }
    }
    mask
}

} // verus!
