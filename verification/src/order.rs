//! The ascending order of hashes.
use vstd::prelude::*;
use vstd::relations::*;

use crate::ir;

verus! {

/// Whether `a` comes no later than `b`, compared byte by byte from position `i`.
pub open spec fn bytes_le_from(a: Seq<u8>, b: Seq<u8>, i: nat) -> bool
    decreases a.len() - i,
{
    if i >= a.len() {
        true
    } else if i >= b.len() {
        false
    } else if a[i as int] != b[i as int] {
        a[i as int] < b[i as int]
    } else {
        bytes_le_from(a, b, i + 1)
    }
}

/// The lexicographic order of byte strings.
pub open spec fn bytes_le(a: Seq<u8>, b: Seq<u8>) -> bool {
    bytes_le_from(a, b, 0)
}

/// The members of `v` in ascending order.
pub open spec fn sorted(v: Seq<Seq<u8>>) -> Seq<Seq<u8>> {
    v.sort_by(|a: Seq<u8>, b: Seq<u8>| bytes_le(a, b))
}

proof fn lemma_le_refl(a: Seq<u8>, i: nat)
    ensures
        bytes_le_from(a, a, i),
    decreases a.len() - i,
{
    if i < a.len() {
        lemma_le_refl(a, i + 1);
    }
}

proof fn lemma_le_total(a: Seq<u8>, b: Seq<u8>, i: nat)
    ensures
        bytes_le_from(a, b, i) || bytes_le_from(b, a, i),
    decreases a.len() - i,
{
    if i < a.len() && i < b.len() && a[i as int] == b[i as int] {
        lemma_le_total(a, b, i + 1);
    }
}

proof fn lemma_le_trans(a: Seq<u8>, b: Seq<u8>, c: Seq<u8>, i: nat)
    requires
        bytes_le_from(a, b, i),
        bytes_le_from(b, c, i),
    ensures
        bytes_le_from(a, c, i),
    decreases a.len() - i,
{
    if i < a.len() && i < b.len() && i < c.len() && a[i as int] == b[i as int] && b[i as int]
        == c[i as int] {
        lemma_le_trans(a, b, c, i + 1);
    }
}

proof fn lemma_le_antisym(a: Seq<u8>, b: Seq<u8>, i: nat)
    requires
        bytes_le_from(a, b, i),
        bytes_le_from(b, a, i),
        i <= a.len(),
        i <= b.len(),
    ensures
        a.len() == b.len(),
        forall|k: int| i <= k < a.len() ==> a[k] == b[k],
    decreases a.len() - i,
{
    if i < a.len() && i < b.len() {
        lemma_le_antisym(a, b, i + 1);
    }
}

/// The byte order is a total order.
pub proof fn lemma_bytes_le_total_order()
    ensures
        total_ordering(|a: Seq<u8>, b: Seq<u8>| bytes_le(a, b)),
{
    let r = |a: Seq<u8>, b: Seq<u8>| bytes_le(a, b);
    assert forall|a: Seq<u8>| #[trigger] r(a, a) by {
        lemma_le_refl(a, 0);
    }
    assert forall|a: Seq<u8>, b: Seq<u8>| #[trigger] r(a, b) && #[trigger] r(b, a) implies a
        == b by {
        lemma_le_antisym(a, b, 0);
        assert(a =~= b);
    }
    assert forall|a: Seq<u8>, b: Seq<u8>, c: Seq<u8>| #[trigger] r(a, b) && #[trigger] r(b, c)
        implies r(a, c) by {
        lemma_le_trans(a, b, c, 0);
    }
    assert forall|a: Seq<u8>, b: Seq<u8>| #[trigger] r(a, b) || #[trigger] r(b, a) by {
        lemma_le_total(a, b, 0);
    }
}

/// Two lists with the same members, counted with repetition, have the same
/// ascending order.
pub proof fn lemma_sorted_of_permutation(v: Seq<Seq<u8>>, w: Seq<Seq<u8>>)
    requires
        v.to_multiset() == w.to_multiset(),
    ensures
        sorted(v) == sorted(w),
{
    let r = |a: Seq<u8>, b: Seq<u8>| bytes_le(a, b);
    lemma_bytes_le_total_order();
    v.lemma_sort_by_ensures(r);
    w.lemma_sort_by_ensures(r);
    vstd::seq_lib::lemma_sorted_unique(sorted(v), sorted(w), r);
}

/// Sorting keeps the members.
pub proof fn lemma_sorted_members(v: Seq<Seq<u8>>)
    ensures
        sorted(v).to_multiset() == v.to_multiset(),
        sorted(v).len() == v.len(),
{
    let r = |a: Seq<u8>, b: Seq<u8>| bytes_le(a, b);
    lemma_bytes_le_total_order();
    v.lemma_sort_by_ensures(r);
    v.to_multiset_ensures();
    sorted(v).to_multiset_ensures();
}

/// Whether `a` comes no later than `b`.
pub fn hash_le(a: &crate::ir::Hash, b: &crate::ir::Hash) -> (r: bool)
    ensures
        r == bytes_le(a@, b@),
{
    let mut i: usize = 0;
    while i < 32
        invariant
            i <= 32,
            bytes_le(a@, b@) == bytes_le_from(a@, b@, i as nat),
        decreases 32 - i,
    {
        if a.0[i] != b.0[i] {
            return a.0[i] < b.0[i];
        }
        i = i + 1;
    }
    true
}

/// The hashes in ascending order.
pub fn sort_hashes(v: &Vec<crate::ir::Hash>) -> (r: Vec<crate::ir::Hash>)
    ensures
        ir::hashes_view(r@) == sorted(ir::hashes_view(v@)),
        r@.len() == v@.len(),
{
    let ghost le = |a: Seq<u8>, b: Seq<u8>| bytes_le(a, b);
    let mut out: Vec<crate::ir::Hash> = Vec::new();
    let mut i: usize = 0;
    proof {
        lemma_bytes_le_total_order();
        assert(ir::hashes_view(v@).take(0).to_multiset() =~= ir::hashes_view(out@).to_multiset()) by {
            assert(ir::hashes_view(v@).take(0) =~= ir::hashes_view(out@));
        }
    }
    while i < v.len()
        invariant
            i <= v@.len(),
            out@.len() == i,
            le == (|a: Seq<u8>, b: Seq<u8>| bytes_le(a, b)),
            total_ordering(le),
            sorted_by(ir::hashes_view(out@), le),
            ir::hashes_view(out@).to_multiset() == ir::hashes_view(v@).take(i as int).to_multiset(),
        decreases v@.len() - i,
    {
        let x = v[i];
        let ghost before = ir::hashes_view(out@);
        // the first position whose member does not come before `x`
        let mut j: usize = 0;
        while j < out.len() && !hash_le(&x, &out[j])
            invariant
                j <= out@.len(),
                le == (|a: Seq<u8>, b: Seq<u8>| bytes_le(a, b)),
                total_ordering(le),
                before == ir::hashes_view(out@),
                sorted_by(before, le),
                forall|k: int| 0 <= k < j ==> bytes_le(#[trigger] before[k], x@),
            decreases out@.len() - j,
        {
            proof {
                assert(le(out@[j as int]@, x@) || le(x@, out@[j as int]@));
                assert(before[j as int] == out@[j as int]@);
            }
            j = j + 1;
        }
        out.insert(j, x);
        let ghost after = ir::hashes_view(out@);
        proof {
            assert(after =~= before.insert(j as int, x@));
            assert(ir::hashes_view(v@).take(i + 1) =~= ir::hashes_view(v@).take(i as int).push(x@));
            vstd::seq_lib::to_multiset_insert(before, j as int, x@);
            ir::hashes_view(v@).take(i as int).to_multiset_ensures();
            assert(after.to_multiset() =~= before.to_multiset().insert(x@));
            assert forall|p: int, q: int| 0 <= p < q < after.len() implies #[trigger] le(
                after[p],
                after[q],
            ) by {
                if q < j {
                    assert(le(before[p], before[q]));
                } else if q == j {
                    assert(bytes_le(before[p], x@));
                } else if p < j {
                    assert(le(before[p], before[q - 1]));
                } else if p == j {
                    assert(le(x@, before[j as int]));
                    if q - 1 > j {
                        assert(le(before[j as int], before[q - 1]));
                    }
                } else {
                    assert(le(before[p - 1], before[q - 1]));
                }
            }
        }
        i = i + 1;
    }
    proof {
        let w = ir::hashes_view(v@);
        assert(w.take(v@.len() as int) =~= w);
        w.lemma_sort_by_ensures(le);
        vstd::seq_lib::lemma_sorted_unique(ir::hashes_view(out@), sorted(w), le);
    }
    out
}

} // verus!
