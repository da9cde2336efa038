//! What a pinned program holds: all that its definitions refer to.
use vstd::prelude::*;

use crate::loaded;
use crate::loaded::StoredView;
use crate::metas::PinView;
use crate::ops;

verus! {

/// What is pinned of a stored definition, if its hash can be read.
pub open spec fn pin_of(b: StoredView) -> Option<PinView> {
    match ops::hex_bytes(ops::b3_body(b.hash)) {
        Some(bytes) => Some(PinView { hash: bytes, name: b.name, def: b.def, meta: b.meta }),
        None => None,
    }
}

/// Whether a program pins what a hash stands for.
pub open spec fn pins(
    local: Seq<StoredView>,
    store: Seq<StoredView>,
    v: Seq<PinView>,
    h: Seq<char>,
) -> bool {
    match loaded::blob_of(local, store, h) {
        Some(b) => pin_of(b) is Some && v.contains(pin_of(b)->0),
        None => false,
    }
}

/// Whether a program pins all that a stored definition refers to.
pub open spec fn pins_what_it_refers_to(
    local: Seq<StoredView>,
    store: Seq<StoredView>,
    v: Seq<PinView>,
    h: Seq<char>,
) -> bool {
    match loaded::blob_of(local, store, h) {
        Some(b) => forall|k: int|
            0 <= k < b.deps.len() ==> pins(local, store, v, #[trigger] b.deps[k]),
        None => false,
    }
}

/// Whether a pinned definition is what a hash stands for.
pub open spec fn comes_from(
    local: Seq<StoredView>,
    store: Seq<StoredView>,
    p: PinView,
    h: Seq<char>,
) -> bool {
    loaded::blob_of(local, store, h) matches Some(b) && pin_of(b) == Some(p)
}

/// Whether a pinned definition is what some hash stands for, and all that it refers
/// to is pinned.
pub open spec fn accounted(
    local: Seq<StoredView>,
    store: Seq<StoredView>,
    v: Seq<PinView>,
    p: PinView,
) -> bool {
    exists|h: Seq<char>| #[trigger]
        comes_from(local, store, p, h) && pins_what_it_refers_to(local, store, v, h)
}

/// What a definition refers to was met or is yet to be met.
spec fn followed(
    local: Seq<StoredView>,
    store: Seq<StoredView>,
    stack: Seq<Seq<char>>,
    seen: Seq<Seq<char>>,
    h: Seq<char>,
) -> bool {
    match loaded::blob_of(local, store, h) {
        Some(b) => forall|k: int|
            0 <= k < b.deps.len() ==> seen.contains(#[trigger] b.deps[k]) || stack.contains(
                b.deps[k],
            ),
        None => false,
    }
}

/// The definitions met so far: they are pinned, and what they refer to was met or is
/// yet to be met.
spec fn partway(
    local: Seq<StoredView>,
    store: Seq<StoredView>,
    stack: Seq<Seq<char>>,
    seen: Seq<Seq<char>>,
    out: Seq<PinView>,
) -> bool {
    &&& forall|i: int|
        0 <= i < seen.len() ==> pins(local, store, out, #[trigger] seen[i]) && followed(
            local,
            store,
            stack,
            seen,
            seen[i],
        )
    &&& forall|i: int|
        0 <= i < out.len() ==> exists|k: int|
            0 <= k < seen.len() && comes_from(local, store, #[trigger] out[i], #[trigger] seen[k])
}

/// The hashes that are met before the walk ends.
proof fn lemma_walk(
    local: Seq<StoredView>,
    store: Seq<StoredView>,
    stack: Seq<Seq<char>>,
    seen: Seq<Seq<char>>,
    out: Seq<PinView>,
) -> (all: Seq<Seq<char>>)
    requires
        partway(local, store, stack, seen, out),
        loaded::visited(local, store, stack, seen, out) is Ok,
    ensures
        partway(
            local,
            store,
            Seq::empty(),
            all,
            loaded::visited(local, store, stack, seen, out)->Ok_0,
        ),
        forall|i: int| 0 <= i < seen.len() ==> all.contains(#[trigger] seen[i]),
        forall|i: int| 0 <= i < stack.len() ==> all.contains(#[trigger] stack[i]),
    decreases loaded::unpinned(local, store, seen), stack.len(),
{
    if stack.len() == 0 {
        assert(stack =~= Seq::empty());
        seen
    } else {
        let h = stack[0];
        let rest = stack.skip(1);
        assert forall|x: Seq<char>| stack.contains(x) implies x == h || rest.contains(x) by {
            let j = choose|j: int| 0 <= j < stack.len() && stack[j] == x;
            if j > 0 {
                assert(rest[j - 1] == x);
            }
        }
        if seen.contains(h) {
            let all = lemma_walk(local, store, rest, seen, out);
            assert forall|i: int| 0 <= i < stack.len() implies all.contains(
                #[trigger] stack[i],
            ) by {
                if i > 0 {
                    assert(rest[i - 1] == stack[i]);
                } else {
                    let j = choose|j: int| 0 <= j < seen.len() && seen[j] == h;
                    assert(all.contains(seen[j]));
                }
            }
            all
        } else {
            let b = loaded::blob_of(local, store, h)->0;
            loaded::lemma_unpinned(local, store, seen, h);
            let p = pin_of(b)->0;
            let met = seen.push(h);
            let next = b.deps + rest;
            let more = out.push(p);
            assert(more[out.len() as int] == p);
            assert(met[seen.len() as int] == h);
            assert forall|x: Seq<char>| seen.contains(x) implies met.contains(x) by {
                let j = choose|j: int| 0 <= j < seen.len() && seen[j] == x;
                assert(met[j] == x);
            }
            assert forall|x: Seq<char>| rest.contains(x) implies next.contains(x) by {
                let j = choose|j: int| 0 <= j < rest.len() && rest[j] == x;
                assert(next[b.deps.len() + j] == x);
            }
            assert forall|i: int| 0 <= i < met.len() implies pins(
                local,
                store,
                more,
                #[trigger] met[i],
            ) && followed(local, store, next, met, met[i]) by {
                if i < seen.len() {
                    assert(met[i] == seen[i]);
                    let c = loaded::blob_of(local, store, seen[i])->0;
                    let q = pin_of(c)->0;
                    let j = choose|j: int| 0 <= j < out.len() && out[j] == q;
                    assert(more[j] == q);
                    assert forall|k: int| 0 <= k < c.deps.len() implies met.contains(
                        #[trigger] c.deps[k],
                    ) || next.contains(c.deps[k]) by {
                        assert(seen.contains(c.deps[k]) || stack.contains(c.deps[k]));
                    }
                } else {
                    assert forall|k: int| 0 <= k < b.deps.len() implies next.contains(
                        #[trigger] b.deps[k],
                    ) by {
                        assert(next[k] == b.deps[k]);
                    }
                }
            }
            assert forall|i: int| 0 <= i < more.len() implies exists|k: int|
                0 <= k < met.len() && comes_from(
                    local,
                    store,
                    #[trigger] more[i],
                    #[trigger] met[k],
                ) by {
                if i < out.len() {
                    assert(more[i] == out[i]);
                    let k = choose|k: int|
                        0 <= k < seen.len() && comes_from(local, store, out[i], #[trigger] seen[k]);
                    assert(met[k] == seen[k]);
                } else {
                    assert(comes_from(local, store, more[i], met[seen.len() as int]));
                }
            }
            let all = lemma_walk(local, store, next, met, more);
            assert forall|i: int| 0 <= i < seen.len() implies all.contains(
                #[trigger] seen[i],
            ) by {
                assert(met[i] == seen[i]);
            }
            assert forall|i: int| 0 <= i < stack.len() implies all.contains(
                #[trigger] stack[i],
            ) by {
                if i > 0 {
                    assert(rest[i - 1] == stack[i]);
                    assert(next[b.deps.len() + i - 1] == stack[i]);
                } else {
                    assert(all.contains(met[seen.len() as int]));
                }
            }
            all
        }
    }
}

/// A pinned program is whole: it pins its roots, every definition of it is what some
/// hash stands for, and it pins all that this definition refers to.
pub proof fn lemma_a_pinned_program_is_whole(
    local: Seq<StoredView>,
    store: Seq<StoredView>,
    roots: Seq<Seq<char>>,
)
    requires
        loaded::visited(local, store, roots, Seq::empty(), Seq::empty()) is Ok,
    ensures
        ({
            let v = loaded::visited(local, store, roots, Seq::empty(), Seq::empty())->Ok_0;
            &&& forall|i: int|
                0 <= i < roots.len() ==> pins(local, store, v, #[trigger] roots[i])
            &&& forall|i: int| 0 <= i < v.len() ==> accounted(local, store, v, #[trigger] v[i])
        }),
{
    let none = Seq::<Seq<char>>::empty();
    let v = loaded::visited(local, store, roots, Seq::empty(), Seq::empty())->Ok_0;
    let all = lemma_walk(local, store, roots, none, Seq::empty());
    assert forall|h: Seq<char>| all.contains(h) implies pins(local, store, v, h)
        && pins_what_it_refers_to(local, store, v, h) by {
        let j = choose|j: int| 0 <= j < all.len() && all[j] == h;
        assert(pins(local, store, v, all[j]) && followed(local, store, none, all, all[j]));
        let b = loaded::blob_of(local, store, h)->0;
        assert forall|k: int| 0 <= k < b.deps.len() implies pins(
            local,
            store,
            v,
            #[trigger] b.deps[k],
        ) by {
            assert(all.contains(b.deps[k]) || none.contains(b.deps[k]));
            let i = choose|i: int| 0 <= i < all.len() && all[i] == b.deps[k];
            assert(pins(local, store, v, all[i]));
        }
    }
    assert forall|i: int| 0 <= i < roots.len() implies pins(
        local,
        store,
        v,
        #[trigger] roots[i],
    ) by {
        assert(all.contains(roots[i]));
    }
    assert forall|i: int| 0 <= i < v.len() implies accounted(
        local,
        store,
        v,
        #[trigger] v[i],
    ) by {
        let k = choose|k: int|
            0 <= k < all.len() && comes_from(local, store, v[i], #[trigger] all[k]);
        assert(all.contains(all[k]));
    }
}

} // verus!
