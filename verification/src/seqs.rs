//! Regrouping of concatenated sequences.
use vstd::prelude::*;

verus! {

/// `o` before two parts, taken together or one by one.
pub proof fn cat2<A>(o: Seq<A>, a: Seq<A>, b: Seq<A>)
    ensures
        o + (a + b) == o + a + b,
{
    assert(o + (a + b) =~= o + a + b);
}

/// `o` before three parts, taken together or one by one.
pub proof fn cat3<A>(o: Seq<A>, a: Seq<A>, b: Seq<A>, c: Seq<A>)
    ensures
        o + (a + b + c) == o + a + b + c,
{
    cat2(o, a + b, c);
    cat2(o, a, b);
}

/// `o` before four parts, taken together or one by one.
pub proof fn cat4<A>(o: Seq<A>, a: Seq<A>, b: Seq<A>, c: Seq<A>, d: Seq<A>)
    ensures
        o + (a + b + c + d) == o + a + b + c + d,
{
    cat2(o, a + b + c, d);
    cat3(o, a, b, c);
}

/// `o` before five parts, taken together or one by one.
pub proof fn cat5<A>(o: Seq<A>, a: Seq<A>, b: Seq<A>, c: Seq<A>, d: Seq<A>, e: Seq<A>)
    ensures
        o + (a + b + c + d + e) == o + a + b + c + d + e,
{
    cat2(o, a + b + c + d, e);
    cat4(o, a, b, c, d);
}

/// Two parts before `x`, grouped to the right.
pub proof fn right2<A>(a: Seq<A>, b: Seq<A>, x: Seq<A>)
    ensures
        a + b + x == a + (b + x),
{
    cat2(a, b, x);
}

/// Three parts before `x`, grouped to the right.
pub proof fn right3<A>(a: Seq<A>, b: Seq<A>, c: Seq<A>, x: Seq<A>)
    ensures
        a + b + c + x == a + (b + (c + x)),
{
    right2(a + b, c, x);
    right2(a, b, c + x);
}

/// Four parts before `x`, grouped to the right.
pub proof fn right4<A>(a: Seq<A>, b: Seq<A>, c: Seq<A>, d: Seq<A>, x: Seq<A>)
    ensures
        a + b + c + d + x == a + (b + (c + (d + x))),
{
    right2(a + b + c, d, x);
    right3(a, b, c, d + x);
}

} // verus!
