//! The canonical encoding is unambiguous, and blind to incidental order.
use vstd::prelude::*;
use vstd::utf8::*;

use crate::hash;
use crate::ir::{Atom, AtomView, BranchView, CExprView, CoreView, DefView, EffectView, LiteralView, PredView, TypeView};
use crate::order;
use crate::seqs;

verus! {

// ---- what the encoding keeps ----------------------------------------------

/// An effect row with its members in ascending order.
pub open spec fn canon_row(r: EffectView) -> EffectView {
    EffectView { caps: order::sorted(r.caps), errors: order::sorted(r.errors) }
}

/// A type with every effect row in ascending order.
pub open spec fn canon_type(t: TypeView) -> TypeView
    decreases t, 0nat,
{
    match t {
        TypeView::Array(inner, n) => TypeView::Array(Box::new(canon_type(*inner)), n),
        TypeView::Slice(inner) => TypeView::Slice(Box::new(canon_type(*inner))),
        TypeView::Tuple(elems) => TypeView::Tuple(canon_types(elems, elems.len())),
        TypeView::Arrow { param, ret, effects } => TypeView::Arrow {
            param: Box::new(canon_type(*param)),
            ret: Box::new(canon_type(*ret)),
            effects: canon_row(effects),
        },
        TypeView::Nominal { def, args } => TypeView::Nominal {
            def,
            args: canon_types(args, args.len()),
        },
        TypeView::Ref { mutable, of } => TypeView::Ref { mutable, of: Box::new(canon_type(*of)) },
        TypeView::Linear(inner) => TypeView::Linear(Box::new(canon_type(*inner))),
        _ => t,
    }
}

/// The first `n` types of `v`, each with its effect rows in ascending order.
pub open spec fn canon_types(v: Seq<TypeView>, n: nat) -> Seq<TypeView>
    decreases v, n,
{
    if n == 0 || n > v.len() {
        Seq::empty()
    } else {
        canon_types(v, (n - 1) as nat).push(canon_type(v[n - 1]))
    }
}

/// A term with every effect row in ascending order.
pub open spec fn canon_core(c: CoreView) -> CoreView
    decreases c, 0nat,
{
    match c {
        CoreView::Let { value, body } => CoreView::Let {
            value: Box::new(canon_core(*value)),
            body: Box::new(canon_core(*body)),
        },
        CoreView::Lam { param, effects, body } => CoreView::Lam {
            param: canon_type(param),
            effects: canon_row(effects),
            body: Box::new(canon_core(*body)),
        },
        CoreView::Array { elem, items } => CoreView::Array { elem: canon_type(elem), items },
        CoreView::Match { scrutinee, branches } => CoreView::Match {
            scrutinee,
            branches: canon_branches(branches, branches.len()),
        },
        CoreView::Cast { value, to } => CoreView::Cast { value, to: canon_type(to) },
        CoreView::Loop { state, inv, cond, body } => CoreView::Loop {
            state,
            inv,
            cond: Box::new(canon_core(*cond)),
            body: Box::new(canon_core(*body)),
        },
        CoreView::ListNew { elem, alloc, capacity } => CoreView::ListNew {
            elem: canon_type(elem),
            alloc,
            capacity,
        },
        _ => c,
    }
}

/// The first `n` branches of `v`, each with its effect rows in ascending order.
pub open spec fn canon_branches(v: Seq<BranchView>, n: nat) -> Seq<BranchView>
    decreases v, n,
{
    if n == 0 || n > v.len() {
        Seq::empty()
    } else {
        canon_branches(v, (n - 1) as nat).push(
            BranchView { binds: v[n - 1].binds, body: canon_core(v[n - 1].body) },
        )
    }
}

/// A definition with every effect row in ascending order.
pub open spec fn canon_def(d: DefView) -> DefView {
    DefView {
        ty: canon_type(d.ty),
        body: match d.body {
            Some(c) => Some(canon_core(c)),
            None => None,
        },
        ..d
    }
}

// ---- values whose lengths fit in eight bytes --------------------------------

/// Whether a length fits in eight bytes.
pub open spec fn fits_len(n: nat) -> bool {
    n <= u64::MAX
}

pub open spec fn fits_hashes(v: Seq<Seq<u8>>) -> bool {
    fits_len(v.len()) && forall|i: int| 0 <= i < v.len() ==> (#[trigger] v[i]).len() == 32
}

pub open spec fn fits_row(r: EffectView) -> bool {
    fits_hashes(r.caps) && fits_hashes(r.errors)
}

/// Whether every length inside a type fits in eight bytes and every hash has
/// its 32 bytes, as in every value that a machine holds.
pub open spec fn fits_type(t: TypeView) -> bool
    decreases t,
{
    match t {
        TypeView::Array(inner, n) => fits_type(*inner),
        TypeView::Slice(inner) => fits_type(*inner),
        TypeView::Tuple(elems) => fits_len(elems.len()) && forall|i: int|
            0 <= i < elems.len() ==> fits_type(#[trigger] elems[i]),
        TypeView::Arrow { param, ret, effects } => fits_type(*param) && fits_type(*ret) && fits_row(
            effects,
        ),
        TypeView::Nominal { def, args } => def.len() == 32 && fits_len(args.len()) && forall|i: int|
            0 <= i < args.len() ==> fits_type(#[trigger] args[i]),
        TypeView::Ref { mutable, of } => fits_type(*of),
        TypeView::Linear(inner) => fits_type(*inner),
        _ => true,
    }
}

pub open spec fn fits_atom(a: AtomView) -> bool {
    match a {
        AtomView::Var(_) => true,
        AtomView::Global(h) => h.len() == 32,
        AtomView::Lit(LiteralView::Str(s)) => fits_len(encode_utf8(s).len()),
        AtomView::Lit(_) => true,
    }
}

pub open spec fn fits_atoms(v: Seq<AtomView>) -> bool {
    fits_len(v.len()) && forall|i: int| 0 <= i < v.len() ==> fits_atom(#[trigger] v[i])
}

pub open spec fn fits_cexpr(x: CExprView) -> bool
    decreases x,
{
    match x {
        CExprView::Atom(a) => fits_atom(a),
        CExprView::Bin(op, l, r) => fits_cexpr(*l) && fits_cexpr(*r),
        CExprView::Neg(e) => fits_cexpr(*e),
        CExprView::Len(e) => fits_cexpr(*e),
        CExprView::Index(b, i) => fits_cexpr(*b) && fits_cexpr(*i),
        CExprView::Proj(b, k) => fits_cexpr(*b),
    }
}

pub open spec fn fits_pred(p: PredView) -> bool
    decreases p,
{
    match p {
        PredView::True => true,
        PredView::False => true,
        PredView::Cmp(op, l, r) => fits_cexpr(l) && fits_cexpr(r),
        PredView::And(l, r) => fits_pred(*l) && fits_pred(*r),
        PredView::Or(l, r) => fits_pred(*l) && fits_pred(*r),
        PredView::Not(q) => fits_pred(*q),
        PredView::Forall { lo, hi, body } => fits_cexpr(lo) && fits_cexpr(hi) && fits_pred(*body),
        PredView::Exists { lo, hi, body } => fits_cexpr(lo) && fits_cexpr(hi) && fits_pred(*body),
    }
}

pub open spec fn fits_core(c: CoreView) -> bool
    decreases c,
{
    match c {
        CoreView::Atom(a) => fits_atom(a),
        CoreView::Let { value, body } => fits_core(*value) && fits_core(*body),
        CoreView::Lam { param, effects, body } => fits_type(param) && fits_row(effects)
            && fits_core(*body),
        CoreView::App { func, arg } => fits_atom(func) && fits_atom(arg),
        CoreView::Ctor { ty, tag, fields } => ty.len() == 32 && fits_atoms(fields),
        CoreView::Array { elem, items } => fits_type(elem) && fits_atoms(items),
        CoreView::IndexSet { base, index, value } => fits_atom(base) && fits_atom(index)
            && fits_atom(value),
        CoreView::Proj { base, idx } => fits_atom(base),
        CoreView::Match { scrutinee, branches } => fits_atom(scrutinee) && fits_len(branches.len())
            && forall|i: int| 0 <= i < branches.len() ==> fits_core((#[trigger] branches[i]).body),
        CoreView::Prim { op, args } => fits_atoms(args),
        CoreView::Cast { value, to } => fits_atom(value) && fits_type(to),
        CoreView::Ref { mutable, of } => fits_atom(of),
        CoreView::Perform { cap, op, args } => fits_atom(cap) && fits_atoms(args),
        CoreView::Raise { error, args } => error.len() == 32 && fits_atoms(args),
        CoreView::Loop { state, inv, cond, body } => fits_atoms(state) && (match inv {
            Some(p) => fits_pred(p),
            None => true,
        }) && fits_core(*cond) && fits_core(*body),
        CoreView::ListNew { elem, alloc, capacity } => fits_type(elem) && fits_atom(alloc)
            && fits_atom(capacity),
        CoreView::ListPush { alloc, list, value } => fits_atom(alloc) && fits_atom(list)
            && fits_atom(value),
        CoreView::ListPop { list } => fits_atom(list),
        CoreView::ListSet { list, index, value } => fits_atom(list) && fits_atom(index)
            && fits_atom(value),
        CoreView::Return { value } => fits_atom(value),
    }
}

pub open spec fn fits_preds(v: Seq<PredView>) -> bool {
    fits_len(v.len()) && forall|i: int| 0 <= i < v.len() ==> fits_pred(#[trigger] v[i])
}

/// Whether every length inside a definition fits in eight bytes and every hash
/// has its 32 bytes, as in every value that a machine holds.
pub open spec fn fits_def(d: DefView) -> bool {
    &&& fits_type(d.ty)
    &&& fits_preds(d.pre)
    &&& fits_preds(d.post)
    &&& match d.body {
        Some(c) => fits_core(c),
        None => true,
    }
}

// ---- reading a stream back --------------------------------------------------

/// Two streams that start with parts of equal length and agree, agree part by part.
proof fn lemma_split(a: Seq<u8>, x: Seq<u8>, b: Seq<u8>, y: Seq<u8>)
    requires
        a + x == b + y,
        a.len() == b.len(),
    ensures
        a == b,
        x == y,
{
    assert(a =~= (a + x).take(a.len() as int));
    assert(b =~= (b + y).take(b.len() as int));
    assert(x =~= (a + x).skip(a.len() as int));
    assert(y =~= (b + y).skip(b.len() as int));
}

proof fn lemma_le32_inj(m: u32, x: Seq<u8>, n: u32, y: Seq<u8>)
    requires
        hash::le32(m) + x == hash::le32(n) + y,
    ensures
        m == n,
        x == y,
{
    lemma_split(hash::le32(m), x, hash::le32(n), y);
    assert(hash::le32(m)[0] == hash::le32(n)[0]);
    assert(hash::le32(m)[1] == hash::le32(n)[1]);
    assert(hash::le32(m)[2] == hash::le32(n)[2]);
    assert(hash::le32(m)[3] == hash::le32(n)[3]);
}

proof fn lemma_le64_inj(m: u64, x: Seq<u8>, n: u64, y: Seq<u8>)
    requires
        hash::le64(m) + x == hash::le64(n) + y,
    ensures
        m == n,
        x == y,
{
    let m0 = (m % 4294967296) as u32;
    let m1 = (m / 4294967296) as u32;
    let n0 = (n % 4294967296) as u32;
    let n1 = (n / 4294967296) as u32;
    assert(hash::le64(m) + x =~= hash::le32(m0) + (hash::le32(m1) + x));
    assert(hash::le64(n) + y =~= hash::le32(n0) + (hash::le32(n1) + y));
    lemma_le32_inj(m0, hash::le32(m1) + x, n0, hash::le32(n1) + y);
    lemma_le32_inj(m1, x, n1, y);
}

proof fn lemma_len_inj(m: nat, x: Seq<u8>, n: nat, y: Seq<u8>)
    requires
        hash::enc_len(m) + x == hash::enc_len(n) + y,
        fits_len(m),
        fits_len(n),
    ensures
        m == n,
        x == y,
{
    lemma_le64_inj(m as u64, x, n as u64, y);
}

proof fn lemma_tag_inj(m: u8, x: Seq<u8>, n: u8, y: Seq<u8>)
    requires
        hash::tag(m) + x == hash::tag(n) + y,
    ensures
        m == n,
        x == y,
{
    lemma_split(hash::tag(m), x, hash::tag(n), y);
    assert(hash::tag(m)[0] == hash::tag(n)[0]);
}

proof fn lemma_bool_inj(a: bool, x: Seq<u8>, b: bool, y: Seq<u8>)
    requires
        hash::enc_bool(a) + x == hash::enc_bool(b) + y,
    ensures
        a == b,
        x == y,
{
    lemma_tag_inj(if a { 1u8 } else { 0u8 }, x, if b { 1u8 } else { 0u8 }, y);
}

proof fn lemma_hash_list_inj(v: Seq<Seq<u8>>, x: Seq<u8>, w: Seq<Seq<u8>>, y: Seq<u8>, n: nat)
    requires
        n <= v.len(),
        n <= w.len(),
        forall|i: int| 0 <= i < v.len() ==> (#[trigger] v[i]).len() == 32,
        forall|i: int| 0 <= i < w.len() ==> (#[trigger] w[i]).len() == 32,
        hash::concat(v, n) + x == hash::concat(w, n) + y,
    ensures
        forall|i: int| 0 <= i < n ==> v[i] == w[i],
        x == y,
    decreases n,
{
    if n == 0 {
        assert(hash::concat(v, n) + x =~= x);
        assert(hash::concat(w, n) + y =~= y);
    } else {
        let k = (n - 1) as nat;
        assert(hash::concat(v, n) + x =~= hash::concat(v, k) + (v[n - 1] + x));
        assert(hash::concat(w, n) + y =~= hash::concat(w, k) + (w[n - 1] + y));
        lemma_hash_list_inj(v, v[n - 1] + x, w, w[n - 1] + y, k);
        lemma_split(v[n - 1], x, w[n - 1], y);
    }
}

proof fn lemma_sorted_fits(v: Seq<Seq<u8>>)
    requires
        fits_hashes(v),
    ensures
        fits_hashes(order::sorted(v)),
        order::sorted(v).len() == v.len(),
{
    order::lemma_sorted_members(v);
    v.to_multiset_ensures();
    order::sorted(v).to_multiset_ensures();
    assert forall|i: int| 0 <= i < order::sorted(v).len() implies (#[trigger] order::sorted(v)[i]).len() == 32 by {
        let h = order::sorted(v)[i];
        assert(order::sorted(v).contains(h));
        assert(v.to_multiset().count(h) > 0);
        assert(v.contains(h));
        let k = choose|k: int| 0 <= k < v.len() && v[k] == h;
        assert(v[k].len() == 32);
    }
}

proof fn lemma_hash_set_inj(v: Seq<Seq<u8>>, x: Seq<u8>, w: Seq<Seq<u8>>, y: Seq<u8>)
    requires
        fits_hashes(v),
        fits_hashes(w),
        hash::enc_hash_set(v) + x == hash::enc_hash_set(w) + y,
    ensures
        order::sorted(v) == order::sorted(w),
        x == y,
{
    lemma_sorted_fits(v);
    lemma_sorted_fits(w);
    let p = hash::concat(order::sorted(v), v.len());
    let q = hash::concat(order::sorted(w), w.len());
    assert(hash::enc_hash_set(v) + x =~= hash::enc_len(v.len()) + (p + x));
    assert(hash::enc_hash_set(w) + y =~= hash::enc_len(w.len()) + (q + y));
    lemma_len_inj(v.len(), p + x, w.len(), q + y);
    lemma_hash_list_inj(order::sorted(v), x, order::sorted(w), y, v.len());
    assert(order::sorted(v) =~= order::sorted(w));
}

proof fn lemma_row_inj(a: EffectView, x: Seq<u8>, b: EffectView, y: Seq<u8>)
    requires
        fits_row(a),
        fits_row(b),
        hash::enc_row(a) + x == hash::enc_row(b) + y,
    ensures
        canon_row(a) == canon_row(b),
        x == y,
{
    assert(hash::enc_row(a) + x =~= hash::enc_hash_set(a.caps) + (hash::enc_hash_set(a.errors) + x));
    assert(hash::enc_row(b) + y =~= hash::enc_hash_set(b.caps) + (hash::enc_hash_set(b.errors) + y));
    lemma_hash_set_inj(a.caps, hash::enc_hash_set(a.errors) + x, b.caps, hash::enc_hash_set(b.errors) + y);
    lemma_hash_set_inj(a.errors, x, b.errors, y);
}

/// The tag byte of an encoding and what follows it.
spec fn split_type(a: TypeView) -> (u8, Seq<u8>) {
    match a {
        TypeView::Unit => (0, Seq::empty()),
        TypeView::Bool => (1, Seq::empty()),
        TypeView::Int(p01) => (2, hash::tag(hash::intty_tag(p01))),
        TypeView::Float(p01) => (3, hash::tag(hash::floatty_tag(p01))),
        TypeView::Str => (4, Seq::empty()),
        TypeView::Char => (5, Seq::empty()),
        TypeView::Array(p01, p11) => (6, hash::enc_type(*p01) + hash::le64(p11)),
        TypeView::Slice(p01) => (7, hash::enc_type(*p01)),
        TypeView::Tuple(p01) => (8, hash::enc_len(p01.len()) + hash::enc_types(p01, p01.len())),
        TypeView::Arrow { param: param1, ret: ret1, effects: effects1 } => (9, hash::enc_type(*param1) + hash::enc_type(*ret1) + hash::enc_row(effects1)),
        TypeView::Nominal { def: def1, args: args1 } => (10, def1 + hash::enc_len(args1.len()) + hash::enc_types(args1, args1.len())),
        TypeView::Ref { mutable: mutable1, of: of1 } => (11, hash::enc_bool(mutable1) + hash::enc_type(*of1)),
        TypeView::Linear(p01) => (12, hash::enc_type(*p01)),
        TypeView::Var(p01) => (13, hash::le32(p01)),
    }
}

proof fn lemma_type_head(a: TypeView, x: Seq<u8>)
    ensures
        hash::enc_type(a) + x == hash::tag(split_type(a).0) + (split_type(a).1 + x),
{
    let (s, p) = split_type(a);
    let t = hash::tag(s);
    match a {
        TypeView::Unit => {
            assert(p + x =~= x);
        },
        TypeView::Bool => {
            assert(p + x =~= x);
        },
        TypeView::Int(p01) => {
            seqs::cat2(t, p, x);
        },
        TypeView::Float(p01) => {
            seqs::cat2(t, p, x);
        },
        TypeView::Str => {
            assert(p + x =~= x);
        },
        TypeView::Char => {
            assert(p + x =~= x);
        },
        TypeView::Array(p01, p11) => {
            seqs::cat2(t, hash::enc_type(*p01), hash::le64(p11));
            seqs::cat2(t, p, x);
        },
        TypeView::Slice(p01) => {
            seqs::cat2(t, p, x);
        },
        TypeView::Tuple(p01) => {
            seqs::cat2(t, hash::enc_len(p01.len()), hash::enc_types(p01, p01.len()));
            seqs::cat2(t, p, x);
        },
        TypeView::Arrow { param: param1, ret: ret1, effects: effects1 } => {
            seqs::cat3(t, hash::enc_type(*param1), hash::enc_type(*ret1), hash::enc_row(effects1));
            seqs::cat2(t, p, x);
        },
        TypeView::Nominal { def: def1, args: args1 } => {
            seqs::cat3(t, def1, hash::enc_len(args1.len()), hash::enc_types(args1, args1.len()));
            seqs::cat2(t, p, x);
        },
        TypeView::Ref { mutable: mutable1, of: of1 } => {
            seqs::cat2(t, hash::enc_bool(mutable1), hash::enc_type(*of1));
            seqs::cat2(t, p, x);
        },
        TypeView::Linear(p01) => {
            seqs::cat2(t, p, x);
        },
        TypeView::Var(p01) => {
            seqs::cat2(t, p, x);
        },
    }
}

proof fn lemma_type_inj(a: TypeView, x: Seq<u8>, b: TypeView, y: Seq<u8>)
    requires
        fits_type(a),
        fits_type(b),
        hash::enc_type(a) + x == hash::enc_type(b) + y,
    ensures
        canon_type(a) == canon_type(b),
        x == y,
    decreases a, 0nat,
{
    let (s, p) = split_type(a);
    let (t, q) = split_type(b);
    lemma_type_head(a, x);
    lemma_type_head(b, y);
    lemma_tag_inj(s, p + x, t, q + y);
    match (a, b) {
        (TypeView::Unit, TypeView::Unit) => {
            assert(p + x =~= x);
            assert(q + y =~= y);
        },
        (TypeView::Bool, TypeView::Bool) => {
            assert(p + x =~= x);
            assert(q + y =~= y);
        },
        (TypeView::Int(p01), TypeView::Int(p02)) => {
            lemma_tag_inj(hash::intty_tag(p01), x, hash::intty_tag(p02), y);
        },
        (TypeView::Float(p01), TypeView::Float(p02)) => {
            lemma_tag_inj(hash::floatty_tag(p01), x, hash::floatty_tag(p02), y);
        },
        (TypeView::Str, TypeView::Str) => {
            assert(p + x =~= x);
            assert(q + y =~= y);
        },
        (TypeView::Char, TypeView::Char) => {
            assert(p + x =~= x);
            assert(q + y =~= y);
        },
        (TypeView::Array(p01, p11), TypeView::Array(p02, p12)) => {
            seqs::right2(hash::enc_type(*p01), hash::le64(p11), x);
            seqs::right2(hash::enc_type(*p02), hash::le64(p12), y);
            lemma_type_inj(*p01, hash::le64(p11) + x, *p02, hash::le64(p12) + y);
            lemma_le64_inj(p11, x, p12, y);
        },
        (TypeView::Slice(p01), TypeView::Slice(p02)) => {
            lemma_type_inj(*p01, x, *p02, y);
        },
        (TypeView::Tuple(p01), TypeView::Tuple(p02)) => {
            seqs::right2(hash::enc_len(p01.len()), hash::enc_types(p01, p01.len()), x);
            seqs::right2(hash::enc_len(p02.len()), hash::enc_types(p02, p02.len()), y);
            lemma_len_inj(p01.len(), hash::enc_types(p01, p01.len()) + x, p02.len(), hash::enc_types(p02, p02.len()) + y);
            lemma_types_inj(p01, x, p02, y, p01.len());
        },
        (TypeView::Arrow { param: param1, ret: ret1, effects: effects1 }, TypeView::Arrow { param: param2, ret: ret2, effects: effects2 }) => {
            seqs::right3(hash::enc_type(*param1), hash::enc_type(*ret1), hash::enc_row(effects1), x);
            seqs::right3(hash::enc_type(*param2), hash::enc_type(*ret2), hash::enc_row(effects2), y);
            lemma_type_inj(*param1, hash::enc_type(*ret1) + (hash::enc_row(effects1) + x), *param2, hash::enc_type(*ret2) + (hash::enc_row(effects2) + y));
            lemma_type_inj(*ret1, hash::enc_row(effects1) + x, *ret2, hash::enc_row(effects2) + y);
            lemma_row_inj(effects1, x, effects2, y);
        },
        (TypeView::Nominal { def: def1, args: args1 }, TypeView::Nominal { def: def2, args: args2 }) => {
            seqs::right3(def1, hash::enc_len(args1.len()), hash::enc_types(args1, args1.len()), x);
            seqs::right3(def2, hash::enc_len(args2.len()), hash::enc_types(args2, args2.len()), y);
            lemma_split(def1, hash::enc_len(args1.len()) + (hash::enc_types(args1, args1.len()) + x), def2, hash::enc_len(args2.len()) + (hash::enc_types(args2, args2.len()) + y));
            lemma_len_inj(args1.len(), hash::enc_types(args1, args1.len()) + x, args2.len(), hash::enc_types(args2, args2.len()) + y);
            lemma_types_inj(args1, x, args2, y, args1.len());
        },
        (TypeView::Ref { mutable: mutable1, of: of1 }, TypeView::Ref { mutable: mutable2, of: of2 }) => {
            seqs::right2(hash::enc_bool(mutable1), hash::enc_type(*of1), x);
            seqs::right2(hash::enc_bool(mutable2), hash::enc_type(*of2), y);
            lemma_bool_inj(mutable1, hash::enc_type(*of1) + x, mutable2, hash::enc_type(*of2) + y);
            lemma_type_inj(*of1, x, *of2, y);
        },
        (TypeView::Linear(p01), TypeView::Linear(p02)) => {
            lemma_type_inj(*p01, x, *p02, y);
        },
        (TypeView::Var(p01), TypeView::Var(p02)) => {
            lemma_le32_inj(p01, x, p02, y);
        },
        _ => {},
    }
}

proof fn lemma_types_inj(v: Seq<TypeView>, x: Seq<u8>, w: Seq<TypeView>, y: Seq<u8>, n: nat)
    requires
        n <= v.len(),
        n <= w.len(),
        forall|i: int| 0 <= i < v.len() ==> fits_type(#[trigger] v[i]),
        forall|i: int| 0 <= i < w.len() ==> fits_type(#[trigger] w[i]),
        hash::enc_types(v, n) + x == hash::enc_types(w, n) + y,
    ensures
        canon_types(v, n) == canon_types(w, n),
        x == y,
    decreases v, n,
{
    if n == 0 {
        assert(hash::enc_types(v, n) + x =~= x);
        assert(hash::enc_types(w, n) + y =~= y);
    } else {
        let k = (n - 1) as nat;
        let p = hash::enc_type(v[n - 1]);
        let q = hash::enc_type(w[n - 1]);
        assert(hash::enc_types(v, n) + x =~= hash::enc_types(v, k) + (p + x));
        assert(hash::enc_types(w, n) + y =~= hash::enc_types(w, k) + (q + y));
        lemma_types_inj(v, p + x, w, q + y, k);
        lemma_type_inj(v[n - 1], x, w[n - 1], y);
    }
}

proof fn lemma_cast_inj(m: i64, n: i64)
    requires
        m as u64 == n as u64,
    ensures
        m == n,
{
    assert(m as u64 == n as u64 ==> m == n) by (bit_vector);
}

proof fn lemma_str_inj(s: Seq<char>, x: Seq<u8>, t: Seq<char>, y: Seq<u8>)
    requires
        fits_len(encode_utf8(s).len()),
        fits_len(encode_utf8(t).len()),
        hash::enc_str(s) + x == hash::enc_str(t) + y,
    ensures
        s == t,
        x == y,
{
    let p = encode_utf8(s);
    let q = encode_utf8(t);
    assert(hash::enc_str(s) + x =~= hash::enc_len(p.len()) + (p + x));
    assert(hash::enc_str(t) + y =~= hash::enc_len(q.len()) + (q + y));
    lemma_len_inj(p.len(), p + x, q.len(), q + y);
    lemma_split(p, x, q, y);
    encode_utf8_decode_utf8(s);
    encode_utf8_decode_utf8(t);
}

proof fn lemma_atom_inj(a: AtomView, x: Seq<u8>, b: AtomView, y: Seq<u8>)
    requires
        fits_atom(a),
        fits_atom(b),
        hash::enc_atom(a) + x == hash::enc_atom(b) + y,
    ensures
        a == b,
        x == y,
{
    let (s, p) = split_atom(a);
    let (t, q) = split_atom(b);
    seqs::cat2(hash::tag(s), p, x);
    seqs::cat2(hash::tag(t), q, y);
    lemma_tag_inj(s, p + x, t, q + y);
    match (a, b) {
        (AtomView::Var(i), AtomView::Var(j)) => lemma_le32_inj(i, x, j, y),
        (AtomView::Global(g), AtomView::Global(h)) => lemma_split(g, x, h, y),
        (AtomView::Lit(l), AtomView::Lit(m)) => {
            let (s2, p2) = split_literal(l);
            let (t2, q2) = split_literal(m);
            lemma_literal_head(l, x);
            lemma_literal_head(m, y);
            lemma_tag_inj(s2, p2 + x, t2, q2 + y);
            match (l, m) {
                (LiteralView::Unit, LiteralView::Unit) => {
                    assert(p2 + x =~= x);
                    assert(q2 + y =~= y);
                },
                (LiteralView::Bool(c), LiteralView::Bool(d)) => lemma_bool_inj(c, x, d, y),
                (LiteralView::Int(c), LiteralView::Int(d)) => {
                    lemma_le64_inj(c as u64, x, d as u64, y);
                    lemma_cast_inj(c, d);
                },
                (LiteralView::Float(c), LiteralView::Float(d)) => lemma_le64_inj(c, x, d, y),
                (LiteralView::Str(c), LiteralView::Str(d)) => lemma_str_inj(c, x, d, y),
                (LiteralView::Char(c), LiteralView::Char(d)) => lemma_le32_inj(
                    c as u32,
                    x,
                    d as u32,
                    y,
                ),
                _ => {},
            }
        },
        _ => {},
    }
}

proof fn lemma_literal_head(l: LiteralView, x: Seq<u8>)
    ensures
        hash::enc_literal(l) + x == hash::tag(split_literal(l).0) + (split_literal(l).1 + x),
{
    let (s, p) = split_literal(l);
    match l {
        LiteralView::Unit => {
            assert(p + x =~= x);
        },
        _ => seqs::cat2(hash::tag(s), p, x),
    }
}

/// The tag byte of an encoding and what follows it.
spec fn split_atom(a: AtomView) -> (u8, Seq<u8>) {
    match a {
        AtomView::Var(i) => (0, hash::le32(i)),
        AtomView::Global(h) => (1, h),
        AtomView::Lit(l) => (2, hash::enc_literal(l)),
    }
}

/// The tag byte of an encoding and what follows it.
spec fn split_literal(l: LiteralView) -> (u8, Seq<u8>) {
    match l {
        LiteralView::Unit => (0, Seq::empty()),
        LiteralView::Bool(b) => (1, hash::enc_bool(b)),
        LiteralView::Int(n) => (2, hash::le64(n as u64)),
        LiteralView::Float(n) => (3, hash::le64(n)),
        LiteralView::Str(s) => (4, hash::enc_str(s)),
        LiteralView::Char(c) => (5, hash::le32(c as u32)),
    }
}

proof fn lemma_atom_list_inj(v: Seq<AtomView>, x: Seq<u8>, w: Seq<AtomView>, y: Seq<u8>, n: nat)
    requires
        n <= v.len(),
        n <= w.len(),
        forall|i: int| 0 <= i < v.len() ==> fits_atom(#[trigger] v[i]),
        forall|i: int| 0 <= i < w.len() ==> fits_atom(#[trigger] w[i]),
        hash::enc_atom_list(v, n) + x == hash::enc_atom_list(w, n) + y,
    ensures
        forall|i: int| 0 <= i < n ==> v[i] == w[i],
        x == y,
    decreases n,
{
    if n == 0 {
        assert(hash::enc_atom_list(v, n) + x =~= x);
        assert(hash::enc_atom_list(w, n) + y =~= y);
    } else {
        let k = (n - 1) as nat;
        let p = hash::enc_atom(v[n - 1]);
        let q = hash::enc_atom(w[n - 1]);
        assert(hash::enc_atom_list(v, n) + x =~= hash::enc_atom_list(v, k) + (p + x));
        assert(hash::enc_atom_list(w, n) + y =~= hash::enc_atom_list(w, k) + (q + y));
        lemma_atom_list_inj(v, p + x, w, q + y, k);
        lemma_atom_inj(v[n - 1], x, w[n - 1], y);
    }
}

proof fn lemma_atoms_inj(v: Seq<AtomView>, x: Seq<u8>, w: Seq<AtomView>, y: Seq<u8>)
    requires
        fits_atoms(v),
        fits_atoms(w),
        hash::enc_atoms(v) + x == hash::enc_atoms(w) + y,
    ensures
        v == w,
        x == y,
{
    let p = hash::enc_atom_list(v, v.len());
    let q = hash::enc_atom_list(w, w.len());
    assert(hash::enc_atoms(v) + x =~= hash::enc_len(v.len()) + (p + x));
    assert(hash::enc_atoms(w) + y =~= hash::enc_len(w.len()) + (q + y));
    lemma_len_inj(v.len(), p + x, w.len(), q + y);
    lemma_atom_list_inj(v, x, w, y, v.len());
    assert(v =~= w);
}

/// The tag byte of an encoding and what follows it.
spec fn split_cexpr(a: CExprView) -> (u8, Seq<u8>) {
    match a {
        CExprView::Atom(c) => split_atom(c),
        CExprView::Bin(op, l, r) => (3, hash::tag(hash::arithop_tag(op)) + hash::enc_cexpr(*l) + hash::enc_cexpr(*r)),
        CExprView::Neg(e) => (4, hash::enc_cexpr(*e)),
        CExprView::Len(e) => (5, hash::enc_cexpr(*e)),
        CExprView::Index(b, i) => (6, hash::enc_cexpr(*b) + hash::enc_cexpr(*i)),
        CExprView::Proj(b, k) => (7, hash::enc_cexpr(*b) + hash::le32(k)),
    }
}

proof fn lemma_cexpr_head(a: CExprView, x: Seq<u8>)
    ensures
        hash::enc_cexpr(a) + x == hash::tag(split_cexpr(a).0) + (split_cexpr(a).1 + x),
{
    let (s, p) = split_cexpr(a);
    let t = hash::tag(s);
    match a {
        CExprView::Atom(c) => seqs::cat2(t, p, x),
        CExprView::Bin(op, l, r) => {
            seqs::cat3(t, hash::tag(hash::arithop_tag(op)), hash::enc_cexpr(*l), hash::enc_cexpr(*r));
            seqs::cat2(t, p, x);
        },
        CExprView::Neg(e) => seqs::cat2(t, p, x),
        CExprView::Len(e) => seqs::cat2(t, p, x),
        CExprView::Index(b, i) => {
            seqs::cat2(t, hash::enc_cexpr(*b), hash::enc_cexpr(*i));
            seqs::cat2(t, p, x);
        },
        CExprView::Proj(b, k) => {
            seqs::cat2(t, hash::enc_cexpr(*b), hash::le32(k));
            seqs::cat2(t, p, x);
        },
    }
}

proof fn lemma_cexpr_inj(a: CExprView, x: Seq<u8>, b: CExprView, y: Seq<u8>)
    requires
        fits_cexpr(a),
        fits_cexpr(b),
        hash::enc_cexpr(a) + x == hash::enc_cexpr(b) + y,
    ensures
        a == b,
        x == y,
    decreases a,
{
    let (s, p) = split_cexpr(a);
    let (t, q) = split_cexpr(b);
    lemma_cexpr_head(a, x);
    lemma_cexpr_head(b, y);
    lemma_tag_inj(s, p + x, t, q + y);
    match (a, b) {
        (CExprView::Atom(c), CExprView::Atom(d)) => lemma_atom_inj(c, x, d, y),
        (CExprView::Bin(o1, l1, r1), CExprView::Bin(o2, l2, r2)) => {
            let t1 = hash::enc_cexpr(*r1) + x;
            let t2 = hash::enc_cexpr(*r2) + y;
            assert(p + x =~= hash::tag(hash::arithop_tag(o1)) + (hash::enc_cexpr(*l1) + t1));
            assert(q + y =~= hash::tag(hash::arithop_tag(o2)) + (hash::enc_cexpr(*l2) + t2));
            lemma_tag_inj(hash::arithop_tag(o1), hash::enc_cexpr(*l1) + t1, hash::arithop_tag(o2), hash::enc_cexpr(*l2) + t2);
            lemma_cexpr_inj(*l1, t1, *l2, t2);
            lemma_cexpr_inj(*r1, x, *r2, y);
        },
        (CExprView::Neg(c), CExprView::Neg(d)) => lemma_cexpr_inj(*c, x, *d, y),
        (CExprView::Len(c), CExprView::Len(d)) => lemma_cexpr_inj(*c, x, *d, y),
        (CExprView::Index(b1, i1), CExprView::Index(b2, i2)) => {
            assert(p + x =~= hash::enc_cexpr(*b1) + (hash::enc_cexpr(*i1) + x));
            assert(q + y =~= hash::enc_cexpr(*b2) + (hash::enc_cexpr(*i2) + y));
            lemma_cexpr_inj(*b1, hash::enc_cexpr(*i1) + x, *b2, hash::enc_cexpr(*i2) + y);
            lemma_cexpr_inj(*i1, x, *i2, y);
        },
        (CExprView::Proj(b1, k1), CExprView::Proj(b2, k2)) => {
            assert(p + x =~= hash::enc_cexpr(*b1) + (hash::le32(k1) + x));
            assert(q + y =~= hash::enc_cexpr(*b2) + (hash::le32(k2) + y));
            lemma_cexpr_inj(*b1, hash::le32(k1) + x, *b2, hash::le32(k2) + y);
            lemma_le32_inj(k1, x, k2, y);
        },
        _ => {},
    }
}

/// The tag byte of an encoding and what follows it.
spec fn split_pred(a: PredView) -> (u8, Seq<u8>) {
    match a {
        PredView::True => (0, Seq::empty()),
        PredView::False => (1, Seq::empty()),
        PredView::Cmp(p01, p11, p21) => (2, hash::tag(hash::cmpop_tag(p01)) + hash::enc_cexpr(p11) + hash::enc_cexpr(p21)),
        PredView::And(p01, p11) => (3, hash::enc_pred(*p01) + hash::enc_pred(*p11)),
        PredView::Or(p01, p11) => (4, hash::enc_pred(*p01) + hash::enc_pred(*p11)),
        PredView::Not(p01) => (5, hash::enc_pred(*p01)),
        PredView::Forall { lo: lo1, hi: hi1, body: body1 } => (6, hash::enc_cexpr(lo1) + hash::enc_cexpr(hi1) + hash::enc_pred(*body1)),
        PredView::Exists { lo: lo1, hi: hi1, body: body1 } => (7, hash::enc_cexpr(lo1) + hash::enc_cexpr(hi1) + hash::enc_pred(*body1)),
    }
}

proof fn lemma_pred_head(a: PredView, x: Seq<u8>)
    ensures
        hash::enc_pred(a) + x == hash::tag(split_pred(a).0) + (split_pred(a).1 + x),
{
    let (s, p) = split_pred(a);
    let t = hash::tag(s);
    match a {
        PredView::True => {
            assert(p + x =~= x);
        },
        PredView::False => {
            assert(p + x =~= x);
        },
        PredView::Cmp(p01, p11, p21) => {
            seqs::cat3(t, hash::tag(hash::cmpop_tag(p01)), hash::enc_cexpr(p11), hash::enc_cexpr(p21));
            seqs::cat2(t, p, x);
        },
        PredView::And(p01, p11) => {
            seqs::cat2(t, hash::enc_pred(*p01), hash::enc_pred(*p11));
            seqs::cat2(t, p, x);
        },
        PredView::Or(p01, p11) => {
            seqs::cat2(t, hash::enc_pred(*p01), hash::enc_pred(*p11));
            seqs::cat2(t, p, x);
        },
        PredView::Not(p01) => {
            seqs::cat2(t, p, x);
        },
        PredView::Forall { lo: lo1, hi: hi1, body: body1 } => {
            seqs::cat3(t, hash::enc_cexpr(lo1), hash::enc_cexpr(hi1), hash::enc_pred(*body1));
            seqs::cat2(t, p, x);
        },
        PredView::Exists { lo: lo1, hi: hi1, body: body1 } => {
            seqs::cat3(t, hash::enc_cexpr(lo1), hash::enc_cexpr(hi1), hash::enc_pred(*body1));
            seqs::cat2(t, p, x);
        },
    }
}

proof fn lemma_pred_inj(a: PredView, x: Seq<u8>, b: PredView, y: Seq<u8>)
    requires
        fits_pred(a),
        fits_pred(b),
        hash::enc_pred(a) + x == hash::enc_pred(b) + y,
    ensures
        a == b,
        x == y,
    decreases a,
{
    let (s, p) = split_pred(a);
    let (t, q) = split_pred(b);
    lemma_pred_head(a, x);
    lemma_pred_head(b, y);
    lemma_tag_inj(s, p + x, t, q + y);
    match (a, b) {
        (PredView::True, PredView::True) => {
            assert(p + x =~= x);
            assert(q + y =~= y);
        },
        (PredView::False, PredView::False) => {
            assert(p + x =~= x);
            assert(q + y =~= y);
        },
        (PredView::Cmp(p01, p11, p21), PredView::Cmp(p02, p12, p22)) => {
            seqs::right3(hash::tag(hash::cmpop_tag(p01)), hash::enc_cexpr(p11), hash::enc_cexpr(p21), x);
            seqs::right3(hash::tag(hash::cmpop_tag(p02)), hash::enc_cexpr(p12), hash::enc_cexpr(p22), y);
            lemma_tag_inj(hash::cmpop_tag(p01), hash::enc_cexpr(p11) + (hash::enc_cexpr(p21) + x), hash::cmpop_tag(p02), hash::enc_cexpr(p12) + (hash::enc_cexpr(p22) + y));
            lemma_cexpr_inj(p11, hash::enc_cexpr(p21) + x, p12, hash::enc_cexpr(p22) + y);
            lemma_cexpr_inj(p21, x, p22, y);
        },
        (PredView::And(p01, p11), PredView::And(p02, p12)) => {
            seqs::right2(hash::enc_pred(*p01), hash::enc_pred(*p11), x);
            seqs::right2(hash::enc_pred(*p02), hash::enc_pred(*p12), y);
            lemma_pred_inj(*p01, hash::enc_pred(*p11) + x, *p02, hash::enc_pred(*p12) + y);
            lemma_pred_inj(*p11, x, *p12, y);
        },
        (PredView::Or(p01, p11), PredView::Or(p02, p12)) => {
            seqs::right2(hash::enc_pred(*p01), hash::enc_pred(*p11), x);
            seqs::right2(hash::enc_pred(*p02), hash::enc_pred(*p12), y);
            lemma_pred_inj(*p01, hash::enc_pred(*p11) + x, *p02, hash::enc_pred(*p12) + y);
            lemma_pred_inj(*p11, x, *p12, y);
        },
        (PredView::Not(p01), PredView::Not(p02)) => {
            lemma_pred_inj(*p01, x, *p02, y);
        },
        (PredView::Forall { lo: lo1, hi: hi1, body: body1 }, PredView::Forall { lo: lo2, hi: hi2, body: body2 }) => {
            seqs::right3(hash::enc_cexpr(lo1), hash::enc_cexpr(hi1), hash::enc_pred(*body1), x);
            seqs::right3(hash::enc_cexpr(lo2), hash::enc_cexpr(hi2), hash::enc_pred(*body2), y);
            lemma_cexpr_inj(lo1, hash::enc_cexpr(hi1) + (hash::enc_pred(*body1) + x), lo2, hash::enc_cexpr(hi2) + (hash::enc_pred(*body2) + y));
            lemma_cexpr_inj(hi1, hash::enc_pred(*body1) + x, hi2, hash::enc_pred(*body2) + y);
            lemma_pred_inj(*body1, x, *body2, y);
        },
        (PredView::Exists { lo: lo1, hi: hi1, body: body1 }, PredView::Exists { lo: lo2, hi: hi2, body: body2 }) => {
            seqs::right3(hash::enc_cexpr(lo1), hash::enc_cexpr(hi1), hash::enc_pred(*body1), x);
            seqs::right3(hash::enc_cexpr(lo2), hash::enc_cexpr(hi2), hash::enc_pred(*body2), y);
            lemma_cexpr_inj(lo1, hash::enc_cexpr(hi1) + (hash::enc_pred(*body1) + x), lo2, hash::enc_cexpr(hi2) + (hash::enc_pred(*body2) + y));
            lemma_cexpr_inj(hi1, hash::enc_pred(*body1) + x, hi2, hash::enc_pred(*body2) + y);
            lemma_pred_inj(*body1, x, *body2, y);
        },
        _ => {},
    }
}

proof fn lemma_pred_list_inj(v: Seq<PredView>, x: Seq<u8>, w: Seq<PredView>, y: Seq<u8>, n: nat)
    requires
        n <= v.len(),
        n <= w.len(),
        forall|i: int| 0 <= i < v.len() ==> fits_pred(#[trigger] v[i]),
        forall|i: int| 0 <= i < w.len() ==> fits_pred(#[trigger] w[i]),
        hash::enc_pred_list(v, n) + x == hash::enc_pred_list(w, n) + y,
    ensures
        forall|i: int| 0 <= i < n ==> v[i] == w[i],
        x == y,
    decreases n,
{
    if n == 0 {
        assert(hash::enc_pred_list(v, n) + x =~= x);
        assert(hash::enc_pred_list(w, n) + y =~= y);
    } else {
        let k = (n - 1) as nat;
        let p = hash::enc_pred(v[n - 1]);
        let q = hash::enc_pred(w[n - 1]);
        assert(hash::enc_pred_list(v, n) + x =~= hash::enc_pred_list(v, k) + (p + x));
        assert(hash::enc_pred_list(w, n) + y =~= hash::enc_pred_list(w, k) + (q + y));
        lemma_pred_list_inj(v, p + x, w, q + y, k);
        lemma_pred_inj(v[n - 1], x, w[n - 1], y);
    }
}

proof fn lemma_preds_inj(v: Seq<PredView>, x: Seq<u8>, w: Seq<PredView>, y: Seq<u8>)
    requires
        fits_preds(v),
        fits_preds(w),
        hash::enc_preds(v) + x == hash::enc_preds(w) + y,
    ensures
        v == w,
        x == y,
{
    let p = hash::enc_pred_list(v, v.len());
    let q = hash::enc_pred_list(w, w.len());
    assert(hash::enc_preds(v) + x =~= hash::enc_len(v.len()) + (p + x));
    assert(hash::enc_preds(w) + y =~= hash::enc_len(w.len()) + (q + y));
    lemma_len_inj(v.len(), p + x, w.len(), q + y);
    lemma_pred_list_inj(v, x, w, y, v.len());
    assert(v =~= w);
}

proof fn lemma_inv_inj(a: Option<PredView>, x: Seq<u8>, b: Option<PredView>, y: Seq<u8>)
    requires
        a matches Some(p) ==> fits_pred(p),
        b matches Some(p) ==> fits_pred(p),
        hash::enc_inv(a) + x == hash::enc_inv(b) + y,
    ensures
        a == b,
        x == y,
{
    let (s, p) = match a {
        None => (0u8, Seq::<u8>::empty()),
        Some(c) => (1u8, hash::enc_pred(c)),
    };
    let (t, q) = match b {
        None => (0u8, Seq::<u8>::empty()),
        Some(c) => (1u8, hash::enc_pred(c)),
    };
    assert(hash::enc_inv(a) + x =~= hash::tag(s) + (p + x));
    assert(hash::enc_inv(b) + y =~= hash::tag(t) + (q + y));
    lemma_tag_inj(s, p + x, t, q + y);
    match (a, b) {
        (Some(c), Some(d)) => lemma_pred_inj(c, x, d, y),
        (None, None) => {
            assert(p + x =~= x);
            assert(q + y =~= y);
        },
        _ => {},
    }
}

/// The tag byte of an encoding and what follows it.
spec fn split_core(a: CoreView) -> (u8, Seq<u8>) {
    match a {
        CoreView::Atom(p01) => (0, hash::enc_atom(p01)),
        CoreView::Let { value: value1, body: body1 } => (1, hash::enc_core(*value1) + hash::enc_core(*body1)),
        CoreView::Lam { param: param1, effects: effects1, body: body1 } => (2, hash::enc_type(param1) + hash::enc_row(effects1) + hash::enc_core(*body1)),
        CoreView::App { func: func1, arg: arg1 } => (3, hash::enc_atom(func1) + hash::enc_atom(arg1)),
        CoreView::Ctor { ty: ty1, tag: tag1, fields: fields1 } => (4, ty1 + hash::le32(tag1) + hash::enc_atoms(fields1)),
        CoreView::Proj { base: base1, idx: idx1 } => (5, hash::enc_atom(base1) + hash::le32(idx1)),
        CoreView::Match { scrutinee: scrutinee1, branches: branches1 } => (6, hash::enc_atom(scrutinee1) + hash::enc_len(branches1.len()) + hash::enc_branches(branches1, branches1.len())),
        CoreView::Prim { op: op1, args: args1 } => (7, hash::tag(hash::primop_tag(op1)) + hash::enc_atoms(args1)),
        CoreView::Perform { cap: cap1, op: op1, args: args1 } => (8, hash::enc_atom(cap1) + hash::le32(op1) + hash::enc_atoms(args1)),
        CoreView::Raise { error: error1, args: args1 } => (9, error1 + hash::enc_atoms(args1)),
        CoreView::Loop { state: state1, inv: inv1, cond: cond1, body: body1 } => (10, hash::enc_atoms(state1) + hash::enc_inv(inv1) + hash::enc_core(*cond1) + hash::enc_core(*body1)),
        CoreView::Cast { value: value1, to: to1 } => (11, hash::enc_atom(value1) + hash::enc_type(to1)),
        CoreView::Ref { mutable: mutable1, of: of1 } => (12, hash::enc_bool(mutable1) + hash::enc_atom(of1)),
        CoreView::Array { elem: elem1, items: items1 } => (13, hash::enc_type(elem1) + hash::enc_atoms(items1)),
        CoreView::IndexSet { base: base1, index: index1, value: value1 } => (14, hash::enc_atom(base1) + hash::enc_atom(index1) + hash::enc_atom(value1)),
        CoreView::ListNew { elem: elem1, alloc: alloc1, capacity: capacity1 } => (15, hash::enc_type(elem1) + hash::enc_atom(alloc1) + hash::enc_atom(capacity1)),
        CoreView::ListPush { alloc: alloc1, list: list1, value: value1 } => (16, hash::enc_atom(alloc1) + hash::enc_atom(list1) + hash::enc_atom(value1)),
        CoreView::ListPop { list: list1 } => (17, hash::enc_atom(list1)),
        CoreView::ListSet { list: list1, index: index1, value: value1 } => (18, hash::enc_atom(list1) + hash::enc_atom(index1) + hash::enc_atom(value1)),
        CoreView::Return { value: value1 } => (19, hash::enc_atom(value1)),
    }
}

proof fn lemma_core_head(a: CoreView, x: Seq<u8>)
    ensures
        hash::enc_core(a) + x == hash::tag(split_core(a).0) + (split_core(a).1 + x),
{
    let (s, p) = split_core(a);
    let t = hash::tag(s);
    match a {
        CoreView::Atom(p01) => {
            seqs::cat2(t, p, x);
        },
        CoreView::Let { value: value1, body: body1 } => {
            seqs::cat2(t, hash::enc_core(*value1), hash::enc_core(*body1));
            seqs::cat2(t, p, x);
        },
        CoreView::Lam { param: param1, effects: effects1, body: body1 } => {
            seqs::cat3(t, hash::enc_type(param1), hash::enc_row(effects1), hash::enc_core(*body1));
            seqs::cat2(t, p, x);
        },
        CoreView::App { func: func1, arg: arg1 } => {
            seqs::cat2(t, hash::enc_atom(func1), hash::enc_atom(arg1));
            seqs::cat2(t, p, x);
        },
        CoreView::Ctor { ty: ty1, tag: tag1, fields: fields1 } => {
            seqs::cat3(t, ty1, hash::le32(tag1), hash::enc_atoms(fields1));
            seqs::cat2(t, p, x);
        },
        CoreView::Proj { base: base1, idx: idx1 } => {
            seqs::cat2(t, hash::enc_atom(base1), hash::le32(idx1));
            seqs::cat2(t, p, x);
        },
        CoreView::Match { scrutinee: scrutinee1, branches: branches1 } => {
            seqs::cat3(t, hash::enc_atom(scrutinee1), hash::enc_len(branches1.len()), hash::enc_branches(branches1, branches1.len()));
            seqs::cat2(t, p, x);
        },
        CoreView::Prim { op: op1, args: args1 } => {
            seqs::cat2(t, hash::tag(hash::primop_tag(op1)), hash::enc_atoms(args1));
            seqs::cat2(t, p, x);
        },
        CoreView::Perform { cap: cap1, op: op1, args: args1 } => {
            seqs::cat3(t, hash::enc_atom(cap1), hash::le32(op1), hash::enc_atoms(args1));
            seqs::cat2(t, p, x);
        },
        CoreView::Raise { error: error1, args: args1 } => {
            seqs::cat2(t, error1, hash::enc_atoms(args1));
            seqs::cat2(t, p, x);
        },
        CoreView::Loop { state: state1, inv: inv1, cond: cond1, body: body1 } => {
            seqs::cat4(t, hash::enc_atoms(state1), hash::enc_inv(inv1), hash::enc_core(*cond1), hash::enc_core(*body1));
            seqs::cat2(t, p, x);
        },
        CoreView::Cast { value: value1, to: to1 } => {
            seqs::cat2(t, hash::enc_atom(value1), hash::enc_type(to1));
            seqs::cat2(t, p, x);
        },
        CoreView::Ref { mutable: mutable1, of: of1 } => {
            seqs::cat2(t, hash::enc_bool(mutable1), hash::enc_atom(of1));
            seqs::cat2(t, p, x);
        },
        CoreView::Array { elem: elem1, items: items1 } => {
            seqs::cat2(t, hash::enc_type(elem1), hash::enc_atoms(items1));
            seqs::cat2(t, p, x);
        },
        CoreView::IndexSet { base: base1, index: index1, value: value1 } => {
            seqs::cat3(t, hash::enc_atom(base1), hash::enc_atom(index1), hash::enc_atom(value1));
            seqs::cat2(t, p, x);
        },
        CoreView::ListNew { elem: elem1, alloc: alloc1, capacity: capacity1 } => {
            seqs::cat3(t, hash::enc_type(elem1), hash::enc_atom(alloc1), hash::enc_atom(capacity1));
            seqs::cat2(t, p, x);
        },
        CoreView::ListPush { alloc: alloc1, list: list1, value: value1 } => {
            seqs::cat3(t, hash::enc_atom(alloc1), hash::enc_atom(list1), hash::enc_atom(value1));
            seqs::cat2(t, p, x);
        },
        CoreView::ListPop { list: list1 } => {
            seqs::cat2(t, p, x);
        },
        CoreView::ListSet { list: list1, index: index1, value: value1 } => {
            seqs::cat3(t, hash::enc_atom(list1), hash::enc_atom(index1), hash::enc_atom(value1));
            seqs::cat2(t, p, x);
        },
        CoreView::Return { value: value1 } => {
            seqs::cat2(t, p, x);
        },
    }
}

/// No term's encoding begins another's: bytes that start with the encodings of two
/// terms start with one term, up to the order in which effect rows are written, and
/// go on alike behind it.
pub proof fn lemma_term_bytes_are_prefix_free(a: CoreView, x: Seq<u8>, b: CoreView, y: Seq<u8>)
    requires
        fits_core(a),
        fits_core(b),
        hash::enc_core(a) + x == hash::enc_core(b) + y,
    ensures
        canon_core(a) == canon_core(b),
        x == y,
    decreases a, 0nat,
{
    let (s, p) = split_core(a);
    let (t, q) = split_core(b);
    lemma_core_head(a, x);
    lemma_core_head(b, y);
    lemma_tag_inj(s, p + x, t, q + y);
    match (a, b) {
        (CoreView::Atom(p01), CoreView::Atom(p02)) => {
            lemma_atom_inj(p01, x, p02, y);
        },
        (CoreView::Let { value: value1, body: body1 }, CoreView::Let { value: value2, body: body2 }) => {
            seqs::right2(hash::enc_core(*value1), hash::enc_core(*body1), x);
            seqs::right2(hash::enc_core(*value2), hash::enc_core(*body2), y);
            lemma_term_bytes_are_prefix_free(*value1, hash::enc_core(*body1) + x, *value2, hash::enc_core(*body2) + y);
            lemma_term_bytes_are_prefix_free(*body1, x, *body2, y);
        },
        (CoreView::Lam { param: param1, effects: effects1, body: body1 }, CoreView::Lam { param: param2, effects: effects2, body: body2 }) => {
            seqs::right3(hash::enc_type(param1), hash::enc_row(effects1), hash::enc_core(*body1), x);
            seqs::right3(hash::enc_type(param2), hash::enc_row(effects2), hash::enc_core(*body2), y);
            lemma_type_inj(param1, hash::enc_row(effects1) + (hash::enc_core(*body1) + x), param2, hash::enc_row(effects2) + (hash::enc_core(*body2) + y));
            lemma_row_inj(effects1, hash::enc_core(*body1) + x, effects2, hash::enc_core(*body2) + y);
            lemma_term_bytes_are_prefix_free(*body1, x, *body2, y);
        },
        (CoreView::App { func: func1, arg: arg1 }, CoreView::App { func: func2, arg: arg2 }) => {
            seqs::right2(hash::enc_atom(func1), hash::enc_atom(arg1), x);
            seqs::right2(hash::enc_atom(func2), hash::enc_atom(arg2), y);
            lemma_atom_inj(func1, hash::enc_atom(arg1) + x, func2, hash::enc_atom(arg2) + y);
            lemma_atom_inj(arg1, x, arg2, y);
        },
        (CoreView::Ctor { ty: ty1, tag: tag1, fields: fields1 }, CoreView::Ctor { ty: ty2, tag: tag2, fields: fields2 }) => {
            seqs::right3(ty1, hash::le32(tag1), hash::enc_atoms(fields1), x);
            seqs::right3(ty2, hash::le32(tag2), hash::enc_atoms(fields2), y);
            lemma_split(ty1, hash::le32(tag1) + (hash::enc_atoms(fields1) + x), ty2, hash::le32(tag2) + (hash::enc_atoms(fields2) + y));
            lemma_le32_inj(tag1, hash::enc_atoms(fields1) + x, tag2, hash::enc_atoms(fields2) + y);
            lemma_atoms_inj(fields1, x, fields2, y);
        },
        (CoreView::Proj { base: base1, idx: idx1 }, CoreView::Proj { base: base2, idx: idx2 }) => {
            seqs::right2(hash::enc_atom(base1), hash::le32(idx1), x);
            seqs::right2(hash::enc_atom(base2), hash::le32(idx2), y);
            lemma_atom_inj(base1, hash::le32(idx1) + x, base2, hash::le32(idx2) + y);
            lemma_le32_inj(idx1, x, idx2, y);
        },
        (CoreView::Match { scrutinee: scrutinee1, branches: branches1 }, CoreView::Match { scrutinee: scrutinee2, branches: branches2 }) => {
            seqs::right3(hash::enc_atom(scrutinee1), hash::enc_len(branches1.len()), hash::enc_branches(branches1, branches1.len()), x);
            seqs::right3(hash::enc_atom(scrutinee2), hash::enc_len(branches2.len()), hash::enc_branches(branches2, branches2.len()), y);
            lemma_atom_inj(scrutinee1, hash::enc_len(branches1.len()) + (hash::enc_branches(branches1, branches1.len()) + x), scrutinee2, hash::enc_len(branches2.len()) + (hash::enc_branches(branches2, branches2.len()) + y));
            lemma_len_inj(branches1.len(), hash::enc_branches(branches1, branches1.len()) + x, branches2.len(), hash::enc_branches(branches2, branches2.len()) + y);
            lemma_branches_inj(branches1, x, branches2, y, branches1.len());
        },
        (CoreView::Prim { op: op1, args: args1 }, CoreView::Prim { op: op2, args: args2 }) => {
            seqs::right2(hash::tag(hash::primop_tag(op1)), hash::enc_atoms(args1), x);
            seqs::right2(hash::tag(hash::primop_tag(op2)), hash::enc_atoms(args2), y);
            lemma_tag_inj(hash::primop_tag(op1), hash::enc_atoms(args1) + x, hash::primop_tag(op2), hash::enc_atoms(args2) + y);
            lemma_atoms_inj(args1, x, args2, y);
        },
        (CoreView::Perform { cap: cap1, op: op1, args: args1 }, CoreView::Perform { cap: cap2, op: op2, args: args2 }) => {
            seqs::right3(hash::enc_atom(cap1), hash::le32(op1), hash::enc_atoms(args1), x);
            seqs::right3(hash::enc_atom(cap2), hash::le32(op2), hash::enc_atoms(args2), y);
            lemma_atom_inj(cap1, hash::le32(op1) + (hash::enc_atoms(args1) + x), cap2, hash::le32(op2) + (hash::enc_atoms(args2) + y));
            lemma_le32_inj(op1, hash::enc_atoms(args1) + x, op2, hash::enc_atoms(args2) + y);
            lemma_atoms_inj(args1, x, args2, y);
        },
        (CoreView::Raise { error: error1, args: args1 }, CoreView::Raise { error: error2, args: args2 }) => {
            seqs::right2(error1, hash::enc_atoms(args1), x);
            seqs::right2(error2, hash::enc_atoms(args2), y);
            lemma_split(error1, hash::enc_atoms(args1) + x, error2, hash::enc_atoms(args2) + y);
            lemma_atoms_inj(args1, x, args2, y);
        },
        (CoreView::Loop { state: state1, inv: inv1, cond: cond1, body: body1 }, CoreView::Loop { state: state2, inv: inv2, cond: cond2, body: body2 }) => {
            seqs::right4(hash::enc_atoms(state1), hash::enc_inv(inv1), hash::enc_core(*cond1), hash::enc_core(*body1), x);
            seqs::right4(hash::enc_atoms(state2), hash::enc_inv(inv2), hash::enc_core(*cond2), hash::enc_core(*body2), y);
            lemma_atoms_inj(state1, hash::enc_inv(inv1) + (hash::enc_core(*cond1) + (hash::enc_core(*body1) + x)), state2, hash::enc_inv(inv2) + (hash::enc_core(*cond2) + (hash::enc_core(*body2) + y)));
            lemma_inv_inj(inv1, hash::enc_core(*cond1) + (hash::enc_core(*body1) + x), inv2, hash::enc_core(*cond2) + (hash::enc_core(*body2) + y));
            lemma_term_bytes_are_prefix_free(*cond1, hash::enc_core(*body1) + x, *cond2, hash::enc_core(*body2) + y);
            lemma_term_bytes_are_prefix_free(*body1, x, *body2, y);
        },
        (CoreView::Cast { value: value1, to: to1 }, CoreView::Cast { value: value2, to: to2 }) => {
            seqs::right2(hash::enc_atom(value1), hash::enc_type(to1), x);
            seqs::right2(hash::enc_atom(value2), hash::enc_type(to2), y);
            lemma_atom_inj(value1, hash::enc_type(to1) + x, value2, hash::enc_type(to2) + y);
            lemma_type_inj(to1, x, to2, y);
        },
        (CoreView::Ref { mutable: mutable1, of: of1 }, CoreView::Ref { mutable: mutable2, of: of2 }) => {
            seqs::right2(hash::enc_bool(mutable1), hash::enc_atom(of1), x);
            seqs::right2(hash::enc_bool(mutable2), hash::enc_atom(of2), y);
            lemma_bool_inj(mutable1, hash::enc_atom(of1) + x, mutable2, hash::enc_atom(of2) + y);
            lemma_atom_inj(of1, x, of2, y);
        },
        (CoreView::Array { elem: elem1, items: items1 }, CoreView::Array { elem: elem2, items: items2 }) => {
            seqs::right2(hash::enc_type(elem1), hash::enc_atoms(items1), x);
            seqs::right2(hash::enc_type(elem2), hash::enc_atoms(items2), y);
            lemma_type_inj(elem1, hash::enc_atoms(items1) + x, elem2, hash::enc_atoms(items2) + y);
            lemma_atoms_inj(items1, x, items2, y);
        },
        (CoreView::IndexSet { base: base1, index: index1, value: value1 }, CoreView::IndexSet { base: base2, index: index2, value: value2 }) => {
            seqs::right3(hash::enc_atom(base1), hash::enc_atom(index1), hash::enc_atom(value1), x);
            seqs::right3(hash::enc_atom(base2), hash::enc_atom(index2), hash::enc_atom(value2), y);
            lemma_atom_inj(base1, hash::enc_atom(index1) + (hash::enc_atom(value1) + x), base2, hash::enc_atom(index2) + (hash::enc_atom(value2) + y));
            lemma_atom_inj(index1, hash::enc_atom(value1) + x, index2, hash::enc_atom(value2) + y);
            lemma_atom_inj(value1, x, value2, y);
        },
        (CoreView::ListNew { elem: elem1, alloc: alloc1, capacity: capacity1 }, CoreView::ListNew { elem: elem2, alloc: alloc2, capacity: capacity2 }) => {
            seqs::right3(hash::enc_type(elem1), hash::enc_atom(alloc1), hash::enc_atom(capacity1), x);
            seqs::right3(hash::enc_type(elem2), hash::enc_atom(alloc2), hash::enc_atom(capacity2), y);
            lemma_type_inj(elem1, hash::enc_atom(alloc1) + (hash::enc_atom(capacity1) + x), elem2, hash::enc_atom(alloc2) + (hash::enc_atom(capacity2) + y));
            lemma_atom_inj(alloc1, hash::enc_atom(capacity1) + x, alloc2, hash::enc_atom(capacity2) + y);
            lemma_atom_inj(capacity1, x, capacity2, y);
        },
        (CoreView::ListPush { alloc: alloc1, list: list1, value: value1 }, CoreView::ListPush { alloc: alloc2, list: list2, value: value2 }) => {
            seqs::right3(hash::enc_atom(alloc1), hash::enc_atom(list1), hash::enc_atom(value1), x);
            seqs::right3(hash::enc_atom(alloc2), hash::enc_atom(list2), hash::enc_atom(value2), y);
            lemma_atom_inj(alloc1, hash::enc_atom(list1) + (hash::enc_atom(value1) + x), alloc2, hash::enc_atom(list2) + (hash::enc_atom(value2) + y));
            lemma_atom_inj(list1, hash::enc_atom(value1) + x, list2, hash::enc_atom(value2) + y);
            lemma_atom_inj(value1, x, value2, y);
        },
        (CoreView::ListPop { list: list1 }, CoreView::ListPop { list: list2 }) => {
            lemma_atom_inj(list1, x, list2, y);
        },
        (CoreView::ListSet { list: list1, index: index1, value: value1 }, CoreView::ListSet { list: list2, index: index2, value: value2 }) => {
            seqs::right3(hash::enc_atom(list1), hash::enc_atom(index1), hash::enc_atom(value1), x);
            seqs::right3(hash::enc_atom(list2), hash::enc_atom(index2), hash::enc_atom(value2), y);
            lemma_atom_inj(list1, hash::enc_atom(index1) + (hash::enc_atom(value1) + x), list2, hash::enc_atom(index2) + (hash::enc_atom(value2) + y));
            lemma_atom_inj(index1, hash::enc_atom(value1) + x, index2, hash::enc_atom(value2) + y);
            lemma_atom_inj(value1, x, value2, y);
        },
        (CoreView::Return { value: value1 }, CoreView::Return { value: value2 }) => {
            lemma_atom_inj(value1, x, value2, y);
        },
        _ => {},
    }
}

proof fn lemma_branches_inj(v: Seq<BranchView>, x: Seq<u8>, w: Seq<BranchView>, y: Seq<u8>, n: nat)
    requires
        n <= v.len(),
        n <= w.len(),
        forall|i: int| 0 <= i < v.len() ==> fits_core((#[trigger] v[i]).body),
        forall|i: int| 0 <= i < w.len() ==> fits_core((#[trigger] w[i]).body),
        hash::enc_branches(v, n) + x == hash::enc_branches(w, n) + y,
    ensures
        canon_branches(v, n) == canon_branches(w, n),
        x == y,
    decreases v, n,
{
    if n == 0 {
        assert(hash::enc_branches(v, n) + x =~= x);
        assert(hash::enc_branches(w, n) + y =~= y);
    } else {
        let k = (n - 1) as nat;
        let p = hash::enc_core(v[n - 1].body);
        let q = hash::enc_core(w[n - 1].body);
        let b = hash::le32(v[n - 1].binds);
        let c = hash::le32(w[n - 1].binds);
        assert(hash::enc_branches(v, n) + x =~= hash::enc_branches(v, k) + (b + (p + x)));
        assert(hash::enc_branches(w, n) + y =~= hash::enc_branches(w, k) + (c + (q + y)));
        lemma_branches_inj(v, b + (p + x), w, c + (q + y), k);
        lemma_le32_inj(v[n - 1].binds, p + x, w[n - 1].binds, q + y);
        lemma_term_bytes_are_prefix_free(v[n - 1].body, x, w[n - 1].body, y);
    }
}

// ---- the laws ---------------------------------------------------------------

/// The encoding is unambiguous: two definitions whose encodings agree are the
/// same up to the order in which their effect rows are written.
pub proof fn lemma_def_bytes_injective(a: DefView, b: DefView)
    requires
        fits_def(a),
        fits_def(b),
        hash::def_stream(a) == hash::def_stream(b),
    ensures
        canon_def(a) == canon_def(b),
{
    lemma_split(encode_utf8("marv-core-def-v0"@), hash::enc_def(a), encode_utf8("marv-core-def-v0"@), hash::enc_def(b));
    let e = Seq::<u8>::empty();
    let a4 = hash::enc_body(a.body) + e;
    let b4 = hash::enc_body(b.body) + e;
    let a3 = hash::enc_preds(a.post) + a4;
    let b3 = hash::enc_preds(b.post) + b4;
    let a2 = hash::enc_preds(a.pre) + a3;
    let b2 = hash::enc_preds(b.pre) + b3;
    assert(a4 =~= hash::enc_body(a.body));
    assert(b4 =~= hash::enc_body(b.body));
    seqs::right4(hash::tag(hash::defkind_tag(a.kind)), hash::enc_type(a.ty), hash::enc_preds(a.pre), hash::enc_preds(a.post), a4);
    seqs::right4(hash::tag(hash::defkind_tag(b.kind)), hash::enc_type(b.ty), hash::enc_preds(b.pre), hash::enc_preds(b.post), b4);
    lemma_tag_inj(hash::defkind_tag(a.kind), hash::enc_type(a.ty) + a2, hash::defkind_tag(b.kind), hash::enc_type(b.ty) + b2);
    lemma_type_inj(a.ty, a2, b.ty, b2);
    lemma_preds_inj(a.pre, a3, b.pre, b3);
    lemma_preds_inj(a.post, a4, b.post, b4);
    let (s, p) = match a.body {
        None => (0u8, Seq::<u8>::empty()),
        Some(c) => (1u8, hash::enc_core(c)),
    };
    let (t, q) = match b.body {
        None => (0u8, Seq::<u8>::empty()),
        Some(c) => (1u8, hash::enc_core(c)),
    };
    assert(a4 =~= hash::tag(s) + (p + e));
    assert(b4 =~= hash::tag(t) + (q + e));
    lemma_tag_inj(s, p + e, t, q + e);
    match (a.body, b.body) {
        (Some(c), Some(d)) => lemma_term_bytes_are_prefix_free(c, e, d, e),
        _ => {},
    }
}

/// The names of symbols are kept apart: two names whose encodings agree are the
/// same name.
pub proof fn lemma_symbol_bytes_injective(a: Seq<char>, b: Seq<char>)
    requires
        fits_len(encode_utf8(a).len()),
        fits_len(encode_utf8(b).len()),
        hash::symbol_stream(a) == hash::symbol_stream(b),
    ensures
        a == b,
{
    let d = encode_utf8("marv-core-sym-v0"@);
    let e = Seq::<u8>::empty();
    lemma_split(d, hash::enc_str(a), d, hash::enc_str(b));
    assert(hash::enc_str(a) + e =~= hash::enc_str(a));
    assert(hash::enc_str(b) + e =~= hash::enc_str(b));
    lemma_str_inj(a, e, b, e);
}

/// A definition is never mistaken for a symbol: their encodings differ.
pub proof fn lemma_domains_are_separate(d: DefView, name: Seq<char>)
    ensures
        hash::def_stream(d) != hash::symbol_stream(name),
{
    reveal_strlit("marv-core-def-v0");
    reveal_strlit("marv-core-sym-v0");
    is_ascii_chars_encode_utf8("marv-core-def-v0"@);
    is_ascii_chars_encode_utf8("marv-core-sym-v0"@);
    let p = encode_utf8("marv-core-def-v0"@);
    let q = encode_utf8("marv-core-sym-v0"@);
    assert(p[10] == 'd' as u8);
    assert(q[10] == 's' as u8);
    assert(hash::def_stream(d)[10] == p[10]);
    assert(hash::symbol_stream(name)[10] == q[10]);
}

/// The order in which an effect row is written is not part of a definition's
/// identity: a function type keeps its encoding when its capabilities and its
/// errors are permuted.
pub proof fn lemma_row_order_is_incidental(param: TypeView, ret: TypeView, r: EffectView, s: EffectView)
    requires
        r.caps.to_multiset() == s.caps.to_multiset(),
        r.errors.to_multiset() == s.errors.to_multiset(),
    ensures
        hash::enc_row(r) == hash::enc_row(s),
        hash::enc_type(TypeView::Arrow { param: Box::new(param), ret: Box::new(ret), effects: r })
            == hash::enc_type(TypeView::Arrow { param: Box::new(param), ret: Box::new(ret), effects: s }),
{
    r.caps.to_multiset_ensures();
    s.caps.to_multiset_ensures();
    r.errors.to_multiset_ensures();
    s.errors.to_multiset_ensures();
    order::lemma_sorted_of_permutation(r.caps, s.caps);
    order::lemma_sorted_of_permutation(r.errors, s.errors);
}

proof fn lemma_canon_row(r: EffectView)
    ensures
        hash::enc_row(canon_row(r)) == hash::enc_row(r),
{
    order::lemma_sorted_members(r.caps);
    order::lemma_sorted_members(r.errors);
    order::lemma_sorted_of_permutation(order::sorted(r.caps), r.caps);
    order::lemma_sorted_of_permutation(order::sorted(r.errors), r.errors);
}

proof fn lemma_canon_type(t: TypeView)
    ensures
        hash::enc_type(canon_type(t)) == hash::enc_type(t),
    decreases t, 0nat,
{
    match t {
        TypeView::Array(inner, n) => lemma_canon_type(*inner),
        TypeView::Slice(inner) => lemma_canon_type(*inner),
        TypeView::Tuple(elems) => lemma_canon_types(elems, elems.len()),
        TypeView::Arrow { param, ret, effects } => {
            lemma_canon_type(*param);
            lemma_canon_type(*ret);
            lemma_canon_row(effects);
        },
        TypeView::Nominal { def, args } => lemma_canon_types(args, args.len()),
        TypeView::Ref { mutable, of } => lemma_canon_type(*of),
        TypeView::Linear(inner) => lemma_canon_type(*inner),
        _ => {},
    }
}

proof fn lemma_canon_types(v: Seq<TypeView>, n: nat)
    requires
        n <= v.len(),
    ensures
        canon_types(v, n).len() == n,
        hash::enc_types(canon_types(v, n), n) == hash::enc_types(v, n),
    decreases v, n,
{
    if n > 0 {
        lemma_canon_types(v, (n - 1) as nat);
        lemma_canon_type(v[n - 1]);
        let w = canon_types(v, (n - 1) as nat);
        lemma_types_prefix(w, canon_type(v[n - 1]), (n - 1) as nat);
    }
}

proof fn lemma_types_prefix(v: Seq<TypeView>, t: TypeView, n: nat)
    requires
        n <= v.len(),
    ensures
        hash::enc_types(v.push(t), n) == hash::enc_types(v, n),
    decreases n,
{
    if n > 0 {
        lemma_types_prefix(v, t, (n - 1) as nat);
    }
}

proof fn lemma_canon_core(c: CoreView)
    ensures
        hash::enc_core(canon_core(c)) == hash::enc_core(c),
    decreases c, 0nat,
{
    match c {
        CoreView::Let { value, body } => {
            lemma_canon_core(*value);
            lemma_canon_core(*body);
        },
        CoreView::Lam { param, effects, body } => {
            lemma_canon_type(param);
            lemma_canon_row(effects);
            lemma_canon_core(*body);
        },
        CoreView::Array { elem, items } => lemma_canon_type(elem),
        CoreView::Match { scrutinee, branches } => lemma_canon_branches(branches, branches.len()),
        CoreView::Cast { value, to } => lemma_canon_type(to),
        CoreView::Loop { state, inv, cond, body } => {
            lemma_canon_core(*cond);
            lemma_canon_core(*body);
        },
        CoreView::ListNew { elem, alloc, capacity } => lemma_canon_type(elem),
        _ => {},
    }
}

proof fn lemma_canon_branches(v: Seq<BranchView>, n: nat)
    requires
        n <= v.len(),
    ensures
        canon_branches(v, n).len() == n,
        hash::enc_branches(canon_branches(v, n), n) == hash::enc_branches(v, n),
    decreases v, n,
{
    if n > 0 {
        lemma_canon_branches(v, (n - 1) as nat);
        lemma_canon_core(v[n - 1].body);
        let b = BranchView { binds: v[n - 1].binds, body: canon_core(v[n - 1].body) };
        lemma_branches_prefix(canon_branches(v, (n - 1) as nat), b, (n - 1) as nat);
    }
}

proof fn lemma_branches_prefix(v: Seq<BranchView>, b: BranchView, n: nat)
    requires
        n <= v.len(),
    ensures
        hash::enc_branches(v.push(b), n) == hash::enc_branches(v, n),
    decreases n,
{
    if n > 0 {
        lemma_branches_prefix(v, b, (n - 1) as nat);
    }
}

proof fn lemma_canon_def(d: DefView)
    ensures
        hash::def_stream(canon_def(d)) == hash::def_stream(d),
{
    lemma_canon_type(d.ty);
    if let Some(c) = d.body {
        lemma_canon_core(c);
    }
}

/// Definitions that differ in the order in which effect rows are written, anywhere in
/// their types and terms, are encoded alike, and have one content hash.
pub proof fn lemma_row_order_is_no_part_of_identity(a: DefView, b: DefView)
    requires
        canon_def(a) == canon_def(b),
    ensures
        hash::def_stream(a) == hash::def_stream(b),
        hash::content_id(a) == hash::content_id(b),
{
    lemma_canon_def(a);
    lemma_canon_def(b);
}

/// An atom has the same encoding as an operand of a contract and as an operand
/// of a term.
pub proof fn lemma_atom_operand_is_transparent(a: AtomView)
    ensures
        hash::enc_cexpr(CExprView::Atom(a)) == hash::enc_atom(a),
{
}

} // verus!
