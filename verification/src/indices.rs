//! From de Bruijn levels to de Bruijn indices.
//!
//! Lowering first names each variable by its level, counted from the outermost
//! binder, which stays the same as inner binders appear. [`to_indices`] then
//! rewrites a level `l` used under `d` binders into the index `d - 1 - l`.
use vstd::prelude::*;


use crate::ir;
use crate::ir::{Atom, AtomView, Branch, BranchView, CExpr, CExprView, CNode, Core, CoreView, Pred, PredView};

verus! {

/// Addition of 32-bit numbers, wrapping around.
pub open spec fn add32(a: u32, b: u32) -> u32 {
    if a + b > u32::MAX {
        (a + b - 0x1_0000_0000) as u32
    } else {
        (a + b) as u32
    }
}

/// Subtraction of 32-bit numbers, wrapping around.
pub open spec fn sub32(a: u32, b: u32) -> u32 {
    if a < b {
        (a - b + 0x1_0000_0000) as u32
    } else {
        (a - b) as u32
    }
}

/// The index of level `l` under `d` binders.
pub open spec fn index_of(l: u32, d: u32) -> u32 {
    sub32(sub32(d, 1), l)
}

pub open spec fn atom_index(a: AtomView, d: u32) -> AtomView {
    match a {
        AtomView::Var(l) => AtomView::Var(index_of(l, d)),
        _ => a,
    }
}

pub open spec fn atoms_index(v: Seq<AtomView>, d: u32) -> Seq<AtomView> {
    Seq::new(v.len(), |i: int| atom_index(v[i], d))
}

pub open spec fn cexpr_index(x: CExprView, d: u32) -> CExprView
    decreases x,
{
    match x {
        CExprView::Atom(a) => CExprView::Atom(atom_index(a, d)),
        CExprView::Bin(op, l, r) => CExprView::Bin(
            op,
            Box::new(cexpr_index(*l, d)),
            Box::new(cexpr_index(*r, d)),
        ),
        CExprView::Neg(e) => CExprView::Neg(Box::new(cexpr_index(*e, d))),
        CExprView::Len(e) => CExprView::Len(Box::new(cexpr_index(*e, d))),
        CExprView::Index(b, i) => CExprView::Index(
            Box::new(cexpr_index(*b, d)),
            Box::new(cexpr_index(*i, d)),
        ),
        CExprView::Proj(b, k) => CExprView::Proj(Box::new(cexpr_index(*b, d)), k),
    }
}

/// A quantifier is a binder of its body.
pub open spec fn pred_index(p: PredView, d: u32) -> PredView
    decreases p,
{
    match p {
        PredView::True => PredView::True,
        PredView::False => PredView::False,
        PredView::Cmp(op, l, r) => PredView::Cmp(op, cexpr_index(l, d), cexpr_index(r, d)),
        PredView::And(l, r) => PredView::And(
            Box::new(pred_index(*l, d)),
            Box::new(pred_index(*r, d)),
        ),
        PredView::Or(l, r) => PredView::Or(
            Box::new(pred_index(*l, d)),
            Box::new(pred_index(*r, d)),
        ),
        PredView::Not(q) => PredView::Not(Box::new(pred_index(*q, d))),
        PredView::Forall { lo, hi, body } => PredView::Forall {
            lo: cexpr_index(lo, d),
            hi: cexpr_index(hi, d),
            body: Box::new(pred_index(*body, add32(d, 1))),
        },
        PredView::Exists { lo, hi, body } => PredView::Exists {
            lo: cexpr_index(lo, d),
            hi: cexpr_index(hi, d),
            body: Box::new(pred_index(*body, add32(d, 1))),
        },
    }
}

pub open spec fn inv_index(p: Option<PredView>, d: u32) -> Option<PredView> {
    match p {
        Some(p) => Some(pred_index(p, d)),
        None => None,
    }
}

/// A term with its levels rewritten into indices, under `d` binders.
pub open spec fn core_index(c: CoreView, d: u32) -> CoreView
    decreases c, 0nat,
{
    match c {
        CoreView::Atom(a) => CoreView::Atom(atom_index(a, d)),
        CoreView::Let { value, body } => CoreView::Let {
            value: Box::new(core_index(*value, d)),
            body: Box::new(core_index(*body, add32(d, 1))),
        },
        CoreView::Lam { param, effects, body } => CoreView::Lam {
            param,
            effects,
            body: Box::new(core_index(*body, add32(d, 1))),
        },
        CoreView::App { func, arg } => CoreView::App {
            func: atom_index(func, d),
            arg: atom_index(arg, d),
        },
        CoreView::Ctor { ty, tag, fields } => CoreView::Ctor {
            ty,
            tag,
            fields: atoms_index(fields, d),
        },
        CoreView::Array { elem, items } => CoreView::Array { elem, items: atoms_index(items, d) },
        CoreView::IndexSet { base, index, value } => CoreView::IndexSet {
            base: atom_index(base, d),
            index: atom_index(index, d),
            value: atom_index(value, d),
        },
        CoreView::Proj { base, idx } => CoreView::Proj { base: atom_index(base, d), idx },
        CoreView::Match { scrutinee, branches } => CoreView::Match {
            scrutinee: atom_index(scrutinee, d),
            branches: branches_index(branches, branches.len(), d),
        },
        CoreView::Prim { op, args } => CoreView::Prim { op, args: atoms_index(args, d) },
        CoreView::Cast { value, to } => CoreView::Cast { value: atom_index(value, d), to },
        CoreView::Ref { mutable, of } => CoreView::Ref { mutable, of: atom_index(of, d) },
        CoreView::Perform { cap, op, args } => CoreView::Perform {
            cap: atom_index(cap, d),
            op,
            args: atoms_index(args, d),
        },
        CoreView::Raise { error, args } => CoreView::Raise { error, args: atoms_index(args, d) },
        CoreView::Loop { state, inv, cond, body } => {
            let k = add32(d, state.len() as u32);
            CoreView::Loop {
                state: atoms_index(state, d),
                inv: inv_index(inv, k),
                cond: Box::new(core_index(*cond, k)),
                body: Box::new(core_index(*body, k)),
            }
        },
        CoreView::ListNew { elem, alloc, capacity } => CoreView::ListNew {
            elem,
            alloc: atom_index(alloc, d),
            capacity: atom_index(capacity, d),
        },
        CoreView::ListPush { alloc, list, value } => CoreView::ListPush {
            alloc: atom_index(alloc, d),
            list: atom_index(list, d),
            value: atom_index(value, d),
        },
        CoreView::ListPop { list } => CoreView::ListPop { list: atom_index(list, d) },
        CoreView::ListSet { list, index, value } => CoreView::ListSet {
            list: atom_index(list, d),
            index: atom_index(index, d),
            value: atom_index(value, d),
        },
        CoreView::Return { value } => CoreView::Return { value: atom_index(value, d) },
    }
}

/// The first `n` branches with their levels rewritten into indices.
pub open spec fn branches_index(v: Seq<BranchView>, n: nat, d: u32) -> Seq<BranchView>
    decreases v, n,
{
    if n == 0 || n > v.len() {
        Seq::empty()
    } else {
        branches_index(v, (n - 1) as nat, d).push(
            BranchView {
                binds: v[n - 1].binds,
                body: core_index(v[n - 1].body, add32(d, v[n - 1].binds)),
            },
        )
    }
}

// ---- executable ------------------------------------------------------------------

/// The depth `n` binders further in.
pub fn deeper(d: u32, n: u32) -> (r: u32)
    ensures
        r == add32(d, n),
{
    d.wrapping_add(n)
}

pub fn atom_to_index(a: &Atom, depth: u32) -> (r: Atom)
    ensures
        r@ == atom_index(a@, depth),
{
    match a {
        Atom::Var(level) => Atom::Var(depth.wrapping_sub(1).wrapping_sub(*level)),
        _ => a.clone(),
    }
}

fn atoms_to_index(v: &Vec<Atom>, depth: u32) -> (r: Vec<Atom>)
    ensures
        ir::atoms_view(r@) == atoms_index(ir::atoms_view(v@), depth),
{
    let mut out: Vec<Atom> = Vec::new();
    let mut i: usize = 0;
    while i < v.len()
        invariant
            i <= v@.len(),
            out@.len() == i,
            forall|k: int| 0 <= k < i ==> #[trigger] out@[k]@ == atom_index(v@[k]@, depth),
        decreases v@.len() - i,
    {
        out.push(atom_to_index(&v[i], depth));
        i = i + 1;
    }
    assert(ir::atoms_view(out@) =~= atoms_index(ir::atoms_view(v@), depth));
    out
}

fn cexpr_to_index(x: &CExpr, depth: u32) -> (r: CExpr)
    ensures
        r@ == cexpr_index(x@, depth),
    decreases x,
{
    match x {
        CExpr::Atom(a) => CExpr::Atom(atom_to_index(a, depth)),
        CExpr::Node(n) => CExpr::Node(Box::new(cnode_to_index(n, depth))),
    }
}

fn cnode_to_index(n: &CNode, depth: u32) -> (r: CNode)
    ensures
        r@ == cexpr_index(n@, depth),
    decreases n,
{
    match n {
        CNode::Bin(op, l, r) => CNode::Bin(
            *op,
            cexpr_to_index(l, depth),
            cexpr_to_index(r, depth),
        ),
        CNode::Neg(e) => CNode::Neg(cexpr_to_index(e, depth)),
        CNode::Len(e) => CNode::Len(cexpr_to_index(e, depth)),
        CNode::Index(b, i) => CNode::Index(cexpr_to_index(b, depth), cexpr_to_index(i, depth)),
        CNode::Proj(b, k) => CNode::Proj(cexpr_to_index(b, depth), *k),
    }
}

/// Rewrite the levels of a predicate into indices.
pub fn pred_to_index(p: &Pred, depth: u32) -> (r: Pred)
    ensures
        r@ == pred_index(p@, depth),
    decreases p,
{
    match p {
        Pred::True => Pred::True,
        Pred::False => Pred::False,
        Pred::Cmp(op, l, r) => Pred::Cmp(*op, cexpr_to_index(l, depth), cexpr_to_index(r, depth)),
        Pred::And(l, r) => Pred::And(
            Box::new(pred_to_index(l, depth)),
            Box::new(pred_to_index(r, depth)),
        ),
        Pred::Or(l, r) => Pred::Or(
            Box::new(pred_to_index(l, depth)),
            Box::new(pred_to_index(r, depth)),
        ),
        Pred::Not(inner) => Pred::Not(Box::new(pred_to_index(inner, depth))),
        Pred::Forall { domain, body } => Pred::Forall {
            domain: (cexpr_to_index(&domain.0, depth), cexpr_to_index(&domain.1, depth)),
            body: Box::new(pred_to_index(body, deeper(depth, 1))),
        },
        Pred::Exists { domain, body } => Pred::Exists {
            domain: (cexpr_to_index(&domain.0, depth), cexpr_to_index(&domain.1, depth)),
            body: Box::new(pred_to_index(body, deeper(depth, 1))),
        },
    }
}

fn branches_to_indices(v: &Vec<Branch>, depth: u32) -> (r: Vec<Branch>)
    ensures
        ir::branches_view(r@) == branches_index(ir::branches_view(v@), v@.len(), depth),
    decreases v@,
{
    broadcast use ir::lemma_branches_view;

    let mut out: Vec<Branch> = Vec::new();
    let mut i: usize = 0;
    assert(ir::branches_view(out@) =~= Seq::empty());
    while i < v.len()
        invariant
            i <= v@.len(),
            ir::branches_view(out@) == branches_index(ir::branches_view(v@), i as nat, depth),
        decreases v@.len() - i,
    {
        let b = Branch {
            binds: v[i].binds,
            body: to_indices(&v[i].body, deeper(depth, v[i].binds)),
        };
        let ghost before = out@;
        out.push(b);
        proof {
            assert(ir::branches_view(v@)[i as int] == v@[i as int]@);
            assert(v@[i as int]@.body == v@[i as int].body@);
            assert(b@ == BranchView { binds: b.binds, body: b.body@ });
            assert(ir::branches_view(out@) =~= ir::branches_view(before).push(b@));
        }
        i = i + 1;
    }
    out
}

/// Rewrite the levels of a term into indices; `depth` is the number of binders
/// in scope.
pub fn to_indices(c: &Core, depth: u32) -> (r: Core)
    ensures
        r@ == core_index(c@, depth),
    decreases c,
{
    broadcast use ir::lemma_branches_view;

    match c {
        Core::Atom(a) => Core::Atom(atom_to_index(a, depth)),
        Core::Let { value, body } => Core::Let {
            value: Box::new(to_indices(value, depth)),
            body: Box::new(to_indices(body, deeper(depth, 1))),
        },
        Core::Lam { param, effects, body } => Core::Lam {
            param: param.clone(),
            effects: effects.clone(),
            body: Box::new(to_indices(body, deeper(depth, 1))),
        },
        Core::App { func, arg } => Core::App {
            func: atom_to_index(func, depth),
            arg: atom_to_index(arg, depth),
        },
        Core::Ctor { ty, tag, fields } => Core::Ctor {
            ty: *ty,
            tag: *tag,
            fields: atoms_to_index(fields, depth),
        },
        Core::Array { elem, items } => Core::Array {
            elem: elem.clone(),
            items: atoms_to_index(items, depth),
        },
        Core::IndexSet { base, index, value } => Core::IndexSet {
            base: atom_to_index(base, depth),
            index: atom_to_index(index, depth),
            value: atom_to_index(value, depth),
        },
        Core::Proj { base, idx } => Core::Proj { base: atom_to_index(base, depth), idx: *idx },
        Core::Match { scrutinee, branches } => Core::Match {
            scrutinee: atom_to_index(scrutinee, depth),
            branches: branches_to_indices(branches, depth),
        },
        Core::Prim { op, args } => Core::Prim { op: *op, args: atoms_to_index(args, depth) },
        Core::Cast { value, to } => Core::Cast {
            value: atom_to_index(value, depth),
            to: to.clone(),
        },
        Core::Ref { mutable, of } => Core::Ref {
            mutable: *mutable,
            of: atom_to_index(of, depth),
        },
        Core::Perform { cap, op, args } => Core::Perform {
            cap: atom_to_index(cap, depth),
            op: *op,
            args: atoms_to_index(args, depth),
        },
        Core::Raise { error, args } => Core::Raise {
            error: *error,
            args: atoms_to_index(args, depth),
        },
        Core::Loop { state, inv, cond, body } => {
            let k = deeper(depth, state.len() as u32);
            Core::Loop {
                state: atoms_to_index(state, depth),
                inv: match inv {
                    None => None,
                    Some(p) => Some(Box::new(pred_to_index(p, k))),
                },
                cond: Box::new(to_indices(cond, k)),
                body: Box::new(to_indices(body, k)),
            }
        },
        Core::ListNew { elem, alloc, capacity } => Core::ListNew {
            elem: elem.clone(),
            alloc: atom_to_index(alloc, depth),
            capacity: atom_to_index(capacity, depth),
        },
        Core::ListPush { alloc, list, value } => Core::ListPush {
            alloc: atom_to_index(alloc, depth),
            list: atom_to_index(list, depth),
            value: atom_to_index(value, depth),
        },
        Core::ListPop { list } => Core::ListPop { list: atom_to_index(list, depth) },
        Core::ListSet { list, index, value } => Core::ListSet {
            list: atom_to_index(list, depth),
            index: atom_to_index(index, depth),
            value: atom_to_index(value, depth),
        },
        Core::Return { value } => Core::Return { value: atom_to_index(value, depth) },
    }
}

// ---- laws -------------------------------------------------------------------------

pub open spec fn atom_in_scope(a: AtomView, d: int) -> bool {
    a matches AtomView::Var(l) ==> l < d
}

pub open spec fn atoms_in_scope(v: Seq<AtomView>, d: int) -> bool {
    forall|i: int| 0 <= i < v.len() ==> atom_in_scope(#[trigger] v[i], d)
}

pub open spec fn cexpr_in_scope(x: CExprView, d: int) -> bool
    decreases x,
{
    match x {
        CExprView::Atom(a) => atom_in_scope(a, d),
        CExprView::Bin(op, l, r) => cexpr_in_scope(*l, d) && cexpr_in_scope(*r, d),
        CExprView::Neg(e) => cexpr_in_scope(*e, d),
        CExprView::Len(e) => cexpr_in_scope(*e, d),
        CExprView::Index(b, i) => cexpr_in_scope(*b, d) && cexpr_in_scope(*i, d),
        CExprView::Proj(b, k) => cexpr_in_scope(*b, d),
    }
}

pub open spec fn pred_in_scope(p: PredView, d: int) -> bool
    decreases p,
{
    match p {
        PredView::True => true,
        PredView::False => true,
        PredView::Cmp(op, l, r) => cexpr_in_scope(l, d) && cexpr_in_scope(r, d),
        PredView::And(l, r) => pred_in_scope(*l, d) && pred_in_scope(*r, d),
        PredView::Or(l, r) => pred_in_scope(*l, d) && pred_in_scope(*r, d),
        PredView::Not(q) => pred_in_scope(*q, d),
        PredView::Forall { lo, hi, body } => d < u32::MAX && cexpr_in_scope(lo, d)
            && cexpr_in_scope(hi, d) && pred_in_scope(*body, d + 1),
        PredView::Exists { lo, hi, body } => d < u32::MAX && cexpr_in_scope(lo, d)
            && cexpr_in_scope(hi, d) && pred_in_scope(*body, d + 1),
    }
}

/// Whether every variable of a term lies below the number of binders around it,
/// and no depth exceeds what 32 bits hold.
pub open spec fn in_scope(c: CoreView, d: int) -> bool
    decreases c, 0nat,
{
    match c {
        CoreView::Atom(a) => atom_in_scope(a, d),
        CoreView::Let { value, body } => d < u32::MAX && in_scope(*value, d) && in_scope(
            *body,
            d + 1,
        ),
        CoreView::Lam { param, effects, body } => d < u32::MAX && in_scope(*body, d + 1),
        CoreView::App { func, arg } => atom_in_scope(func, d) && atom_in_scope(arg, d),
        CoreView::Ctor { ty, tag, fields } => atoms_in_scope(fields, d),
        CoreView::Array { elem, items } => atoms_in_scope(items, d),
        CoreView::IndexSet { base, index, value } => atom_in_scope(base, d) && atom_in_scope(
            index,
            d,
        ) && atom_in_scope(value, d),
        CoreView::Proj { base, idx } => atom_in_scope(base, d),
        CoreView::Match { scrutinee, branches } => atom_in_scope(scrutinee, d)
            && branches_in_scope(branches, branches.len(), d),
        CoreView::Prim { op, args } => atoms_in_scope(args, d),
        CoreView::Cast { value, to } => atom_in_scope(value, d),
        CoreView::Ref { mutable, of } => atom_in_scope(of, d),
        CoreView::Perform { cap, op, args } => atom_in_scope(cap, d) && atoms_in_scope(args, d),
        CoreView::Raise { error, args } => atoms_in_scope(args, d),
        CoreView::Loop { state, inv, cond, body } => {
            let k = d + state.len();
            &&& k <= u32::MAX
            &&& atoms_in_scope(state, d)
            &&& inv matches Some(p) ==> pred_in_scope(p, k)
            &&& in_scope(*cond, k)
            &&& in_scope(*body, k)
        },
        CoreView::ListNew { elem, alloc, capacity } => atom_in_scope(alloc, d) && atom_in_scope(
            capacity,
            d,
        ),
        CoreView::ListPush { alloc, list, value } => atom_in_scope(alloc, d) && atom_in_scope(
            list,
            d,
        ) && atom_in_scope(value, d),
        CoreView::ListPop { list } => atom_in_scope(list, d),
        CoreView::ListSet { list, index, value } => atom_in_scope(list, d) && atom_in_scope(
            index,
            d,
        ) && atom_in_scope(value, d),
        CoreView::Return { value } => atom_in_scope(value, d),
    }
}

pub open spec fn branches_in_scope(v: Seq<BranchView>, n: nat, d: int) -> bool
    decreases v, n,
{
    if n == 0 || n > v.len() {
        true
    } else {
        &&& branches_in_scope(v, (n - 1) as nat, d)
        &&& d + v[n - 1].binds <= u32::MAX
        &&& in_scope(v[n - 1].body, d + v[n - 1].binds)
    }
}

proof fn lemma_atoms_flip(v: Seq<AtomView>, d: u32)
    requires
        atoms_in_scope(v, d as int),
    ensures
        atoms_index(atoms_index(v, d), d) == v,
        atoms_in_scope(atoms_index(v, d), d as int),
{
    assert forall|i: int| 0 <= i < v.len() implies atom_in_scope(
        #[trigger] atoms_index(v, d)[i],
        d as int,
    ) && atoms_index(atoms_index(v, d), d)[i] == v[i] by {
        assert(atom_in_scope(v[i], d as int));
    }
    assert(atoms_index(atoms_index(v, d), d) =~= v);
}

proof fn lemma_cexpr_flip(x: CExprView, d: u32)
    requires
        cexpr_in_scope(x, d as int),
    ensures
        cexpr_index(cexpr_index(x, d), d) == x,
        cexpr_in_scope(cexpr_index(x, d), d as int),
    decreases x,
{
    match x {
        CExprView::Atom(a) => {},
        CExprView::Bin(op, l, r) => {
            lemma_cexpr_flip(*l, d);
            lemma_cexpr_flip(*r, d);
        },
        CExprView::Neg(e) => lemma_cexpr_flip(*e, d),
        CExprView::Len(e) => lemma_cexpr_flip(*e, d),
        CExprView::Index(b, i) => {
            lemma_cexpr_flip(*b, d);
            lemma_cexpr_flip(*i, d);
        },
        CExprView::Proj(b, k) => lemma_cexpr_flip(*b, d),
    }
}

proof fn lemma_pred_flip(p: PredView, d: u32)
    requires
        pred_in_scope(p, d as int),
    ensures
        pred_index(pred_index(p, d), d) == p,
        pred_in_scope(pred_index(p, d), d as int),
    decreases p,
{
    match p {
        PredView::True => {},
        PredView::False => {},
        PredView::Cmp(op, l, r) => {
            lemma_cexpr_flip(l, d);
            lemma_cexpr_flip(r, d);
        },
        PredView::And(l, r) => {
            lemma_pred_flip(*l, d);
            lemma_pred_flip(*r, d);
        },
        PredView::Or(l, r) => {
            lemma_pred_flip(*l, d);
            lemma_pred_flip(*r, d);
        },
        PredView::Not(q) => lemma_pred_flip(*q, d),
        PredView::Forall { lo, hi, body } => {
            lemma_cexpr_flip(lo, d);
            lemma_cexpr_flip(hi, d);
            lemma_pred_flip(*body, add32(d, 1));
        },
        PredView::Exists { lo, hi, body } => {
            lemma_cexpr_flip(lo, d);
            lemma_cexpr_flip(hi, d);
            lemma_pred_flip(*body, add32(d, 1));
        },
    }
}

proof fn lemma_branches_flip(v: Seq<BranchView>, n: nat, d: u32)
    requires
        n <= v.len(),
        branches_in_scope(v, n, d as int),
    ensures
        branches_index(v, n, d).len() == n,
        branches_index(branches_index(v, n, d), n, d) == v.take(n as int),
        branches_in_scope(branches_index(v, n, d), n, d as int),
    decreases v, n,
{
    if n == 0 {
        assert(v.take(0) =~= Seq::empty());
    } else {
        let k = (n - 1) as nat;
        lemma_branches_flip(v, k, d);
        lemma_indices_are_an_involution(v[n - 1].body, add32(d, v[n - 1].binds));
        let w = branches_index(v, n, d);
        let u = branches_index(v, k, d);
        assert(w =~= u.push(w[n - 1]));
        lemma_branches_prefix(u, w[n - 1], k, d);
        assert(v.take(n as int) =~= v.take(k as int).push(v[n - 1]));
    }
}

/// What is computed of the first `n` branches does not depend on later ones.
proof fn lemma_branches_prefix(u: Seq<BranchView>, b: BranchView, n: nat, d: u32)
    requires
        n <= u.len(),
    ensures
        branches_index(u.push(b), n, d) == branches_index(u, n, d),
        branches_in_scope(u.push(b), n, d as int) == branches_in_scope(u, n, d as int),
    decreases n,
{
    if n > 0 {
        lemma_branches_prefix(u, b, (n - 1) as nat, d);
        assert(u.push(b)[n - 1] == u[n - 1]);
    }
}

/// Levels and indices are two spellings of one thing: on a term whose variables
/// are in scope the rewriting undoes itself, and its result is in scope too. So
/// terms with the same indices had the same levels.
pub proof fn lemma_indices_are_an_involution(c: CoreView, d: u32)
    requires
        in_scope(c, d as int),
    ensures
        core_index(core_index(c, d), d) == c,
        in_scope(core_index(c, d), d as int),
    decreases c, 0nat,
{
    match c {
        CoreView::Atom(a) => {},
        CoreView::Let { value, body } => {
            lemma_indices_are_an_involution(*value, d);
            lemma_indices_are_an_involution(*body, add32(d, 1));
        },
        CoreView::Lam { param, effects, body } => {
            lemma_indices_are_an_involution(*body, add32(d, 1));
        },
        CoreView::App { func, arg } => {},
        CoreView::Ctor { ty, tag, fields } => lemma_atoms_flip(fields, d),
        CoreView::Array { elem, items } => lemma_atoms_flip(items, d),
        CoreView::IndexSet { base, index, value } => {},
        CoreView::Proj { base, idx } => {},
        CoreView::Match { scrutinee, branches } => {
            lemma_branches_flip(branches, branches.len(), d);
            assert(branches.take(branches.len() as int) =~= branches);
        },
        CoreView::Prim { op, args } => lemma_atoms_flip(args, d),
        CoreView::Cast { value, to } => {},
        CoreView::Ref { mutable, of } => {},
        CoreView::Perform { cap, op, args } => lemma_atoms_flip(args, d),
        CoreView::Raise { error, args } => lemma_atoms_flip(args, d),
        CoreView::Loop { state, inv, cond, body } => {
            let k = add32(d, state.len() as u32);
            lemma_atoms_flip(state, d);
            if let Some(p) = inv {
                lemma_pred_flip(p, k);
            }
            lemma_indices_are_an_involution(*cond, k);
            lemma_indices_are_an_involution(*body, k);
        },
        CoreView::ListNew { elem, alloc, capacity } => {},
        CoreView::ListPush { alloc, list, value } => {},
        CoreView::ListPop { list } => {},
        CoreView::ListSet { list, index, value } => {},
        CoreView::Return { value } => {},
    }
}

} // verus!
