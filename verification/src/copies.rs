//! Copies of Core terms: each `clone` keeps the mathematical value.
use vstd::prelude::*;

use crate::ir;
use crate::ir::{Atom, Branch, CExpr, CNode, Core, Def, EffectRow, Literal, Pred, Type};

verus! {

/// A copy of a list of hashes.
pub fn clone_hashes(v: &Vec<crate::ir::Hash>) -> (r: Vec<crate::ir::Hash>)
    ensures
        ir::hashes_view(r@) == ir::hashes_view(v@),
{
    let mut out: Vec<crate::ir::Hash> = Vec::new();
    let mut i: usize = 0;
    while i < v.len()
        invariant
            i <= v@.len(),
            out@.len() == i,
            forall|k: int| 0 <= k < i ==> #[trigger] out@[k]@ == v@[k]@,
        decreases v@.len() - i,
    {
        out.push(v[i]);
        i = i + 1;
    }
    assert(ir::hashes_view(out@) =~= ir::hashes_view(v@));
    out
}

impl Clone for EffectRow {
    fn clone(&self) -> (r: Self)
        ensures
            r@ == self@,
    {
        EffectRow { caps: clone_hashes(&self.caps), errors: clone_hashes(&self.errors) }
    }
}

/// A copy of a list of types.
pub fn clone_types(v: &Vec<Type>) -> (r: Vec<Type>)
    ensures
        ir::types_view(r@) == ir::types_view(v@),
    decreases v@,
{
    let mut out: Vec<Type> = Vec::new();
    let mut i: usize = 0;
    while i < v.len()
        invariant
            i <= v@.len(),
            out@.len() == i,
            forall|k: int| 0 <= k < i ==> #[trigger] out@[k]@ == v@[k]@,
        decreases v@.len() - i,
    {
        let c = v[i].clone();
        out.push(c);
        i = i + 1;
    }
    broadcast use ir::lemma_types_view;

    assert(ir::types_view(out@) =~= ir::types_view(v@));
    out
}

impl Clone for Type {
    fn clone(&self) -> (r: Self)
        ensures
            r@ == self@,
        decreases self,
    {
        match self {
            Type::Unit => Type::Unit,
            Type::Bool => Type::Bool,
            Type::Int(t) => Type::Int(*t),
            Type::Float(t) => Type::Float(*t),
            Type::Str => Type::Str,
            Type::Char => Type::Char,
            Type::Array(t, n) => Type::Array(Box::new((**t).clone()), *n),
            Type::Slice(t) => Type::Slice(Box::new((**t).clone())),
            Type::Tuple(v) => Type::Tuple(clone_types(v)),
            Type::Arrow { param, ret, effects } => Type::Arrow {
                param: Box::new((**param).clone()),
                ret: Box::new((**ret).clone()),
                effects: effects.clone(),
            },
            Type::Nominal { def, args } => Type::Nominal { def: *def, args: clone_types(args) },
            Type::Ref { mutable, of } => Type::Ref {
                mutable: *mutable,
                of: Box::new((**of).clone()),
            },
            Type::Linear(t) => Type::Linear(Box::new((**t).clone())),
            Type::Var(i) => Type::Var(*i),
        }
    }
}

impl Clone for Literal {
    fn clone(&self) -> (r: Self)
        ensures
            r@ == self@,
    {
        match self {
            Literal::Unit => Literal::Unit,
            Literal::Bool(b) => Literal::Bool(*b),
            Literal::Int(n) => Literal::Int(*n),
            Literal::Float(n) => Literal::Float(*n),
            Literal::Str(s) => Literal::Str(s.clone()),
            Literal::Char(c) => Literal::Char(*c),
        }
    }
}

impl Clone for Atom {
    fn clone(&self) -> (r: Self)
        ensures
            r@ == self@,
    {
        match self {
            Atom::Var(i) => Atom::Var(*i),
            Atom::Global(h) => Atom::Global(*h),
            Atom::Lit(l) => Atom::Lit(l.clone()),
        }
    }
}

/// A copy of a list of atoms.
pub fn clone_atoms(v: &Vec<Atom>) -> (r: Vec<Atom>)
    ensures
        ir::atoms_view(r@) == ir::atoms_view(v@),
{
    let mut out: Vec<Atom> = Vec::new();
    let mut i: usize = 0;
    while i < v.len()
        invariant
            i <= v@.len(),
            out@.len() == i,
            forall|k: int| 0 <= k < i ==> #[trigger] out@[k]@ == v@[k]@,
        decreases v@.len() - i,
    {
        let c = v[i].clone();
        out.push(c);
        i = i + 1;
    }
    assert(ir::atoms_view(out@) =~= ir::atoms_view(v@));
    out
}

impl Clone for CExpr {
    fn clone(&self) -> (r: Self)
        ensures
            r@ == self@,
        decreases self,
    {
        match self {
            CExpr::Atom(a) => CExpr::Atom(a.clone()),
            CExpr::Node(n) => CExpr::Node(Box::new((**n).clone())),
        }
    }
}

impl Clone for CNode {
    fn clone(&self) -> (r: Self)
        ensures
            r@ == self@,
        decreases self,
    {
        match self {
            CNode::Bin(op, l, r) => CNode::Bin(*op, l.clone(), r.clone()),
            CNode::Neg(e) => CNode::Neg(e.clone()),
            CNode::Len(e) => CNode::Len(e.clone()),
            CNode::Index(b, i) => CNode::Index(b.clone(), i.clone()),
            CNode::Proj(b, k) => CNode::Proj(b.clone(), *k),
        }
    }
}

impl Clone for Pred {
    fn clone(&self) -> (r: Self)
        ensures
            r@ == self@,
        decreases self,
    {
        match self {
            Pred::True => Pred::True,
            Pred::False => Pred::False,
            Pred::Cmp(op, l, r) => Pred::Cmp(*op, l.clone(), r.clone()),
            Pred::And(l, r) => Pred::And(Box::new((**l).clone()), Box::new((**r).clone())),
            Pred::Or(l, r) => Pred::Or(Box::new((**l).clone()), Box::new((**r).clone())),
            Pred::Not(p) => Pred::Not(Box::new((**p).clone())),
            Pred::Forall { domain, body } => Pred::Forall {
                domain: (domain.0.clone(), domain.1.clone()),
                body: Box::new((**body).clone()),
            },
            Pred::Exists { domain, body } => Pred::Exists {
                domain: (domain.0.clone(), domain.1.clone()),
                body: Box::new((**body).clone()),
            },
        }
    }
}

/// A copy of a list of predicates.
pub fn clone_preds(v: &Vec<Pred>) -> (r: Vec<Pred>)
    ensures
        ir::preds_view(r@) == ir::preds_view(v@),
{
    let mut out: Vec<Pred> = Vec::new();
    let mut i: usize = 0;
    while i < v.len()
        invariant
            i <= v@.len(),
            out@.len() == i,
            forall|k: int| 0 <= k < i ==> #[trigger] out@[k]@ == v@[k]@,
        decreases v@.len() - i,
    {
        let c = v[i].clone();
        out.push(c);
        i = i + 1;
    }
    assert(ir::preds_view(out@) =~= ir::preds_view(v@));
    out
}

/// A copy of a list of branches.
pub fn clone_branches(v: &Vec<Branch>) -> (r: Vec<Branch>)
    ensures
        ir::branches_view(r@) == ir::branches_view(v@),
    decreases v@,
{
    let mut out: Vec<Branch> = Vec::new();
    let mut i: usize = 0;
    while i < v.len()
        invariant
            i <= v@.len(),
            out@.len() == i,
            forall|k: int| 0 <= k < i ==> #[trigger] out@[k]@ == v@[k]@,
        decreases v@.len() - i,
    {
        let c = v[i].clone();
        out.push(c);
        i = i + 1;
    }
    broadcast use ir::lemma_branches_view;

    assert(ir::branches_view(out@) =~= ir::branches_view(v@));
    out
}

/// A copy of an optional loop invariant.
pub fn clone_inv(p: &Option<Box<Pred>>) -> (r: Option<Box<Pred>>)
    ensures
        ir::inv_view(r) == ir::inv_view(*p),
{
    match p {
        None => None,
        Some(p) => Some(Box::new((**p).clone())),
    }
}

impl Clone for Branch {
    fn clone(&self) -> (r: Self)
        ensures
            r@ == self@,
        decreases self,
    {
        Branch { binds: self.binds, body: self.body.clone() }
    }
}

impl Clone for Core {
    fn clone(&self) -> (r: Self)
        ensures
            r@ == self@,
        decreases self,
    {
        match self {
            Core::Atom(a) => Core::Atom(a.clone()),
            Core::Let { value, body } => Core::Let {
                value: Box::new((**value).clone()),
                body: Box::new((**body).clone()),
            },
            Core::Lam { param, effects, body } => Core::Lam {
                param: param.clone(),
                effects: effects.clone(),
                body: Box::new((**body).clone()),
            },
            Core::App { func, arg } => Core::App { func: func.clone(), arg: arg.clone() },
            Core::Ctor { ty, tag, fields } => Core::Ctor {
                ty: *ty,
                tag: *tag,
                fields: clone_atoms(fields),
            },
            Core::Array { elem, items } => Core::Array {
                elem: elem.clone(),
                items: clone_atoms(items),
            },
            Core::IndexSet { base, index, value } => Core::IndexSet {
                base: base.clone(),
                index: index.clone(),
                value: value.clone(),
            },
            Core::Proj { base, idx } => Core::Proj { base: base.clone(), idx: *idx },
            Core::Match { scrutinee, branches } => Core::Match {
                scrutinee: scrutinee.clone(),
                branches: clone_branches(branches),
            },
            Core::Prim { op, args } => Core::Prim { op: *op, args: clone_atoms(args) },
            Core::Cast { value, to } => Core::Cast { value: value.clone(), to: to.clone() },
            Core::Ref { mutable, of } => Core::Ref { mutable: *mutable, of: of.clone() },
            Core::Perform { cap, op, args } => Core::Perform {
                cap: cap.clone(),
                op: *op,
                args: clone_atoms(args),
            },
            Core::Raise { error, args } => Core::Raise { error: *error, args: clone_atoms(args) },
            Core::Loop { state, inv, cond, body } => Core::Loop {
                state: clone_atoms(state),
                inv: clone_inv(inv),
                cond: Box::new((**cond).clone()),
                body: Box::new((**body).clone()),
            },
            Core::ListNew { elem, alloc, capacity } => Core::ListNew {
                elem: elem.clone(),
                alloc: alloc.clone(),
                capacity: capacity.clone(),
            },
            Core::ListPush { alloc, list, value } => Core::ListPush {
                alloc: alloc.clone(),
                list: list.clone(),
                value: value.clone(),
            },
            Core::ListPop { list } => Core::ListPop { list: list.clone() },
            Core::ListSet { list, index, value } => Core::ListSet {
                list: list.clone(),
                index: index.clone(),
                value: value.clone(),
            },
            Core::Return { value } => Core::Return { value: value.clone() },
        }
    }
}

impl Clone for Def {
    fn clone(&self) -> (r: Self)
        ensures
            r@ == self@,
    {
        Def {
            kind: self.kind,
            ty: self.ty.clone(),
            pre: clone_preds(&self.pre),
            post: clone_preds(&self.post),
            body: match &self.body {
                None => None,
                Some(c) => Some(c.clone()),
            },
        }
    }
}

} // verus!
