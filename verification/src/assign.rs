//! Assignment under mutable value semantics.
//!
//! There are no mutable cells in Core: an assignment rebinds its root variable,
//! and a store into a field or an element rebuilds the aggregate around it.
use vstd::prelude::*;

use crate::decls;
use crate::decls::{dotted, find_struct, path_of};
use crate::emit;
use crate::emit::prim2;
use crate::hash;
use crate::hash::symbol_hash;
use crate::ir;
use crate::ir::{Atom, AtomView, Branch, BranchView, Core, CoreView, Literal, LiteralView, PrimOp};
use crate::lower_error::{LowerError, LowerErrorView};
use crate::resolve;
use crate::resolve::type_of_element;
use crate::scope;
use crate::scope::{BindView, Binding, Builder, Lowerer, LowererView, Pending, Scope, ScopeView, St};
use crate::surface;
use crate::surface::peel_ref_ty;
use crate::syntax;
use crate::syntax::{Arm, ArmBody, Block, Else, IfExpr, LValue, SType, STypeView, Stmt, Tail, clone_opt_stype};
use crate::text;
use crate::text::str_eq;

verus! {

// ---- what a block assigns ---------------------------------------------------------------------

/// The variable at the root of a target.
pub open spec fn root_view(lv: LValue) -> Seq<char>
    decreases lv,
{
    match lv {
        LValue::Var(name) => name@,
        LValue::Field(base, _) => root_view(*base),
        LValue::Index(base, _) => root_view(*base),
    }
}

/// Whether the root of a target is `name`.
pub fn is_root(lv: &LValue, name: &str) -> (r: bool)
    ensures
        r == (root_view(*lv) == name@),
    decreases lv,
{
    match lv {
        LValue::Var(x) => str_eq(x.as_str(), name),
        LValue::Field(base, _) => is_root(base, name),
        LValue::Index(base, _) => is_root(base, name),
    }
}

/// Whether one of the first `n` statements declares `name`.
pub open spec fn declares_s(v: Seq<Stmt>, n: nat, name: Seq<char>) -> bool
    decreases n,
{
    n > 0 && (declares_s(v, (n - 1) as nat, name) || match v[n - 1] {
        Stmt::Let { name: x, ty, value } => x@ == name,
        Stmt::Var { name: x, ty, value } => x@ == name,
        _ => false,
    })
}

/// Whether one of the first `n` statements assigns the `name` from outside.
pub open spec fn assigns_s(v: Seq<Stmt>, n: nat, name: Seq<char>) -> bool
    decreases v, n,
{
    if n == 0 || n > v.len() {
        false
    } else {
        assigns_s(v, (n - 1) as nat, name) || match v[n - 1] {
            Stmt::Assign { target, value } => root_view(target) == name,
            Stmt::While { cond, invariants, body } => block_assigns(body, name),
            Stmt::For { binder, iter, body } => binder@ != name && block_assigns(body, name),
            _ => false,
        }
    }
}

/// Whether a block assigns the `name` from outside. A name that the block itself
/// declares is its own.
pub open spec fn block_assigns(b: Block, name: Seq<char>) -> bool
    decreases b, 0nat,
{
    &&& !declares_s(b.stmts@, b.stmts@.len(), name)
    &&& (assigns_s(b.stmts@, b.stmts@.len(), name) || match b.tail {
        Some(Tail::If(i)) => if_assigns(*i, name),
        Some(Tail::Match(m)) => arms_assign(m.arms@, m.arms@.len(), name),
        _ => false,
    })
}

pub open spec fn if_assigns(i: IfExpr, name: Seq<char>) -> bool
    decreases i, 0nat,
{
    block_assigns(i.yes, name) || match i.no {
        Some(Else::Block(b)) => block_assigns(b, name),
        Some(Else::If(inner)) => if_assigns(*inner, name),
        None => false,
    }
}

pub open spec fn arms_assign(v: Seq<Arm>, n: nat, name: Seq<char>) -> bool
    decreases v, n,
{
    if n == 0 || n > v.len() {
        false
    } else {
        arms_assign(v, (n - 1) as nat, name) || match v[n - 1].body {
            ArmBody::Block(b) => block_assigns(b, name),
            ArmBody::Expr(_) => false,
        }
    }
}

fn declares(v: &Vec<Stmt>, name: &str) -> (r: bool)
    ensures
        r == declares_s(v@, v@.len(), name@),
{
    let mut i: usize = 0;
    let mut hit = false;
    while i < v.len()
        invariant
            i <= v@.len(),
            hit == declares_s(v@, i as nat, name@),
        decreases v@.len() - i,
    {
        let own = match &v[i] {
            Stmt::Let { name: x, ty: _, value: _ } => str_eq(x.as_str(), name),
            Stmt::Var { name: x, ty: _, value: _ } => str_eq(x.as_str(), name),
            _ => false,
        };
        hit = hit || own;
        i = i + 1;
    }
    hit
}

fn assigns(v: &Vec<Stmt>, name: &str) -> (r: bool)
    ensures
        r == assigns_s(v@, v@.len(), name@),
    decreases v@, 0nat,
{
    let mut i: usize = 0;
    let mut hit = false;
    while i < v.len()
        invariant
            i <= v@.len(),
            hit == assigns_s(v@, i as nat, name@),
        decreases v@.len() - i,
    {
        let own = match &v[i] {
            Stmt::Assign { target, value: _ } => is_root(target, name),
            Stmt::While { cond: _, invariants: _, body } => assigned_in(body, name),
            Stmt::For { binder, iter: _, body } => !str_eq(binder.as_str(), name) && assigned_in(
                body,
                name,
            ),
            _ => false,
        };
        hit = hit || own;
        i = i + 1;
    }
    hit
}

/// Whether a block assigns the `name` from outside.
pub fn assigned_in(b: &Block, name: &str) -> (r: bool)
    ensures
        r == block_assigns(*b, name@),
    decreases b, 0nat,
{
    if declares(&b.stmts, name) {
        return false;
    }
    if assigns(&b.stmts, name) {
        return true;
    }
    match &b.tail {
        Some(Tail::If(i)) => assigned_in_if(i, name),
        Some(Tail::Match(m)) => assigned_in_arms(&m.arms, name),
        _ => false,
    }
}

fn assigned_in_if(i: &IfExpr, name: &str) -> (r: bool)
    ensures
        r == if_assigns(*i, name@),
    decreases i, 0nat,
{
    if assigned_in(&i.yes, name) {
        return true;
    }
    match &i.no {
        Some(Else::Block(b)) => assigned_in(b, name),
        Some(Else::If(inner)) => assigned_in_if(inner, name),
        None => false,
    }
}

fn assigned_in_arms(v: &Vec<Arm>, name: &str) -> (r: bool)
    ensures
        r == arms_assign(v@, v@.len(), name@),
    decreases v@, 0nat,
{
    let mut i: usize = 0;
    let mut hit = false;
    while i < v.len()
        invariant
            i <= v@.len(),
            hit == arms_assign(v@, i as nat, name@),
        decreases v@.len() - i,
    {
        let own = match &v[i].body {
            ArmBody::Block(b) => assigned_in(b, name),
            ArmBody::Expr(_) => false,
        };
        hit = hit || own;
        i = i + 1;
    }
    hit
}

// ---- reading a target -------------------------------------------------------------------------------

/// The surface type of what a target holds, as far as it is known.
pub open spec fn target_type(lw: LowererView, lv: LValue, sc: ScopeView) -> Option<STypeView>
    decreases lv,
{
    match lv {
        LValue::Var(name) => match scope::local(sc, name@) {
            Some(b) => b.ty,
            None => None,
        },
        LValue::Field(base, field) => match target_type(lw, *base, sc) {
            Some(bt) => resolve::field_type(lw, bt, field@),
            None => None,
        },
        LValue::Index(base, _) => match target_type(lw, *base, sc) {
            Some(bt) => resolve::element_type(bt),
            None => None,
        },
    }
}

/// The current value of a target.
pub open spec fn target_s(lw: LowererView, lv: LValue, sc: ScopeView, st: St) -> Result<
    (AtomView, St),
    LowerErrorView,
>
    decreases lv,
{
    match lv {
        LValue::Var(name) => emit::var_s(lw, name@, sc, st),
        LValue::Field(base, field) => match target_s(lw, *base, sc, st) {
            Ok((a, st1)) => match resolve::projection(lw, target_type(lw, *base, sc), field@) {
                Ok((_, i)) => Ok(scope::push_s(st1, CoreView::Proj { base: a, idx: (i as usize) as u32 })),
                Err(x) => Err(x),
            },
            Err(x) => Err(x),
        },
        LValue::Index(base, index) => match target_s(lw, *base, sc, st) {
            Ok((a, st1)) => match emit::atom_s(lw, *index, sc, st1) {
                Ok((i, st2)) => Ok(
                    scope::push_s(st2, CoreView::Prim { op: PrimOp::Index, args: seq![a, i] }),
                ),
                Err(x) => Err(x),
            },
            Err(x) => Err(x),
        },
    }
}

// ---- storing into a target ------------------------------------------------------------------------------

/// The fields of a struct in which field `at` becomes `new`: the first `n`.
pub open spec fn rebuilt_s(base: AtomView, at: int, new: AtomView, n: nat, st: St) -> (
    Seq<AtomView>,
    St,
)
    decreases n,
{
    if n == 0 {
        (Seq::empty(), st)
    } else {
        let (out, st1) = rebuilt_s(base, at, new, (n - 1) as nat, st);
        if n - 1 == at {
            (out.push(new), st1)
        } else {
            let (a, st2) = scope::push_s(
                st1,
                CoreView::Proj { base, idx: ((n - 1) as usize) as u32 },
            );
            (out.push(a), st2)
        }
    }
}

/// A position of an array, as an atom.
pub open spec fn place(i: nat) -> AtomView {
    AtomView::Lit(LiteralView::Int((i as u64) as i64))
}

/// The choice between two atoms.
pub open spec fn choice(cond: AtomView, no: AtomView, yes: AtomView) -> CoreView {
    CoreView::Match {
        scrutinee: cond,
        branches: seq![
            BranchView { binds: 0, body: CoreView::Atom(no) },
            BranchView { binds: 0, body: CoreView::Atom(yes) },
        ],
    }
}

/// The elements of an array in which position `index` becomes `new`: the first
/// `n`. Each keeps its old value unless its position is `index`.
pub open spec fn stored_s(base: AtomView, index: AtomView, new: AtomView, n: nat, st: St) -> (
    Seq<AtomView>,
    St,
)
    decreases n,
{
    if n == 0 {
        (Seq::empty(), st)
    } else {
        let (out, st1) = stored_s(base, index, new, (n - 1) as nat, st);
        let here = place((n - 1) as nat);
        let (hit, st2) = scope::push_s(
            st1,
            CoreView::Prim { op: PrimOp::Eq, args: seq![index, here] },
        );
        let (kept, st3) = scope::push_s(
            st2,
            CoreView::Prim { op: PrimOp::Index, args: seq![base, here] },
        );
        let (a, st4) = scope::push_s(st3, choice(hit, kept, new));
        (out.push(a), st4)
    }
}

/// A store into an element of a slice or an array. The old element is read
/// first, so that a position out of range fails.
pub open spec fn element_s(
    lw: LowererView,
    t: STypeView,
    base: AtomView,
    index: AtomView,
    new: AtomView,
    st: St,
) -> Option<(AtomView, St)> {
    match t {
        STypeView::Slice(_) => Some(
            scope::push_s(st, CoreView::IndexSet { base, index, value: new }),
        ),
        STypeView::Array { len, elem } => {
            let st1 = scope::push_s(st, CoreView::Prim { op: PrimOp::Index, args: seq![base, index] }).1;
            let (items, st2) = stored_s(base, index, new, len as nat, st1);
            Some(
                scope::push_s(st2, CoreView::Array { elem: resolve::ty_s(lw, *elem, Seq::empty()), items }),
            )
        },
        _ => None,
    }
}

/// The scope after `new` is stored into a target.
pub open spec fn assign_s(lw: LowererView, lv: LValue, new: AtomView, sc: ScopeView, st: St) -> Result<
    (ScopeView, St),
    LowerErrorView,
>
    decreases lv,
{
    match lv {
        LValue::Var(name) => match scope::local(sc, name@) {
            None => Err(LowerErrorView::AssignToUndeclared { name: name@ }),
            Some(b) => if b.mutable {
                Ok((scope::bind(sc, BindView { atom: new, ..b }), st))
            } else {
                Err(LowerErrorView::AssignToImmutable { name: name@ })
            },
        },
        LValue::Field(base, field) => match resolve::projection(lw, target_type(lw, *base, sc), field@) {
            Err(x) => Err(x),
            Ok((s, at)) => match target_s(lw, *base, sc, st) {
                Err(x) => Err(x),
                Ok((a, st1)) => {
                    let n = match decls::struct_named(lw.m, s) {
                        Some(d) => d.fields@.len(),
                        None => 0,
                    };
                    let (fields, st2) = rebuilt_s(a, at, new, n, st1);
                    let (whole, st3) = scope::push_s(
                        st2,
                        CoreView::Ctor { ty: hash::symbol_id(resolve::struct_qual(lw, s)), tag: 0, fields },
                    );
                    assign_s(lw, *base, whole, sc, st3)
                },
            },
        },
        LValue::Index(base, index) => match peeled(target_type(lw, *base, sc)) {
            None => Err(LowerErrorView::IndexAssignUnsupported),
            Some(t) => match target_s(lw, *base, sc, st) {
                Err(x) => Err(x),
                Ok((a, st1)) => match emit::atom_s(lw, *index, sc, st1) {
                    Err(x) => Err(x),
                    Ok((i, st2)) => match element_s(lw, t, a, i, new, st2) {
                        None => Err(LowerErrorView::IndexAssignUnsupported),
                        Some((whole, st3)) => assign_s(lw, *base, whole, sc, st3),
                    },
                },
            },
        },
    }
}

/// A type that elements can be stored into, without outer references.
pub open spec fn peeled(t: Option<STypeView>) -> Option<STypeView> {
    match t {
        Some(t) => match surface::peel_view(t) {
            STypeView::Slice(e) => Some(STypeView::Slice(e)),
            STypeView::Array { len, elem } => Some(STypeView::Array { len, elem }),
            _ => None,
        },
        None => None,
    }
}

/// What a statement did: `want`.
pub open spec fn did_step(
    r: Result<(), LowerError>,
    sc: Scope,
    b: Builder,
    p: Pending,
    want: Result<(ScopeView, St), LowerErrorView>,
) -> bool {
    match want {
        Ok((sc1, st)) => r is Ok && sc@ == sc1 && scope::st_of(b, p) == st,
        Err(e) => r is Err && r->Err_0@ == e,
    }
}

impl<'a> Lowerer<'a> {
    fn type_of_target(&self, lv: &LValue, sc: &Scope) -> (r: Option<SType>)
        ensures
            syntax::opt_stype_view(r) == target_type(self@, *lv, sc@),
        decreases lv,
    {
        match lv {
            LValue::Var(name) => match sc.find(name.as_str()) {
                Some(b) => clone_opt_stype(&b.ty),
                None => None,
            },
            LValue::Field(base, field) => match self.type_of_target(base, sc) {
                Some(bt) => self.type_of_field(&bt, field.as_str()),
                None => None,
            },
            LValue::Index(base, _) => match self.type_of_target(base, sc) {
                Some(bt) => type_of_element(&bt),
                None => None,
            },
        }
    }

    fn emit_target(&self, lv: &LValue, sc: &Scope, b: &mut Builder, p: &mut Pending) -> (r: Result<
        Atom,
        LowerError,
    >)
        ensures
            emit::did_atom(r, *final(b), *final(p), target_s(self@, *lv, sc@, scope::st_of(*old(b), *old(p)))),
        decreases lv,
    {
        match lv {
            LValue::Var(name) => self.emit_var(name.as_str(), sc, b, p),
            LValue::Field(base, field) => {
                let x = match self.emit_target(base, sc, b, p) {
                    Ok(v) => v,
                    Err(e) => {
                        return Err(e);
                    },
                };
                let bt = self.type_of_target(base, sc);
                let at = match self.resolve_projection(&bt, field.as_str()) {
                    Ok(v) => v,
                    Err(e) => {
                        return Err(e);
                    },
                };
                let r = b.push(Core::Proj { base: x, idx: at.1 as u32 });
                Ok(r)
            },
            LValue::Index(base, index) => {
                let x = match self.emit_target(base, sc, b, p) {
                    Ok(v) => v,
                    Err(e) => {
                        return Err(e);
                    },
                };
                let i = match self.emit_atom(index, sc, b, p) {
                    Ok(v) => v,
                    Err(e) => {
                        return Err(e);
                    },
                };
                let r = b.push(prim2(PrimOp::Index, x, i));
                Ok(r)
            },
        }
    }

    /// Store an atom into a target.
    pub fn assign_to(
        &self,
        lv: &LValue,
        new: Atom,
        sc: &mut Scope,
        b: &mut Builder,
        p: &mut Pending,
    ) -> (r: Result<(), LowerError>)
        ensures
            did_step(
                r,
                *final(sc),
                *final(b),
                *final(p),
                assign_s(self@, *lv, new@, old(sc)@, scope::st_of(*old(b), *old(p))),
            ),
        decreases lv,
    {
        match lv {
            LValue::Var(name) => {
                let found = match sc.find(name.as_str()) {
                    Some(b) => b.clone(),
                    None => {
                        return Err(LowerError::AssignToUndeclared { name: name.clone() });
                    },
                };
                if !found.mutable {
                    return Err(LowerError::AssignToImmutable { name: name.clone() });
                }
                sc.push(Binding { atom: new, ..found });
                Ok(())
            },
            LValue::Field(base, field) => {
                let bt = self.type_of_target(base, sc);
                let at = match self.resolve_projection(&bt, field.as_str()) {
                    Ok(v) => v,
                    Err(e) => {
                        return Err(e);
                    },
                };
                let x = match self.emit_target(base, sc, b, p) {
                    Ok(v) => v,
                    Err(e) => {
                        return Err(e);
                    },
                };
                let n = match find_struct(self.m, at.0.as_str()) {
                    Some(d) => d.fields.len(),
                    None => 0,
                };
                let fields = rebuild(x, at.1, new, n, b, p);
                let ty = symbol_hash(dotted(path_of(self.m).as_str(), at.0.as_str()).as_str());
                let whole = b.push(Core::Ctor { ty, tag: 0, fields });
                self.assign_to(base, whole, sc, b, p)
            },
            LValue::Index(base, index) => {
                let t = match self.type_of_target(base, sc) {
                    Some(t) => t,
                    None => {
                        return Err(LowerError::IndexAssignUnsupported);
                    },
                };
                let inner = peel_ref_ty(&t);
                if !stores(inner) {
                    return Err(LowerError::IndexAssignUnsupported);
                }
                let x = match self.emit_target(base, sc, b, p) {
                    Ok(v) => v,
                    Err(e) => {
                        return Err(e);
                    },
                };
                let i = match self.emit_atom(index, sc, b, p) {
                    Ok(v) => v,
                    Err(e) => {
                        return Err(e);
                    },
                };
                match self.store_element(inner, x, i, new, b, p) {
                    Some(whole) => self.assign_to(base, whole, sc, b, p),
                    None => Err(LowerError::IndexAssignUnsupported),
                }
            },
        }
    }

    fn store_element(
        &self,
        t: &SType,
        base: Atom,
        index: Atom,
        new: Atom,
        b: &mut Builder,
        p: &Pending,
    ) -> (r: Option<Atom>)
        ensures
            match element_s(self@, t@, base@, index@, new@, scope::st_of(*old(b), *p)) {
                Some((a, st)) => r is Some && r->0@ == a && scope::st_of(*final(b), *p) == st,
                None => r is None,
            },
    {
        match t {
            SType::Slice(_) => {
                let r = b.push(Core::IndexSet { base, index, value: new });
                Some(r)
            },
            SType::Array { len, elem } => {
                let _old = b.push(prim2(PrimOp::Index, base.clone(), index.clone()));
                let none: Vec<String> = Vec::new();
                assert(text::strings_view(none@) =~= Seq::empty());
                let ty = self.lower_type(elem, &none);
                let items = store(base, index, new, *len, b, p);
                let r = b.push(Core::Array { elem: ty, items });
                Some(r)
            },
            _ => None,
        }
    }
}

fn stores(t: &SType) -> (r: bool)
    ensures
        r == (t@ is Slice || t@ is Array),
{
    match t {
        SType::Slice(_) => true,
        SType::Array { len: _, elem: _ } => true,
        _ => false,
    }
}

fn rebuild(base: Atom, at: usize, new: Atom, n: usize, b: &mut Builder, p: &Pending) -> (r: Vec<
    Atom,
>)
    ensures
        (ir::atoms_view(r@), scope::st_of(*final(b), *p)) == rebuilt_s(
            base@,
            at as int,
            new@,
            n as nat,
            scope::st_of(*old(b), *p),
        ),
{
    let ghost st = scope::st_of(*b, *p);
    let mut out: Vec<Atom> = Vec::new();
    let mut j: usize = 0;
    assert(ir::atoms_view(out@) =~= Seq::empty());
    while j < n
        invariant
            j <= n,
            st == scope::st_of(*old(b), *p),
            (ir::atoms_view(out@), scope::st_of(*b, *p)) == rebuilt_s(base@, at as int, new@, j as nat, st),
        decreases n - j,
    {
        let a = if j == at {
            new.clone()
        } else {
            b.push(Core::Proj { base: base.clone(), idx: j as u32 })
        };
        let ghost before = out@;
        out.push(a);
        assert(ir::atoms_view(out@) =~= ir::atoms_view(before).push(a@));
        j = j + 1;
    }
    out
}

fn choose_atom(cond: Atom, no: Atom, yes: Atom) -> (r: Core)
    ensures
        r@ == choice(cond@, no@, yes@),
{
    broadcast use ir::lemma_branches_view;

    let mut branches: Vec<Branch> = Vec::new();
    branches.push(Branch { binds: 0, body: Core::Atom(no) });
    branches.push(Branch { binds: 0, body: Core::Atom(yes) });
    assert(ir::branches_view(branches@) =~= choice(cond@, no@, yes@)->branches);
    Core::Match { scrutinee: cond, branches }
}

fn store(base: Atom, index: Atom, new: Atom, n: u64, b: &mut Builder, p: &Pending) -> (r: Vec<Atom>)
    ensures
        (ir::atoms_view(r@), scope::st_of(*final(b), *p)) == stored_s(
            base@,
            index@,
            new@,
            n as nat,
            scope::st_of(*old(b), *p),
        ),
{
    let ghost st = scope::st_of(*b, *p);
    let mut out: Vec<Atom> = Vec::new();
    let mut j: u64 = 0;
    assert(ir::atoms_view(out@) =~= Seq::empty());
    while j < n
        invariant
            j <= n,
            st == scope::st_of(*old(b), *p),
            (ir::atoms_view(out@), scope::st_of(*b, *p)) == stored_s(base@, index@, new@, j as nat, st),
        decreases n - j,
    {
        let here = Atom::Lit(Literal::Int(j as i64));
        let hit = b.push(prim2(PrimOp::Eq, index.clone(), here.clone()));
        let kept = b.push(prim2(PrimOp::Index, base.clone(), here));
        let a = b.push(choose_atom(hit, kept, new.clone()));
        let ghost before = out@;
        out.push(a);
        assert(ir::atoms_view(out@) =~= ir::atoms_view(before).push(a@));
        j = j + 1;
    }
    out
}

} // verus!
