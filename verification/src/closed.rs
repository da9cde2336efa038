//! Lowered terms are closed: every variable is bound where it stands.
use vstd::prelude::*;

use crate::assign;
use crate::blocks;
use crate::blocks::{CarryView, GoalView, SlotsView};
use crate::contract;
use crate::contract::NamesView;
use crate::decls;
use crate::emit;
use crate::find;
use crate::hash;
use crate::indices;
use crate::ir::{AtomView, BranchView, CoreView, EffectView, LiteralView, PredView, PrimOp, TypeView};
use crate::lower;
use crate::lower_error::LowerErrorView;
use crate::resolve;
use crate::scope;
use crate::scope::{BindView, LowererView, PendView, ScopeView, St};
use crate::syntax;
use crate::syntax::{Arm, ArmBody, BinOp, Block, Else, Expr, Field, FieldInit, FieldPat, FnDecl, IfExpr, LValue, MatchExpr, Pattern, STypeView, Stmt, Tail};
use crate::text;

verus! {

// ---- room --------------------------------------------------------------------------------------------

/// Whether the binders of a term at a depth can be counted.
pub open spec fn room(c: CoreView, d: int) -> bool
    decreases c, 0nat,
{
    match c {
        CoreView::Let { value, body } => d < u32::MAX && room(*value, d) && room(*body, d + 1),
        CoreView::Lam { param, effects, body } => d < u32::MAX && room(*body, d + 1),
        CoreView::Match { scrutinee, branches } => branches_room(branches, branches.len(), d),
        CoreView::Loop { state, inv, cond, body } => {
            let k = d + state.len();
            k <= u32::MAX && room(*cond, k) && room(*body, k)
        },
        _ => true,
    }
}

/// Whether the binders of the first `n` branches can be counted.
pub open spec fn branches_room(v: Seq<BranchView>, n: nat, d: int) -> bool
    decreases v, n,
{
    if n == 0 || n > v.len() {
        true
    } else {
        &&& branches_room(v, (n - 1) as nat, d)
        &&& d + v[n - 1].binds <= u32::MAX
        &&& room(v[n - 1].body, d + v[n - 1].binds)
    }
}

/// Whether the binders of bound terms, one below the other, can be counted.
#[verifier::opaque]
pub open spec fn lets_room(base: u32, lets: Seq<CoreView>) -> bool {
    &&& base + lets.len() <= u32::MAX
    &&& forall|i: int| 0 <= i < lets.len() ==> room(#[trigger] lets[i], base + i)
}

/// Whether bound terms, one below the other, are closed.
#[verifier::opaque]
pub open spec fn lets_closed(base: u32, lets: Seq<CoreView>) -> bool {
    forall|i: int| 0 <= i < lets.len() ==> indices::in_scope(#[trigger] lets[i], base + i)
}

pub open spec fn st_room(st: St) -> bool {
    lets_room(st.base, st.lets)
}

pub open spec fn st_closed(st: St) -> bool {
    lets_closed(st.base, st.lets)
}

/// The depth below the bound terms.
pub open spec fn deep(st: St) -> int {
    st.base + st.lets.len()
}

/// Whether the bindings of a scope are bound at a depth.
pub open spec fn binds_closed(sc: ScopeView, d: int) -> bool {
    forall|i: int|
        0 <= i < sc.binds.len() ==> indices::atom_in_scope((#[trigger] sc.binds[i]).atom, d)
}

/// What lowering keeps: what was bound is closed, and so is the scope.
pub open spec fn ready(sc: ScopeView, st: St) -> bool {
    st_room(st) ==> st_closed(st) && binds_closed(sc, deep(st))
}

/// Further terms were bound, and they are closed.
pub open spec fn kept(st: St, t: St) -> bool {
    &&& t.base == st.base
    &&& st.lets.len() <= t.lets.len()
    &&& forall|i: int| 0 <= i < st.lets.len() ==> #[trigger] t.lets[i] == st.lets[i]
    &&& st_room(t) ==> st_closed(t)
}

pub open spec fn atom_kept(st: St, r: Result<(AtomView, St), LowerErrorView>) -> bool {
    r matches Ok((a, t)) ==> kept(st, t) && (st_room(t) ==> indices::atom_in_scope(a, deep(t)))
}

pub open spec fn atoms_kept(st: St, r: Result<(Seq<AtomView>, St), LowerErrorView>) -> bool {
    r matches Ok((v, t)) ==> kept(st, t) && (st_room(t) ==> indices::atoms_in_scope(v, deep(t)))
}

pub open spec fn core_kept(st: St, r: Result<(CoreView, St), LowerErrorView>) -> bool {
    r matches Ok((c, t)) ==> kept(st, t) && (st_room(t) && room(c, deep(t)) ==> indices::in_scope(
        c,
        deep(t),
    ))
}

pub open spec fn step_kept(st: St, r: Result<(ScopeView, St), LowerErrorView>) -> bool {
    r matches Ok((sc, t)) ==> kept(st, t) && ready(sc, t)
}

/// A term that is closed at a depth, if its binders can be counted.
pub open spec fn closed_at(r: Result<(CoreView, PendView), LowerErrorView>, d: u32) -> bool {
    r matches Ok((c, _)) ==> room(c, d as int) ==> indices::in_scope(c, d as int)
}

proof fn lemma_on(sc: ScopeView, st: St, t: St)
    requires
        ready(sc, st),
        kept(st, t),
    ensures
        ready(sc, t),
        st_room(t) ==> st_room(st),
{
    reveal(lets_room);
    if st_room(t) {
        assert forall|i: int| 0 <= i < st.lets.len() implies room(
            #[trigger] st.lets[i],
            st.base + i,
        ) by {
            assert(t.lets[i] == st.lets[i]);
        }
    }
}

proof fn lemma_depth(st: St)
    requires
        st_room(st),
    ensures
        deep(st) <= u32::MAX,
        scope::depth_s(st) == deep(st),
{
    reveal(lets_room);
}

proof fn lemma_open(base: u32, pend: PendView)
    ensures
        st_room(scope::open_s(base, pend)),
        st_closed(scope::open_s(base, pend)),
        deep(scope::open_s(base, pend)) == base,
{
    reveal(lets_room);
    reveal(lets_closed);
}

proof fn lemma_push(sc: ScopeView, st: St, c: CoreView)
    requires
        ready(sc, st),
        st_room(st) && room(c, deep(st)) ==> indices::in_scope(c, deep(st)),
    ensures
        ({
            let (a, t) = scope::push_s(st, c);
            &&& kept(st, t)
            &&& ready(sc, t)
            &&& deep(t) == deep(st) + 1
            &&& st_room(t) ==> st_room(st) && deep(t) <= u32::MAX && room(c, deep(st)) && a
                == AtomView::Var(deep(st) as u32) && indices::atom_in_scope(a, deep(t))
        }),
{
    reveal(lets_room);
    reveal(lets_closed);
    let (a, t) = scope::push_s(st, c);
    if st_room(t) {
        assert forall|i: int| 0 <= i < st.lets.len() implies room(
            #[trigger] st.lets[i],
            st.base + i,
        ) by {
            assert(t.lets[i] == st.lets[i]);
        }
        assert(t.lets[st.lets.len() as int] == c);
        assert(room(c, deep(st)));
        assert forall|i: int| 0 <= i < t.lets.len() implies indices::in_scope(
            #[trigger] t.lets[i],
            t.base + i,
        ) by {
            if i < st.lets.len() {
                assert(t.lets[i] == st.lets[i]);
            }
        }
    }
}

// ---- expressions -------------------------------------------------------------------------------------

proof fn lemma_bound(sc: ScopeView, st: St, r: Result<(CoreView, St), LowerErrorView>)
    requires
        ready(sc, st),
        core_kept(st, r),
    ensures
        atom_kept(st, emit::bound_s(r)),
{
    match r {
        Ok((c, t)) => {
            lemma_on(sc, st, t);
            lemma_push(sc, t, c);
        },
        Err(_) => {},
    }
}

proof fn lemma_local(sc: ScopeView, name: Seq<char>, d: int)
    requires
        binds_closed(sc, d),
    ensures
        scope::local(sc, name) matches Some(b) ==> indices::atom_in_scope(b.atom, d),
{
    find::lemma_last_below(scope::binds_name(sc, name), sc.binds.len() as int);
}

proof fn lemma_var(lw: LowererView, name: Seq<char>, sc: ScopeView, st: St)
    requires
        ready(sc, st),
    ensures
        atom_kept(st, emit::var_s(lw, name, sc, st)),
{
    match scope::local(sc, name) {
        Some(b) => if st_room(st) {
            lemma_local(sc, name, deep(st));
        },
        None => match emit::nullary(decls::ctor_view(lw.reg, name)) {
            Some(c) => lemma_push(sc, st, emit::ctor_node_view(lw.ms, c, Seq::empty())),
            None => {},
        },
    }
}

proof fn lemma_atom(lw: LowererView, e: Expr, sc: ScopeView, st: St)
    requires
        ready(sc, st),
    ensures
        atom_kept(st, emit::atom_s(lw, e, sc, st)),
    decreases e, 3nat, 0nat,
{
    match e {
        Expr::Unit | Expr::Int(_) | Expr::Bool(_) | Expr::Str(_) | Expr::Char(_) => {},
        Expr::Try(inner) => lemma_atom(lw, *inner, sc, st),
        Expr::Var(name) => lemma_var(lw, name@, sc, st),
        Expr::Struct { path, fields } => if emit::is_collection(lw, text::strings_view(path@)) {
            lemma_collection(lw, path@[0]@, fields@, sc, st);
        } else {
            lemma_node(lw, e, sc, st);
            lemma_bound(sc, st, emit::node_s(lw, e, sc, st));
        },
        _ => {
            lemma_node(lw, e, sc, st);
            lemma_bound(sc, st, emit::node_s(lw, e, sc, st));
        },
    }
}

proof fn lemma_tail(lw: LowererView, e: Expr, sc: ScopeView, st: St)
    requires
        ready(sc, st),
    ensures
        core_kept(st, emit::tail_s(lw, e, sc, st)),
    decreases e, 4nat, 0nat,
{
    match e {
        Expr::Unit | Expr::Int(_) | Expr::Bool(_) | Expr::Str(_) | Expr::Char(_) | Expr::Var(
            _,
        ) => lemma_atom(lw, e, sc, st),
        Expr::Try(inner) => lemma_tail(lw, *inner, sc, st),
        Expr::Struct { path, fields } => if emit::is_collection(lw, text::strings_view(path@)) {
            lemma_atom(lw, e, sc, st);
        } else {
            lemma_node(lw, e, sc, st);
        },
        _ => lemma_node(lw, e, sc, st),
    }
}

proof fn lemma_node(lw: LowererView, e: Expr, sc: ScopeView, st: St)
    requires
        ready(sc, st),
    ensures
        core_kept(st, emit::node_s(lw, e, sc, st)),
    decreases e, 2nat, 0nat,
{
    match e {
        Expr::Cast(inner, ty) => lemma_atom(lw, *inner, sc, st),
        Expr::Binary(l, op, r) => {
            lemma_atom(lw, *l, sc, st);
            match emit::atom_s(lw, *l, sc, st) {
                Ok((a, st1)) => {
                    lemma_on(sc, st, st1);
                    lemma_atom(lw, *r, sc, st1);
                    match emit::atom_s(lw, *r, sc, st1) {
                        Ok((b, st2)) => lemma_on(sc, st1, st2),
                        Err(_) => {},
                    }
                },
                Err(_) => {},
            }
        },
        Expr::Unary(op, operand) => lemma_atom(lw, *operand, sc, st),
        Expr::Index(base, index) => {
            lemma_atom(lw, *base, sc, st);
            match emit::atom_s(lw, *base, sc, st) {
                Ok((a, st1)) => {
                    lemma_on(sc, st, st1);
                    lemma_atom(lw, *index, sc, st1);
                    match emit::atom_s(lw, *index, sc, st1) {
                        Ok((b, st2)) => lemma_on(sc, st1, st2),
                        Err(_) => {},
                    }
                },
                Err(_) => {},
            }
        },
        Expr::Field(_, _) => lemma_field(lw, e, sc, st),
        Expr::Struct { path, fields } => lemma_struct(
            lw,
            text::strings_view(path@),
            fields@,
            sc,
            st,
        ),
        Expr::Array(items) => lemma_atoms(lw, items@, items@.len(), sc, st),
        Expr::Call(callee, args) => lemma_call(lw, e, sc, st),
        _ => {},
    }
}

proof fn lemma_field(lw: LowererView, e: Expr, sc: ScopeView, st: St)
    requires
        ready(sc, st),
    ensures
        core_kept(st, emit::field_s(lw, e, sc, st)),
    decreases e, 1nat, 0nat,
{
    match e {
        Expr::Field(base, field) => lemma_atom(lw, *base, sc, st),
        _ => {},
    }
}

proof fn lemma_atoms(lw: LowererView, v: Seq<Expr>, n: nat, sc: ScopeView, st: St)
    requires
        ready(sc, st),
    ensures
        atoms_kept(st, emit::atoms_s(lw, v, n, sc, st)),
    decreases v, 0nat, n,
{
    if n == 0 || n > v.len() {
    } else {
        lemma_atoms(lw, v, (n - 1) as nat, sc, st);
        match emit::atoms_s(lw, v, (n - 1) as nat, sc, st) {
            Ok((out, st1)) => {
                lemma_on(sc, st, st1);
                lemma_atom(lw, v[n - 1], sc, st1);
                match emit::atom_s(lw, v[n - 1], sc, st1) {
                    Ok((a, st2)) => lemma_on(sc, st1, st2),
                    Err(_) => {},
                }
            },
            Err(_) => {},
        }
    }
}

proof fn lemma_struct(
    lw: LowererView,
    path: Seq<Seq<char>>,
    inits: Seq<FieldInit>,
    sc: ScopeView,
    st: St,
)
    requires
        ready(sc, st),
    ensures
        core_kept(st, emit::struct_s(lw, path, inits, sc, st)),
    decreases inits, 1nat, 0nat,
{
    let name = text::join_view(path, "."@);
    match decls::struct_named(lw.m, name) {
        None => {},
        Some(d) => lemma_inits(lw, name, d.fields@, d.fields@.len(), inits, sc, st),
    }
}

proof fn lemma_inits(
    lw: LowererView,
    name: Seq<char>,
    fields: Seq<Field>,
    n: nat,
    inits: Seq<FieldInit>,
    sc: ScopeView,
    st: St,
)
    requires
        ready(sc, st),
    ensures
        atoms_kept(st, emit::inits_s(lw, name, fields, n, inits, sc, st)),
    decreases inits, 0nat, n,
{
    if n == 0 || n > fields.len() {
    } else {
        lemma_inits(lw, name, fields, (n - 1) as nat, inits, sc, st);
        match emit::inits_s(lw, name, fields, (n - 1) as nat, inits, sc, st) {
            Ok((out, st1)) => {
                lemma_on(sc, st, st1);
                match emit::init_index(inits, fields[n - 1].name@) {
                    Some(i) => if 0 <= i < inits.len() {
                        lemma_atom(lw, inits[i].value, sc, st1);
                        match emit::atom_s(lw, inits[i].value, sc, st1) {
                            Ok((a, st2)) => lemma_on(sc, st1, st2),
                            Err(_) => {},
                        }
                    },
                    None => {},
                }
            },
            Err(_) => {},
        }
    }
}

proof fn lemma_call(lw: LowererView, e: Expr, sc: ScopeView, st: St)
    requires
        ready(sc, st),
    ensures
        core_kept(st, emit::call_s(lw, e, sc, st)),
    decreases e, 1nat, 0nat,
{
    reveal(resolve::dispatch);
    match e {
        Expr::Call(callee, args) => {
            if emit::is_len(*callee, args@, sc) {
                lemma_atom(lw, args@[0], sc, st);
            } else {
                match emit::callee_ctor_view(lw, *callee, sc) {
                    Some(c) => lemma_atoms(lw, args@, args@.len(), sc, st),
                    None => match *callee {
                        Expr::Field(recv, method) => match emit::method_ref(lw, sc, method@) {
                            Ok(func) => {
                                lemma_atom(lw, *recv, sc, st);
                                match emit::atom_s(lw, *recv, sc, st) {
                                    Ok((r, st1)) => {
                                        lemma_on(sc, st, st1);
                                        let first = CoreView::App { func, arg: r };
                                        lemma_push(sc, st1, first);
                                        let (f, st2) = scope::push_s(st1, first);
                                        lemma_apply(lw, args@, args@.len(), f, sc, st2);
                                    },
                                    Err(_) => {},
                                }
                            },
                            Err(_) => {},
                        },
                        _ => {
                            lemma_callee(lw, e, sc, st);
                            match emit::callee_s(lw, e, sc, st) {
                                Ok((func, st1)) => {
                                    lemma_on(sc, st, st1);
                                    lemma_apply(lw, args@, args@.len(), func, sc, st1);
                                },
                                Err(_) => {},
                            }
                        },
                    },
                }
            }
        },
        _ => {},
    }
}

proof fn lemma_callee(lw: LowererView, e: Expr, sc: ScopeView, st: St)
    requires
        ready(sc, st),
    ensures
        atom_kept(st, emit::callee_s(lw, e, sc, st)),
    decreases e, 0nat, 0nat,
{
    reveal(resolve::dispatch);
    reveal(resolve::generic_call);
    match e {
        Expr::Call(callee, args) => lemma_atom(lw, *callee, sc, st),
        _ => {},
    }
}

proof fn lemma_apply(
    lw: LowererView,
    args: Seq<Expr>,
    n: nat,
    func: AtomView,
    sc: ScopeView,
    st: St,
)
    requires
        ready(sc, st),
        st_room(st) ==> indices::atom_in_scope(func, deep(st)),
    ensures
        core_kept(st, emit::apply_s(lw, args, n, func, sc, st)),
    decreases args, 0nat, 2 * n,
{
    if n == 0 || n > args.len() {
    } else {
        lemma_applied(lw, args, (n - 1) as nat, func, sc, st);
        match emit::applied_s(lw, args, (n - 1) as nat, func, sc, st) {
            Ok((f, st1)) => {
                lemma_on(sc, st, st1);
                lemma_atom(lw, args[n - 1], sc, st1);
                match emit::atom_s(lw, args[n - 1], sc, st1) {
                    Ok((arg, st2)) => lemma_on(sc, st1, st2),
                    Err(_) => {},
                }
            },
            Err(_) => {},
        }
    }
}

proof fn lemma_applied(
    lw: LowererView,
    args: Seq<Expr>,
    n: nat,
    func: AtomView,
    sc: ScopeView,
    st: St,
)
    requires
        ready(sc, st),
        st_room(st) ==> indices::atom_in_scope(func, deep(st)),
    ensures
        atom_kept(st, emit::applied_s(lw, args, n, func, sc, st)),
    decreases args, 0nat, 2 * n + 1,
{
    if n > 0 {
        lemma_apply(lw, args, n, func, sc, st);
        lemma_bound(sc, st, emit::apply_s(lw, args, n, func, sc, st));
    }
}

proof fn lemma_collection(
    lw: LowererView,
    kind: Seq<char>,
    inits: Seq<FieldInit>,
    sc: ScopeView,
    st: St,
)
    requires
        ready(sc, st),
    ensures
        atom_kept(st, emit::collection_s(lw, kind, inits, sc, st)),
    decreases inits, 2nat, 0nat,
{
    match emit::init_index(inits, "alloc"@) {
        None => {},
        Some(ai) => {
            match (emit::array_part(inits, "keys"@), emit::array_part(inits, "values"@)) {
                (Some(ki), Some(vi)) => lemma_map(lw, inits, ai, ki, vi, sc, st),
                _ => {},
            }
            match emit::array_part(inits, "items"@) {
                None => {},
                Some(ii) => {
                    lemma_set(lw, inits, ai, ii, sc, st);
                    lemma_list(lw, inits, ai, ii, sc, st);
                },
            }
        },
    }
}

proof fn lemma_list(
    lw: LowererView,
    inits: Seq<FieldInit>,
    ai: int,
    ii: int,
    sc: ScopeView,
    st: St,
)
    requires
        ready(sc, st),
    ensures
        atom_kept(st, emit::list_s(lw, inits, ai, ii, sc, st)),
    decreases inits, 1nat, 0nat,
{
    if 0 <= ai < inits.len() && 0 <= ii < inits.len() {
        match (inits[ai].value, inits[ii].value) {
            (alloc_e, Expr::Array(items)) => {
                lemma_atom(lw, alloc_e, sc, st);
                match emit::atom_s(lw, alloc_e, sc, st) {
                    Ok((alloc, st1)) => {
                        lemma_on(sc, st, st1);
                        let made = CoreView::ListNew {
                            elem: emit::elem_view(lw, items@, sc),
                            alloc,
                            capacity: emit::count_atom(items@.len()),
                        };
                        lemma_push(sc, st1, made);
                        let (list, st2) = scope::push_s(st1, made);
                        lemma_pushes(lw, items@, items@.len(), alloc, list, sc, st2);
                    },
                    Err(_) => {},
                }
            },
            _ => {},
        }
    }
}

proof fn lemma_pushes(
    lw: LowererView,
    items: Seq<Expr>,
    n: nat,
    alloc: AtomView,
    list: AtomView,
    sc: ScopeView,
    st: St,
)
    requires
        ready(sc, st),
        st_room(st) ==> indices::atom_in_scope(alloc, deep(st)) && indices::atom_in_scope(
            list,
            deep(st),
        ),
    ensures
        atom_kept(st, emit::pushes_s(lw, items, n, alloc, list, sc, st)),
    decreases items, 0nat, n,
{
    if n == 0 || n > items.len() {
    } else {
        lemma_pushes(lw, items, (n - 1) as nat, alloc, list, sc, st);
        match emit::pushes_s(lw, items, (n - 1) as nat, alloc, list, sc, st) {
            Ok((l, st1)) => {
                lemma_on(sc, st, st1);
                lemma_atom(lw, items[n - 1], sc, st1);
                match emit::atom_s(lw, items[n - 1], sc, st1) {
                    Ok((value, st2)) => {
                        lemma_on(sc, st1, st2);
                        lemma_push(sc, st2, CoreView::ListPush { alloc, list: l, value });
                    },
                    Err(_) => {},
                }
            },
            Err(_) => {},
        }
    }
}

proof fn lemma_call2(name: Seq<char>, a: AtomView, b: AtomView, sc: ScopeView, st: St)
    requires
        ready(sc, st),
        st_room(st) ==> indices::atom_in_scope(a, deep(st)) && indices::atom_in_scope(
            b,
            deep(st),
        ),
    ensures
        atom_kept(st, Ok(emit::call2_s(name, a, b, st))),
        ready(sc, emit::call2_s(name, a, b, st).1),
        st_room(emit::call2_s(name, a, b, st).1) ==> st_room(st),
{
    let first = CoreView::App { func: AtomView::Global(hash::symbol_id(name)), arg: a };
    lemma_push(sc, st, first);
    let (f, st1) = scope::push_s(st, first);
    lemma_push(sc, st1, CoreView::App { func: f, arg: b });
}

proof fn lemma_set(
    lw: LowererView,
    inits: Seq<FieldInit>,
    ai: int,
    ii: int,
    sc: ScopeView,
    st: St,
)
    requires
        ready(sc, st),
    ensures
        atom_kept(st, emit::set_s(lw, inits, ai, ii, sc, st)),
    decreases inits, 1nat, 0nat,
{
    if 0 <= ai < inits.len() && 0 <= ii < inits.len() {
        match (inits[ai].value, inits[ii].value) {
            (alloc_e, Expr::Array(items)) => {
                lemma_atom(lw, alloc_e, sc, st);
                match emit::atom_s(lw, alloc_e, sc, st) {
                    Ok((alloc, st1)) => {
                        lemma_on(sc, st, st1);
                        let name = "std.collections.set_with_capacity"@;
                        let n = emit::count_atom(items@.len());
                        lemma_call2(name, alloc, n, sc, st1);
                        let (set, st2) = emit::call2_s(name, alloc, n, st1);
                        lemma_inserts(lw, items@, items@.len(), alloc, set, sc, st2);
                    },
                    Err(_) => {},
                }
            },
            _ => {},
        }
    }
}

proof fn lemma_inserts(
    lw: LowererView,
    items: Seq<Expr>,
    n: nat,
    alloc: AtomView,
    set: AtomView,
    sc: ScopeView,
    st: St,
)
    requires
        ready(sc, st),
        st_room(st) ==> indices::atom_in_scope(alloc, deep(st)) && indices::atom_in_scope(
            set,
            deep(st),
        ),
    ensures
        atom_kept(st, emit::inserts_s(lw, items, n, alloc, set, sc, st)),
    decreases items, 0nat, n,
{
    if n == 0 || n > items.len() {
    } else {
        lemma_inserts(lw, items, (n - 1) as nat, alloc, set, sc, st);
        match emit::inserts_s(lw, items, (n - 1) as nat, alloc, set, sc, st) {
            Ok((s, st1)) => {
                lemma_on(sc, st, st1);
                lemma_atom(lw, items[n - 1], sc, st1);
                match emit::atom_s(lw, items[n - 1], sc, st1) {
                    Ok((value, st2)) => {
                        lemma_on(sc, st1, st2);
                        let name = "std.collections.set_insert"@;
                        lemma_call2(name, alloc, s, sc, st2);
                        let (f, st3) = emit::call2_s(name, alloc, s, st2);
                        lemma_push(sc, st3, CoreView::App { func: f, arg: value });
                    },
                    Err(_) => {},
                }
            },
            Err(_) => {},
        }
    }
}

proof fn lemma_map(
    lw: LowererView,
    inits: Seq<FieldInit>,
    ai: int,
    ki: int,
    vi: int,
    sc: ScopeView,
    st: St,
)
    requires
        ready(sc, st),
    ensures
        atom_kept(st, emit::map_s(lw, inits, ai, ki, vi, sc, st)),
    decreases inits, 1nat, 0nat,
{
    let keys = emit::part(inits, ki);
    let values = emit::part(inits, vi);
    if keys.len() == values.len() && 0 <= ai < inits.len() {
        lemma_atom(lw, inits[ai].value, sc, st);
        match emit::atom_s(lw, inits[ai].value, sc, st) {
            Ok((alloc, st1)) => {
                lemma_on(sc, st, st1);
                let made = CoreView::ListNew {
                    elem: TypeView::Nominal {
                        def: hash::symbol_id("std.collections.Entry"@),
                        args: seq![
                            emit::elem_view(lw, keys, sc),
                            emit::elem_view(lw, values, sc),
                        ],
                    },
                    alloc,
                    capacity: emit::count_atom(keys.len()),
                };
                lemma_push(sc, st1, made);
                let (list, st2) = scope::push_s(st1, made);
                lemma_entries(lw, inits, ki, vi, keys.len(), alloc, list, sc, st2);
                match emit::entries_s(lw, inits, ki, vi, keys.len(), alloc, list, sc, st2) {
                    Ok((l, st3)) => {
                        lemma_on(sc, st2, st3);
                        let whole = CoreView::Ctor {
                            ty: hash::symbol_id("std.collections.Map"@),
                            tag: 0,
                            fields: seq![l],
                        };
                        lemma_push(sc, st3, whole);
                    },
                    Err(_) => {},
                }
            },
            Err(_) => {},
        }
    }
}

proof fn lemma_entries(
    lw: LowererView,
    inits: Seq<FieldInit>,
    ki: int,
    vi: int,
    n: nat,
    alloc: AtomView,
    list: AtomView,
    sc: ScopeView,
    st: St,
)
    requires
        ready(sc, st),
        st_room(st) ==> indices::atom_in_scope(alloc, deep(st)) && indices::atom_in_scope(
            list,
            deep(st),
        ),
    ensures
        atom_kept(st, emit::entries_s(lw, inits, ki, vi, n, alloc, list, sc, st)),
    decreases inits, 0nat, n,
{
    let keys = emit::part(inits, ki);
    let values = emit::part(inits, vi);
    if n == 0 || n > keys.len() || n > values.len() || !(0 <= ki < inits.len()) || !(0 <= vi
        < inits.len()) {
    } else {
        lemma_entries(lw, inits, ki, vi, (n - 1) as nat, alloc, list, sc, st);
        match emit::entries_s(lw, inits, ki, vi, (n - 1) as nat, alloc, list, sc, st) {
            Ok((l, st1)) => {
                lemma_on(sc, st, st1);
                lemma_atom(lw, keys[n - 1], sc, st1);
                match emit::atom_s(lw, keys[n - 1], sc, st1) {
                    Ok((k, st2)) => {
                        lemma_on(sc, st1, st2);
                        lemma_atom(lw, values[n - 1], sc, st2);
                        match emit::atom_s(lw, values[n - 1], sc, st2) {
                            Ok((v, st3)) => {
                                lemma_on(sc, st2, st3);
                                lemma_push(sc, st3, emit::entry_view(k, v));
                                let (entry, st4) = scope::push_s(st3, emit::entry_view(k, v));
                                let put = CoreView::ListPush { alloc, list: l, value: entry };
                                lemma_push(sc, st4, put);
                            },
                            Err(_) => {},
                        }
                    },
                    Err(_) => {},
                }
            },
            Err(_) => {},
        }
    }
}

// ---- assignments -------------------------------------------------------------------------------------

proof fn lemma_target(lw: LowererView, lv: LValue, sc: ScopeView, st: St)
    requires
        ready(sc, st),
    ensures
        atom_kept(st, assign::target_s(lw, lv, sc, st)),
    decreases lv,
{
    match lv {
        LValue::Var(name) => lemma_var(lw, name@, sc, st),
        LValue::Field(base, field) => {
            lemma_target(lw, *base, sc, st);
            match assign::target_s(lw, *base, sc, st) {
                Ok((a, st1)) => {
                    lemma_on(sc, st, st1);
                    match resolve::projection(lw, assign::target_type(lw, *base, sc), field@) {
                        Ok((_, i)) => lemma_push(
                            sc,
                            st1,
                            CoreView::Proj { base: a, idx: (i as usize) as u32 },
                        ),
                        Err(_) => {},
                    }
                },
                Err(_) => {},
            }
        },
        LValue::Index(base, index) => {
            lemma_target(lw, *base, sc, st);
            match assign::target_s(lw, *base, sc, st) {
                Ok((a, st1)) => {
                    lemma_on(sc, st, st1);
                    lemma_atom(lw, *index, sc, st1);
                    match emit::atom_s(lw, *index, sc, st1) {
                        Ok((i, st2)) => {
                            lemma_on(sc, st1, st2);
                            lemma_push(
                                sc,
                                st2,
                                CoreView::Prim { op: PrimOp::Index, args: seq![a, i] },
                            );
                        },
                        Err(_) => {},
                    }
                },
                Err(_) => {},
            }
        },
    }
}

proof fn lemma_rebuilt(base: AtomView, at: int, new: AtomView, n: nat, sc: ScopeView, st: St)
    requires
        ready(sc, st),
        st_room(st) ==> indices::atom_in_scope(base, deep(st)) && indices::atom_in_scope(
            new,
            deep(st),
        ),
    ensures
        atoms_kept(st, Ok(assign::rebuilt_s(base, at, new, n, st))),
        ready(sc, assign::rebuilt_s(base, at, new, n, st).1),
        st_room(assign::rebuilt_s(base, at, new, n, st).1) ==> st_room(st),
    decreases n,
{
    if n > 0 {
        lemma_rebuilt(base, at, new, (n - 1) as nat, sc, st);
        let (out, st1) = assign::rebuilt_s(base, at, new, (n - 1) as nat, st);
        if n - 1 != at {
            lemma_push(sc, st1, CoreView::Proj { base, idx: ((n - 1) as usize) as u32 });
        }
    }
}

proof fn lemma_two_way(cond: AtomView, no: CoreView, yes: CoreView, d: int)
    requires
        0 <= d <= u32::MAX,
    ensures
        room(blocks::two_way(cond, no, yes), d) ==> room(no, d) && room(yes, d),
        indices::atom_in_scope(cond, d) && indices::in_scope(no, d) && indices::in_scope(yes, d)
            ==> indices::in_scope(blocks::two_way(cond, no, yes), d),
{
    let v = seq![BranchView { binds: 0, body: no }, BranchView { binds: 0, body: yes }];
    assert(v[0].body == no && v[1].body == yes);
    assert(branches_room(v, 0, d) && indices::branches_in_scope(v, 0, d));
    assert(branches_room(v, 1, d) == room(v[0].body, d + v[0].binds));
    assert(branches_room(v, 2, d) == (branches_room(v, 1, d) && room(v[1].body, d + v[1].binds)));
    assert(indices::branches_in_scope(v, 1, d) == indices::in_scope(v[0].body, d + v[0].binds));
    assert(indices::branches_in_scope(v, 2, d) == (indices::branches_in_scope(v, 1, d)
        && indices::in_scope(v[1].body, d + v[1].binds)));
}

proof fn lemma_stored(base: AtomView, index: AtomView, new: AtomView, n: nat, sc: ScopeView, st: St)
    requires
        ready(sc, st),
        st_room(st) ==> indices::atom_in_scope(base, deep(st)) && indices::atom_in_scope(
            index,
            deep(st),
        ) && indices::atom_in_scope(new, deep(st)),
    ensures
        atoms_kept(st, Ok(assign::stored_s(base, index, new, n, st))),
        ready(sc, assign::stored_s(base, index, new, n, st).1),
        st_room(assign::stored_s(base, index, new, n, st).1) ==> st_room(st),
    decreases n,
{
    if n > 0 {
        lemma_stored(base, index, new, (n - 1) as nat, sc, st);
        let (out, st1) = assign::stored_s(base, index, new, (n - 1) as nat, st);
        let here = assign::place((n - 1) as nat);
        let eq = CoreView::Prim { op: PrimOp::Eq, args: seq![index, here] };
        lemma_push(sc, st1, eq);
        let (hit, st2) = scope::push_s(st1, eq);
        let get = CoreView::Prim { op: PrimOp::Index, args: seq![base, here] };
        lemma_push(sc, st2, get);
        let (old_item, st3) = scope::push_s(st2, get);
        if st_room(st3) {
            lemma_depth(st3);
            lemma_two_way(hit, CoreView::Atom(old_item), CoreView::Atom(new), deep(st3));
        }
        assert(assign::choice(hit, old_item, new) == blocks::two_way(
            hit,
            CoreView::Atom(old_item),
            CoreView::Atom(new),
        ));
        lemma_push(sc, st3, assign::choice(hit, old_item, new));
    }
}

proof fn lemma_element(
    lw: LowererView,
    t: STypeView,
    base: AtomView,
    index: AtomView,
    new: AtomView,
    sc: ScopeView,
    st: St,
)
    requires
        ready(sc, st),
        st_room(st) ==> indices::atom_in_scope(base, deep(st)) && indices::atom_in_scope(
            index,
            deep(st),
        ) && indices::atom_in_scope(new, deep(st)),
    ensures
        assign::element_s(lw, t, base, index, new, st) matches Some((a, u)) ==> atom_kept(
            st,
            Ok((a, u)),
        ),
{
    match t {
        STypeView::Slice(_) => lemma_push(sc, st, CoreView::IndexSet { base, index, value: new }),
        STypeView::Array { len, elem } => {
            let get = CoreView::Prim { op: PrimOp::Index, args: seq![base, index] };
            lemma_push(sc, st, get);
            let st1 = scope::push_s(st, get).1;
            lemma_stored(base, index, new, len as nat, sc, st1);
            let (items, st2) = assign::stored_s(base, index, new, len as nat, st1);
            let whole = CoreView::Array { elem: resolve::ty_s(lw, *elem, Seq::empty()), items };
            lemma_push(sc, st2, whole);
        },
        _ => {},
    }
}

proof fn lemma_bind(sc: ScopeView, st: St, b: BindView)
    requires
        ready(sc, st),
        st_room(st) ==> indices::atom_in_scope(b.atom, deep(st)),
    ensures
        ready(scope::bind(sc, b), st),
{
}

proof fn lemma_assign(lw: LowererView, lv: LValue, new: AtomView, sc: ScopeView, st: St)
    requires
        ready(sc, st),
        st_room(st) ==> indices::atom_in_scope(new, deep(st)),
    ensures
        step_kept(st, assign::assign_s(lw, lv, new, sc, st)),
    decreases lv,
{
    match lv {
        LValue::Var(name) => match scope::local(sc, name@) {
            None => {},
            Some(b) => lemma_bind(sc, st, BindView { atom: new, ..b }),
        },
        LValue::Field(base, field) => match resolve::projection(
            lw,
            assign::target_type(lw, *base, sc),
            field@,
        ) {
            Err(_) => {},
            Ok((s, at)) => {
                lemma_target(lw, *base, sc, st);
                match assign::target_s(lw, *base, sc, st) {
                    Err(_) => {},
                    Ok((a, st1)) => {
                        lemma_on(sc, st, st1);
                        let n = match decls::struct_named(lw.m, s) {
                            Some(d) => d.fields@.len(),
                            None => 0,
                        };
                        lemma_rebuilt(a, at, new, n, sc, st1);
                        let (fields, st2) = assign::rebuilt_s(a, at, new, n, st1);
                        let made = CoreView::Ctor {
                            ty: hash::symbol_id(resolve::struct_qual(lw, s)),
                            tag: 0,
                            fields,
                        };
                        lemma_push(sc, st2, made);
                        let (whole, st3) = scope::push_s(st2, made);
                        lemma_assign(lw, *base, whole, sc, st3);
                    },
                }
            },
        },
        LValue::Index(base, index) => match assign::peeled(assign::target_type(lw, *base, sc)) {
            None => {},
            Some(t) => {
                lemma_target(lw, *base, sc, st);
                match assign::target_s(lw, *base, sc, st) {
                    Err(_) => {},
                    Ok((a, st1)) => {
                        lemma_on(sc, st, st1);
                        lemma_atom(lw, *index, sc, st1);
                        match emit::atom_s(lw, *index, sc, st1) {
                            Err(_) => {},
                            Ok((i, st2)) => {
                                lemma_on(sc, st1, st2);
                                lemma_element(lw, t, a, i, new, sc, st2);
                                match assign::element_s(lw, t, a, i, new, st2) {
                                    None => {},
                                    Some((whole, st3)) => {
                                        lemma_on(sc, st2, st3);
                                        lemma_assign(lw, *base, whole, sc, st3);
                                    },
                                }
                            },
                        }
                    },
                }
            },
        },
    }
}

// ---- contracts ---------------------------------------------------------------------------------------

/// Whether the names of a contract are bound at a depth.
pub open spec fn names_closed(names: NamesView, d: int) -> bool {
    match names {
        NamesView::Flat { params, with_result } => params.len() < u32::MAX && params.len() + (
        if with_result {
            1int
        } else {
            0int
        }) <= d,
        NamesView::Local(sc) => binds_closed(sc, d),
    }
}

proof fn lemma_first_index(v: Seq<Seq<char>>, x: Seq<char>)
    ensures
        text::first_index(v, x) matches Some(i) ==> 0 <= i < v.len(),
    decreases v.len(),
{
    if v.len() > 0 {
        lemma_first_index(v.drop_last(), x);
    }
}

proof fn lemma_operand(e: Expr, names: NamesView, d: int)
    requires
        names_closed(names, d),
    ensures
        contract::operand_s(e, names) matches Ok(a) ==> indices::atom_in_scope(a, d),
{
    match e {
        Expr::Var(name) => match names {
            NamesView::Flat { params, with_result } => {
                lemma_first_index(params, name@);
            },
            NamesView::Local(sc) => lemma_local(sc, name@, d),
        },
        _ => {},
    }
}

proof fn lemma_pred(e: Expr, names: NamesView, d: int)
    requires
        names_closed(names, d),
    ensures
        contract::pred_s(e, names) matches Ok(p) ==> indices::pred_in_scope(p, d),
    decreases e,
{
    match e {
        Expr::Binary(l, op, r) => match op {
            BinOp::And | BinOp::Or => {
                lemma_pred(*l, names, d);
                lemma_pred(*r, names, d);
            },
            _ => {
                lemma_operand(*l, names, d);
                lemma_operand(*r, names, d);
            },
        },
        Expr::Unary(op, inner) => lemma_pred(*inner, names, d),
        _ => {},
    }
}

proof fn lemma_clauses(v: Seq<Expr>, n: nat, names: NamesView, d: int)
    requires
        names_closed(names, d),
    ensures
        contract::clauses_s(v, n, names) matches Ok(out) ==> forall|i: int|
            0 <= i < out.len() ==> indices::pred_in_scope(#[trigger] out[i], d),
    decreases n,
{
    if n > 0 {
        lemma_clauses(v, (n - 1) as nat, names, d);
        lemma_pred(v[n - 1], names, d);
    }
}

proof fn lemma_invariant(v: Seq<Expr>, n: nat, sc: ScopeView, d: int)
    requires
        binds_closed(sc, d),
    ensures
        contract::invariant_s(v, n, sc) matches Ok(Some(p)) ==> indices::pred_in_scope(p, d),
    decreases n,
{
    if n > 0 {
        lemma_invariant(v, (n - 1) as nat, sc, d);
        lemma_pred(v[n - 1], NamesView::Local(sc), d);
    }
}

// ---- blocks ------------------------------------------------------------------------------------------

/// Whether the binders of each pattern of the statements can be counted.
pub open spec fn narrow_stmts(v: Seq<Stmt>, n: nat) -> bool
    decreases v, n,
{
    if n == 0 || n > v.len() {
        true
    } else {
        narrow_stmts(v, (n - 1) as nat) && narrow_stmt(v[n - 1])
    }
}

/// Whether the binders of each pattern of a statement can be counted.
pub open spec fn narrow_stmt(s: Stmt) -> bool
    decreases s, 0nat,
{
    match s {
        Stmt::While { cond, invariants, body } => narrow_block(body),
        Stmt::For { binder, iter, body } => narrow_block(body),
        _ => true,
    }
}

/// Whether the binders of each pattern of a block can be counted.
pub open spec fn narrow_block(b: Block) -> bool
    decreases b, 0nat,
{
    narrow_stmts(b.stmts@, b.stmts@.len()) && match b.tail {
        Some(Tail::If(i)) => narrow_if(*i),
        Some(Tail::Match(m)) => narrow_arms(m.arms@, m.arms@.len()),
        _ => true,
    }
}

/// Whether the binders of each pattern of a choice can be counted.
pub open spec fn narrow_if(i: IfExpr) -> bool
    decreases i, 0nat,
{
    narrow_block(i.yes) && match i.no {
        Some(Else::Block(b)) => narrow_block(b),
        Some(Else::If(inner)) => narrow_if(*inner),
        None => true,
    }
}

/// Whether the binders of each pattern of the arms can be counted.
pub open spec fn narrow_arms(v: Seq<Arm>, n: nat) -> bool
    decreases v, n,
{
    if n == 0 || n > v.len() {
        true
    } else {
        narrow_arms(v, (n - 1) as nat) && narrow_arm(v[n - 1])
    }
}

/// Whether the binders of each pattern of an arm can be counted.
pub open spec fn narrow_arm(a: Arm) -> bool
    decreases a, 0nat,
{
    (a.pat matches Pattern::Ctor { path, fields } ==> fields@.len() <= u32::MAX) && match a.body {
        ArmBody::Block(b) => narrow_block(b),
        ArmBody::Expr(_) => true,
    }
}

/// Whether the state that a block hands on is bound at a depth.
pub open spec fn goal_closed(goal: GoalView, d: int) -> bool {
    match goal {
        GoalView::Value => true,
        GoalView::Next(v) => forall|i: int|
            0 <= i < v.len() ==> indices::atom_in_scope((#[trigger] v[i]).atom, d),
    }
}

/// Whether a branch is closed at a depth, if its binders can be counted.
pub open spec fn branch_closed(b: BranchView, d: int) -> bool {
    d + b.binds <= u32::MAX && room(b.body, d + b.binds) ==> indices::in_scope(
        b.body,
        d + b.binds,
    )
}

/// Whether the branches found so far are closed at a depth.
pub open spec fn slots_closed(s: SlotsView, d: int) -> bool {
    &&& forall|i: int|
        0 <= i < s.tags.len() ==> ((#[trigger] s.tags[i]) matches Some(b) ==> branch_closed(b, d))
    &&& (s.wild matches Some(c) ==> branch_closed(BranchView { binds: 0, body: c }, d))
}

proof fn lemma_fold(base: u32, lets: Seq<CoreView>, tail: CoreView)
    ensures
        room(scope::fold_view(lets, tail), base as int) ==> lets_room(base, lets) && room(
            tail,
            base + lets.len(),
        ),
        lets_room(base, lets) && lets_closed(base, lets) && indices::in_scope(
            tail,
            base + lets.len(),
        ) ==> indices::in_scope(scope::fold_view(lets, tail), base as int),
    decreases lets.len(),
{
    reveal(lets_room);
    reveal(lets_closed);
    if lets.len() > 0 {
        let rest = lets.drop_last();
        let inner = CoreView::Let { value: Box::new(lets.last()), body: Box::new(tail) };
        lemma_fold(base, rest, inner);
        if room(scope::fold_view(lets, tail), base as int) {
            assert forall|i: int| 0 <= i < lets.len() implies room(
                #[trigger] lets[i],
                base + i,
            ) by {
                if i < rest.len() {
                    assert(rest[i] == lets[i]);
                }
            }
        }
        if lets_room(base, lets) && lets_closed(base, lets) && indices::in_scope(
            tail,
            base + lets.len(),
        ) {
            assert forall|i: int| 0 <= i < rest.len() implies room(
                #[trigger] rest[i],
                base + i,
            ) && indices::in_scope(rest[i], base + i) by {
                assert(rest[i] == lets[i]);
            }
            assert(indices::in_scope(lets[lets.len() - 1], base + (lets.len() - 1)));
            assert(indices::in_scope(inner, base + rest.len()));
        }
    }
}

proof fn lemma_closed(base: u32, pend: PendView, r: Result<(CoreView, St), LowerErrorView>)
    requires
        core_kept(scope::open_s(base, pend), r),
    ensures
        closed_at(blocks::closed_s(r), base),
{
    match r {
        Ok((c, t)) => lemma_fold(base, t.lets, c),
        Err(_) => {},
    }
}

proof fn lemma_latest(sc: ScopeView, decl: nat, a: AtomView, d: int)
    requires
        binds_closed(sc, d),
        indices::atom_in_scope(a, d),
    ensures
        indices::atom_in_scope(scope::latest(sc, decl, a), d),
{
    find::lemma_last_below(|i: int| sc.binds[i].decl == decl, sc.binds.len() as int);
}

proof fn lemma_nothing(goal: GoalView, sc: ScopeView, d: int)
    requires
        binds_closed(sc, d),
        goal_closed(goal, d),
    ensures
        indices::in_scope(blocks::nothing_s(goal, sc), d),
{
    match goal {
        GoalView::Value => {},
        GoalView::Next(v) => {
            let fields = Seq::new(
                v.len(),
                |i: int| scope::latest(sc, v[i].decl, v[i].atom),
            );
            assert forall|i: int| 0 <= i < fields.len() implies indices::atom_in_scope(
                #[trigger] fields[i],
                d,
            ) by {
                lemma_latest(sc, v[i].decl, v[i].atom, d);
            }
        },
    }
}

proof fn lemma_yield(lw: LowererView, e: Expr, goal: GoalView, sc: ScopeView, st: St)
    requires
        ready(sc, st),
        st_room(st) ==> goal_closed(goal, deep(st)),
    ensures
        core_kept(st, blocks::yield_s(lw, e, goal, sc, st)),
{
    match goal {
        GoalView::Value => lemma_tail(lw, e, sc, st),
        GoalView::Next(v) => {
            lemma_atom(lw, e, sc, st);
            match emit::atom_s(lw, e, sc, st) {
                Ok((_, st1)) => {
                    lemma_on(sc, st, st1);
                    if st_room(st1) {
                        lemma_nothing(goal, sc, deep(st1));
                    }
                },
                Err(_) => {},
            }
        },
    }
}

proof fn lemma_return(
    lw: LowererView,
    o: Option<Expr>,
    goal: GoalView,
    sc: ScopeView,
    st: St,
)
    requires
        ready(sc, st),
    ensures
        core_kept(st, blocks::return_s(lw, o, goal, sc, st)),
{
    match o {
        None => {},
        Some(e) => match goal {
            GoalView::Value => lemma_tail(lw, e, sc, st),
            GoalView::Next(_) => lemma_atom(lw, e, sc, st),
        },
    }
}

proof fn lemma_carried(sc: ScopeView, assigned: spec_fn(Seq<char>) -> bool, n: nat, d: int)
    requires
        binds_closed(sc, d),
    ensures
        indices::atoms_in_scope(blocks::atoms_of(blocks::carried(sc, assigned, n)), d),
    decreases n,
{
    if n > 0 {
        lemma_carried(sc, assigned, (n - 1) as nat, d);
        let before = blocks::carried(sc, assigned, (n - 1) as nat);
        let all = blocks::carried(sc, assigned, n);
        lemma_local(sc, sc.binds[n - 1].name, d);
        assert forall|i: int| 0 <= i < all.len() implies indices::atom_in_scope(
            #[trigger] blocks::atoms_of(all)[i],
            d,
        ) by {
            if i < before.len() {
                assert(blocks::atoms_of(before)[i] == before[i].atom);
            }
        }
    }
}

proof fn lemma_inside(sc: ScopeView, v: Seq<CarryView>, n: nat, d: int)
    requires
        binds_closed(sc, d),
        n <= v.len(),
        goal_closed(GoalView::Next(v), d),
    ensures
        binds_closed(blocks::inside(sc, v, n), d),
    decreases n,
{
    if n > 0 {
        lemma_inside(sc, v, (n - 1) as nat, d);
    }
}

proof fn lemma_after(sc: ScopeView, v: Seq<CarryView>, n: nat, whole: AtomView, st: St)
    requires
        ready(sc, st),
        st_room(st) ==> indices::atom_in_scope(whole, deep(st)),
    ensures
        step_kept(st, Ok(blocks::after_s(sc, v, n, whole, st))),
        st_room(blocks::after_s(sc, v, n, whole, st).1) ==> st_room(st),
    decreases n,
{
    if n > 0 {
        lemma_after(sc, v, (n - 1) as nat, whole, st);
        let (sc1, st1) = blocks::after_s(sc, v, (n - 1) as nat, whole, st);
        let get = CoreView::Proj { base: whole, idx: ((n - 1) as usize) as u32 };
        lemma_push(sc1, st1, get);
        let (a, st2) = scope::push_s(st1, get);
        lemma_bind(sc1, st2, blocks::rebind(v[n - 1], a));
    }
}

/// The scope, the goal and the depth inside a loop.
proof fn lemma_head(sc: ScopeView, vars: Seq<BindView>, st: St)
    requires
        ready(sc, st),
        st_room(st),
        deep(st) + vars.len() <= u32::MAX,
    ensures
        ({
            let head = blocks::header(vars, scope::depth_s(st));
            let base = indices::add32(scope::depth_s(st), (vars.len() as usize) as u32);
            &&& base == deep(st) + vars.len()
            &&& goal_closed(GoalView::Next(head), base as int)
            &&& binds_closed(blocks::inside(sc, head, head.len()), base as int)
        }),
{
    lemma_depth(st);
    let head = blocks::header(vars, scope::depth_s(st));
    let base = indices::add32(scope::depth_s(st), (vars.len() as usize) as u32);
    assert(base == deep(st) + vars.len());
    assert(goal_closed(GoalView::Next(head), base as int));
    lemma_inside(sc, head, head.len(), base as int);
}

proof fn lemma_length(lw: LowererView, iter: Expr, sc: ScopeView, st: St)
    requires
        ready(sc, st),
    ensures
        atom_kept(st, blocks::length_s(lw, iter, sc, st)),
{
    reveal(resolve::iterator_call);
    match blocks::protocol(lw, "iter_len"@, iter, sc, st.pend) {
        Some((func, pend)) => {
            let st0 = St { pend, ..st };
            lemma_atom(lw, iter, sc, st0);
            match emit::atom_s(lw, iter, sc, st0) {
                Ok((a, st1)) => {
                    lemma_on(sc, st0, st1);
                    lemma_push(sc, st1, CoreView::App { func, arg: a });
                },
                Err(_) => {},
            }
        },
        None => {
            lemma_atom(lw, iter, sc, st);
            match emit::atom_s(lw, iter, sc, st) {
                Ok((a, st1)) => {
                    lemma_on(sc, st, st1);
                    if st_room(st1) {
                        lemma_local(sc, "len"@, deep(st1));
                    }
                    match scope::local(sc, "len"@) {
                        None => lemma_push(
                            sc,
                            st1,
                            CoreView::Prim { op: PrimOp::Len, args: seq![a] },
                        ),
                        Some(f) => lemma_push(sc, st1, CoreView::App { func: f.atom, arg: a }),
                    }
                },
                Err(_) => {},
            }
        },
    }
}

proof fn lemma_below(lw: LowererView, iter: Expr, index: Seq<char>, sc: ScopeView, st: St)
    requires
        ready(sc, st),
    ensures
        core_kept(st, blocks::below_s(lw, iter, index, sc, st)),
{
    lemma_var(lw, index, sc, st);
    match emit::var_s(lw, index, sc, st) {
        Ok((i, st1)) => {
            lemma_on(sc, st, st1);
            lemma_length(lw, iter, sc, st1);
            match blocks::length_s(lw, iter, sc, st1) {
                Ok((n, st2)) => lemma_on(sc, st1, st2),
                Err(_) => {},
            }
        },
        Err(_) => {},
    }
}

proof fn lemma_item(
    lw: LowererView,
    binder: Seq<char>,
    iter: Expr,
    index: Seq<char>,
    sc: ScopeView,
    st: St,
)
    requires
        ready(sc, st),
    ensures
        step_kept(st, blocks::item_s(lw, binder, iter, index, sc, st)),
{
    reveal(resolve::iterator_call);
    match blocks::protocol(lw, "iter_get"@, iter, sc, st.pend) {
        Some((func, pend)) => {
            let st0 = St { pend, ..st };
            lemma_atom(lw, iter, sc, st0);
            match emit::atom_s(lw, iter, sc, st0) {
                Ok((a, st1)) => {
                    lemma_on(sc, st0, st1);
                    let first = CoreView::App { func, arg: a };
                    lemma_push(sc, st1, first);
                    let (get, st2) = scope::push_s(st1, first);
                    lemma_var(lw, index, sc, st2);
                    match emit::var_s(lw, index, sc, st2) {
                        Ok((i, st3)) => {
                            lemma_on(sc, st2, st3);
                            lemma_push(sc, st3, CoreView::App { func: get, arg: i });
                        },
                        Err(_) => {},
                    }
                },
                Err(_) => {},
            }
        },
        None => {
            lemma_atom(lw, iter, sc, st);
            match emit::atom_s(lw, iter, sc, st) {
                Ok((a, st1)) => {
                    lemma_on(sc, st, st1);
                    lemma_var(lw, index, sc, st1);
                    match emit::var_s(lw, index, sc, st1) {
                        Ok((i, st2)) => {
                            lemma_on(sc, st1, st2);
                            lemma_push(sc, st2, CoreView::Prim { op: PrimOp::Index, args: seq![a, i] });
                        },
                        Err(_) => {},
                    }
                },
                Err(_) => {},
            }
        },
    }
}

proof fn lemma_advance(lw: LowererView, index: Seq<char>, sc: ScopeView, st: St)
    requires
        ready(sc, st),
    ensures
        step_kept(st, blocks::advance_s(lw, index, sc, st)),
{
    lemma_var(lw, index, sc, st);
    match emit::var_s(lw, index, sc, st) {
        Ok((i, st1)) => {
            lemma_on(sc, st, st1);
            let next = CoreView::Prim {
                op: PrimOp::Add,
                args: seq![i, AtomView::Lit(LiteralView::Int(1))],
            };
            lemma_push(sc, st1, next);
        },
        Err(_) => {},
    }
}

proof fn lemma_let(
    lw: LowererView,
    name: Seq<char>,
    ty: Option<STypeView>,
    value: Expr,
    mutable: bool,
    sc: ScopeView,
    st: St,
)
    requires
        ready(sc, st),
    ensures
        step_kept(st, blocks::let_s(lw, name, ty, value, mutable, sc, st)),
{
    lemma_atom(lw, value, sc, st);
    match emit::atom_s(lw, value, sc, st) {
        Ok((a, st1)) => lemma_on(sc, st, st1),
        Err(_) => {},
    }
}

proof fn lemma_block(
    lw: LowererView,
    b: Block,
    goal: GoalView,
    sc: ScopeView,
    base: u32,
    pend: PendView,
)
    requires
        binds_closed(sc, base as int),
        goal_closed(goal, base as int),
        narrow_block(b),
    ensures
        closed_at(blocks::block_s(lw, b, goal, sc, base, pend), base),
    decreases b, 1nat, 0nat,
{
    let st = scope::open_s(base, pend);
    lemma_open(base, pend);
    lemma_stmts(lw, b.stmts@, b.stmts@.len(), sc, st);
    match blocks::stmts_s(lw, b.stmts@, b.stmts@.len(), sc, st) {
        Ok((sc1, st1)) => {
            lemma_end(lw, b, goal, sc1, st1);
            lemma_closed(base, pend, blocks::end_s(lw, b, goal, sc1, st1));
        },
        Err(_) => {},
    }
}

proof fn lemma_stmts(lw: LowererView, v: Seq<Stmt>, n: nat, sc: ScopeView, st: St)
    requires
        ready(sc, st),
        narrow_stmts(v, n),
    ensures
        step_kept(st, blocks::stmts_s(lw, v, n, sc, st)),
    decreases v, 0nat, n,
{
    if n == 0 || n > v.len() {
    } else {
        lemma_stmts(lw, v, (n - 1) as nat, sc, st);
        match blocks::stmts_s(lw, v, (n - 1) as nat, sc, st) {
            Ok((sc1, st1)) => lemma_stmt(lw, v[n - 1], sc1, st1),
            Err(_) => {},
        }
    }
}

proof fn lemma_stmt(lw: LowererView, s: Stmt, sc: ScopeView, st: St)
    requires
        ready(sc, st),
        narrow_stmt(s),
    ensures
        step_kept(st, blocks::stmt_s(lw, s, sc, st)),
    decreases s, 1nat, 0nat,
{
    match s {
        Stmt::Let { name, ty, value } => lemma_let(
            lw,
            name@,
            syntax::opt_stype_view(ty),
            value,
            false,
            sc,
            st,
        ),
        Stmt::Var { name, ty, value } => lemma_let(
            lw,
            name@,
            syntax::opt_stype_view(ty),
            value,
            true,
            sc,
            st,
        ),
        Stmt::Assign { target, value } => {
            lemma_atom(lw, value, sc, st);
            match emit::atom_s(lw, value, sc, st) {
                Ok((a, st1)) => {
                    lemma_on(sc, st, st1);
                    lemma_assign(lw, target, a, sc, st1);
                },
                Err(_) => {},
            }
        },
        Stmt::While { cond, invariants, body } => lemma_while(lw, s, sc, st),
        Stmt::For { binder, iter, body } => lemma_for(lw, s, sc, st),
    }
}

proof fn lemma_loop(
    vars: Seq<BindView>,
    head: Seq<CarryView>,
    inv: Option<PredView>,
    cond: CoreView,
    body: CoreView,
    sc: ScopeView,
    st: St,
)
    requires
        ready(sc, st),
        ({
            let c = CoreView::Loop {
                state: blocks::atoms_of(vars),
                inv,
                cond: Box::new(cond),
                body: Box::new(body),
            };
            st_room(st) && room(c, deep(st)) ==> indices::in_scope(c, deep(st))
        }),
    ensures
        step_kept(st, Ok(blocks::loop_s(vars, head, inv, cond, body, sc, st))),
{
    let c = CoreView::Loop {
        state: blocks::atoms_of(vars),
        inv,
        cond: Box::new(cond),
        body: Box::new(body),
    };
    lemma_push(sc, st, c);
    let (whole, st1) = scope::push_s(st, c);
    lemma_after(sc, head, head.len(), whole, st1);
}

proof fn lemma_while(lw: LowererView, s: Stmt, sc: ScopeView, st: St)
    requires
        ready(sc, st),
        narrow_stmt(s),
    ensures
        step_kept(st, blocks::while_s(lw, s, sc, st)),
    decreases s, 0nat, 0nat,
{
    match s {
        Stmt::While { cond, invariants, body } => {
            let assigned = blocks::while_assigns(body);
            let vars = blocks::carried(sc, assigned, sc.binds.len());
            let head = blocks::header(vars, scope::depth_s(st));
            let inner = blocks::inside(sc, head, head.len());
            let base = indices::add32(scope::depth_s(st), (vars.len() as usize) as u32);
            let rc = blocks::closed_s(emit::tail_s(lw, cond, inner, scope::open_s(base, st.pend)));
            match rc {
                Ok((c, pend1)) => match contract::invariant_s(
                    invariants@,
                    invariants@.len(),
                    inner,
                ) {
                    Ok(inv) => {
                        let goal = GoalView::Next(head);
                        match blocks::block_s(lw, body, goal, inner, base, pend1) {
                            Ok((k, pend2)) => {
                                let st1 = St { pend: pend2, ..st };
                                let whole = CoreView::Loop {
                                    state: blocks::atoms_of(vars),
                                    inv,
                                    cond: Box::new(c),
                                    body: Box::new(k),
                                };
                                if st_room(st) && room(whole, deep(st)) {
                                    lemma_head(sc, vars, st);
                                    lemma_carried(sc, assigned, sc.binds.len(), deep(st));
                                    lemma_open(base, st.pend);
                                    lemma_tail(lw, cond, inner, scope::open_s(base, st.pend));
                                    lemma_closed(
                                        base,
                                        st.pend,
                                        emit::tail_s(lw, cond, inner, scope::open_s(base, st.pend)),
                                    );
                                    lemma_invariant(
                                        invariants@,
                                        invariants@.len(),
                                        inner,
                                        base as int,
                                    );
                                    lemma_block(lw, body, goal, inner, base, pend1);
                                    assert(indices::in_scope(whole, deep(st)));
                                }
                                lemma_loop(vars, head, inv, c, k, sc, st1);
                            },
                            Err(_) => {},
                        }
                    },
                    Err(_) => {},
                },
                Err(_) => {},
            }
        },
        _ => {},
    }
}

proof fn lemma_for_body(
    lw: LowererView,
    binder: Seq<char>,
    iter: Expr,
    body: Block,
    index: Seq<char>,
    goal: GoalView,
    sc: ScopeView,
    base: u32,
    pend: PendView,
)
    requires
        binds_closed(sc, base as int),
        goal_closed(goal, base as int),
        narrow_block(body),
    ensures
        closed_at(blocks::for_body_s(lw, binder, iter, body, index, goal, sc, base, pend), base),
    decreases body, 1nat, 0nat,
{
    let st = scope::open_s(base, pend);
    lemma_open(base, pend);
    lemma_item(lw, binder, iter, index, sc, st);
    match blocks::item_s(lw, binder, iter, index, sc, st) {
        Ok((sc1, st1)) => {
            lemma_stmts(lw, body.stmts@, body.stmts@.len(), sc1, st1);
            match blocks::stmts_s(lw, body.stmts@, body.stmts@.len(), sc1, st1) {
                Ok((sc2, st2)) => {
                    lemma_advance(lw, index, sc2, st2);
                    match blocks::advance_s(lw, index, sc2, st2) {
                        Ok((sc3, st3)) => {
                            lemma_end(lw, body, goal, sc3, st3);
                            lemma_closed(base, pend, blocks::end_s(lw, body, goal, sc3, st3));
                        },
                        Err(_) => {},
                    }
                },
                Err(_) => {},
            }
        },
        Err(_) => {},
    }
}

proof fn lemma_for(lw: LowererView, s: Stmt, sc0: ScopeView, st: St)
    requires
        ready(sc0, st),
        narrow_stmt(s),
    ensures
        step_kept(st, blocks::for_s(lw, s, sc0, st)),
    decreases s, 0nat, 0nat,
{
    match s {
        Stmt::For { binder, iter, body } => {
            let index = blocks::index_name(scope::depth_s(st));
            let sc = scope::bind(sc0, blocks::index_bind(sc0, scope::depth_s(st)));
            lemma_bind(sc0, st, blocks::index_bind(sc0, scope::depth_s(st)));
            let assigned = blocks::for_assigns(binder@, index, body);
            let vars = blocks::carried(sc, assigned, sc.binds.len());
            let head = blocks::header(vars, scope::depth_s(st));
            let inner = blocks::inside(sc, head, head.len());
            let base = indices::add32(scope::depth_s(st), (vars.len() as usize) as u32);
            let goal = GoalView::Next(head);
            let test = blocks::below_s(lw, iter, index, inner, scope::open_s(base, st.pend));
            match blocks::closed_s(test) {
                Ok((c, pend1)) => match blocks::for_body_s(
                    lw,
                    binder@,
                    iter,
                    body,
                    index,
                    goal,
                    inner,
                    base,
                    pend1,
                ) {
                    Ok((k, pend2)) => {
                        let st1 = St { pend: pend2, ..st };
                        let whole = CoreView::Loop {
                            state: blocks::atoms_of(vars),
                            inv: None,
                            cond: Box::new(c),
                            body: Box::new(k),
                        };
                        if st_room(st) && room(whole, deep(st)) {
                            lemma_head(sc, vars, st);
                            lemma_carried(sc, assigned, sc.binds.len(), deep(st));
                            lemma_open(base, st.pend);
                            lemma_below(lw, iter, index, inner, scope::open_s(base, st.pend));
                            lemma_closed(base, st.pend, test);
                            lemma_for_body(
                                lw,
                                binder@,
                                iter,
                                body,
                                index,
                                goal,
                                inner,
                                base,
                                pend1,
                            );
                            assert(indices::in_scope(whole, deep(st)));
                        }
                        lemma_loop(vars, head, None, c, k, sc, st1);
                    },
                    Err(_) => {},
                },
                Err(_) => {},
            }
        },
        _ => {},
    }
}

proof fn lemma_end(lw: LowererView, b: Block, goal: GoalView, sc: ScopeView, st: St)
    requires
        ready(sc, st),
        goal_closed(goal, st.base as int),
        narrow_block(b),
    ensures
        core_kept(st, blocks::end_s(lw, b, goal, sc, st)),
    decreases b, 0nat, 0nat,
{
    match b.tail {
        None => if st_room(st) {
            lemma_nothing(goal, sc, deep(st));
        },
        Some(Tail::Expr(e)) => lemma_yield(lw, e, goal, sc, st),
        Some(Tail::Return(o)) => lemma_return(lw, o, goal, sc, st),
        Some(Tail::If(i)) => lemma_if(lw, *i, goal, sc, st),
        Some(Tail::Match(m)) => lemma_match(lw, *m, goal, sc, st),
    }
}

proof fn lemma_if(lw: LowererView, i: IfExpr, goal: GoalView, sc: ScopeView, st: St)
    requires
        ready(sc, st),
        goal_closed(goal, st.base as int),
        narrow_if(i),
    ensures
        core_kept(st, blocks::if_s(lw, i, goal, sc, st)),
    decreases i, 1nat, 0nat,
{
    lemma_atom(lw, i.cond, sc, st);
    match emit::atom_s(lw, i.cond, sc, st) {
        Ok((cond, st1)) => {
            lemma_on(sc, st, st1);
            let base = scope::depth_s(st1);
            if st_room(st1) {
                lemma_depth(st1);
                lemma_block(lw, i.yes, goal, sc, base, st1.pend);
                match blocks::block_s(lw, i.yes, goal, sc, base, st1.pend) {
                    Ok((yes, pend2)) => {
                        lemma_else(lw, i, goal, sc, base, pend2);
                        match blocks::else_s(lw, i, goal, sc, base, pend2) {
                            Ok((no, pend3)) => lemma_two_way(cond, no, yes, deep(st1)),
                            Err(_) => {},
                        }
                    },
                    Err(_) => {},
                }
            }
        },
        Err(_) => {},
    }
}

proof fn lemma_else(
    lw: LowererView,
    i: IfExpr,
    goal: GoalView,
    sc: ScopeView,
    base: u32,
    pend: PendView,
)
    requires
        binds_closed(sc, base as int),
        goal_closed(goal, base as int),
        narrow_if(i),
    ensures
        closed_at(blocks::else_s(lw, i, goal, sc, base, pend), base),
    decreases i, 0nat, 0nat,
{
    match i.no {
        None => lemma_nothing(goal, sc, base as int),
        Some(Else::Block(b)) => lemma_block(lw, b, goal, sc, base, pend),
        Some(Else::If(inner)) => {
            let st = scope::open_s(base, pend);
            lemma_open(base, pend);
            lemma_if(lw, *inner, goal, sc, st);
            lemma_closed(base, pend, blocks::if_s(lw, *inner, goal, sc, st));
        },
    }
}

proof fn lemma_fields(v: Seq<FieldPat>, n: nat, sc: ScopeView, base: u32, d: int)
    requires
        binds_closed(sc, d),
        n <= v.len() <= u32::MAX,
        base + v.len() <= d <= u32::MAX,
    ensures
        binds_closed(blocks::fields_s(v, n, sc, base), d),
    decreases n,
{
    if n > 0 {
        lemma_fields(v, (n - 1) as nat, sc, base, d);
    }
}

proof fn lemma_arm_body(
    lw: LowererView,
    a: Arm,
    goal: GoalView,
    sc: ScopeView,
    base: u32,
    pend: PendView,
)
    requires
        binds_closed(sc, base as int),
        goal_closed(goal, base as int),
        narrow_arm(a),
    ensures
        closed_at(blocks::arm_body_s(lw, a, goal, sc, base, pend), base),
    decreases a, 0nat, 0nat,
{
    match a.body {
        ArmBody::Expr(e) => {
            let st = scope::open_s(base, pend);
            lemma_open(base, pend);
            lemma_yield(lw, e, goal, sc, st);
            lemma_closed(base, pend, blocks::yield_s(lw, e, goal, sc, st));
        },
        ArmBody::Block(b) => lemma_block(lw, b, goal, sc, base, pend),
    }
}

proof fn lemma_arm(
    lw: LowererView,
    a: Arm,
    qual: Seq<char>,
    goal: GoalView,
    sc: ScopeView,
    base: u32,
    s: SlotsView,
    pend: PendView,
)
    requires
        binds_closed(sc, base as int),
        goal_closed(goal, base as int),
        narrow_arm(a),
        slots_closed(s, base as int),
    ensures
        blocks::arm_s(lw, a, qual, goal, sc, base, s, pend) matches Ok((t, _)) ==> slots_closed(
            t,
            base as int,
        ),
    decreases a, 1nat, 0nat,
{
    match a.pat {
        Pattern::Wildcard => lemma_arm_body(lw, a, goal, sc, base, pend),
        Pattern::Ctor { path, fields } => {
            let binds = (fields@.len() as usize) as u32;
            if base + fields@.len() <= u32::MAX {
                let d = indices::add32(base, binds);
                lemma_fields(fields@, fields@.len(), sc, base, d as int);
                let inner = blocks::fields_s(fields@, fields@.len(), sc, base);
                lemma_arm_body(lw, a, goal, inner, d, pend);
            }
        },
    }
}

proof fn lemma_arms(
    lw: LowererView,
    v: Seq<Arm>,
    n: nat,
    qual: Seq<char>,
    goal: GoalView,
    sc: ScopeView,
    base: u32,
    s: SlotsView,
    pend: PendView,
)
    requires
        binds_closed(sc, base as int),
        goal_closed(goal, base as int),
        narrow_arms(v, n),
        slots_closed(s, base as int),
    ensures
        blocks::arms_s(lw, v, n, qual, goal, sc, base, s, pend) matches Ok((t, _))
            ==> slots_closed(t, base as int),
    decreases v, 0nat, n,
{
    if n == 0 || n > v.len() {
    } else {
        lemma_arms(lw, v, (n - 1) as nat, qual, goal, sc, base, s, pend);
        match blocks::arms_s(lw, v, (n - 1) as nat, qual, goal, sc, base, s, pend) {
            Ok((s1, pend1)) => lemma_arm(lw, v[n - 1], qual, goal, sc, base, s1, pend1),
            Err(_) => {},
        }
    }
}

proof fn lemma_covered(s: SlotsView, tag: nat, d: int)
    requires
        slots_closed(s, d),
    ensures
        forall|i: int|
            0 <= i < blocks::covered(s, tag).len() ==> branch_closed(
                #[trigger] blocks::covered(s, tag)[i],
                d,
            ),
    decreases s.tags.len() - tag,
{
    if tag < s.tags.len() {
        match blocks::covering(s, tag as int) {
            Some(b) => {
                lemma_covered(s, tag + 1, d);
                let rest = blocks::covered(s, tag + 1);
                let all = blocks::covered(s, tag);
                assert(branch_closed(b, d));
                assert forall|i: int| 0 <= i < all.len() implies branch_closed(
                    #[trigger] all[i],
                    d,
                ) by {
                    if i > 0 {
                        assert(all[i] == rest[i - 1]);
                    }
                }
            },
            None => {},
        }
    }
}

proof fn lemma_branches(v: Seq<BranchView>, n: nat, d: int)
    requires
        n <= v.len(),
        forall|i: int| 0 <= i < v.len() ==> branch_closed(#[trigger] v[i], d),
        branches_room(v, n, d),
    ensures
        indices::branches_in_scope(v, n, d),
    decreases n,
{
    if n > 0 {
        lemma_branches(v, (n - 1) as nat, d);
        assert(branch_closed(v[n - 1], d));
    }
}

proof fn lemma_match(lw: LowererView, m: MatchExpr, goal: GoalView, sc: ScopeView, st: St)
    requires
        ready(sc, st),
        goal_closed(goal, st.base as int),
        narrow_arms(m.arms@, m.arms@.len()),
    ensures
        core_kept(st, blocks::match_s(lw, m, goal, sc, st)),
    decreases m, 0nat, 0nat,
{
    lemma_atom(lw, m.scrutinee, sc, st);
    match emit::atom_s(lw, m.scrutinee, sc, st) {
        Ok((scrutinee, st1)) => {
            lemma_on(sc, st, st1);
            match blocks::arms_enum(lw, m.arms@, 0) {
                Ok(qual) => if st_room(st1) {
                    lemma_depth(st1);
                    let base = scope::depth_s(st1);
                    let none = blocks::no_slots(decls::variants_of(lw.ms, qual));
                    lemma_arms(
                        lw,
                        m.arms@,
                        m.arms@.len(),
                        qual,
                        goal,
                        sc,
                        base,
                        none,
                        st1.pend,
                    );
                    match blocks::arms_s(
                        lw,
                        m.arms@,
                        m.arms@.len(),
                        qual,
                        goal,
                        sc,
                        base,
                        none,
                        st1.pend,
                    ) {
                        Ok((s, pend)) => {
                            let v = blocks::covered(s, 0);
                            lemma_covered(s, 0, base as int);
                            if branches_room(v, v.len(), base as int) {
                                lemma_branches(v, v.len(), base as int);
                            }
                        },
                        Err(_) => {},
                    }
                },
                Err(_) => {},
            }
        },
        Err(_) => {},
    }
}

// ---- functions ---------------------------------------------------------------------------------------

proof fn lemma_room_index(c: CoreView, d: u32, e: int)
    ensures
        room(indices::core_index(c, d), e) == room(c, e),
    decreases c, 0nat,
{
    match c {
        CoreView::Let { value, body } => {
            lemma_room_index(*value, d, e);
            lemma_room_index(*body, indices::add32(d, 1), e + 1);
        },
        CoreView::Lam { param, effects, body } => lemma_room_index(
            *body,
            indices::add32(d, 1),
            e + 1,
        ),
        CoreView::Match { scrutinee, branches } => lemma_room_branches(
            branches,
            branches.len(),
            d,
            e,
        ),
        CoreView::Loop { state, inv, cond, body } => {
            let k = indices::add32(d, state.len() as u32);
            lemma_room_index(*cond, k, e + state.len());
            lemma_room_index(*body, k, e + state.len());
        },
        _ => {},
    }
}

proof fn lemma_room_branches(v: Seq<BranchView>, n: nat, d: u32, e: int)
    requires
        n <= v.len(),
    ensures
        indices::branches_index(v, n, d).len() == n,
        branches_room(indices::branches_index(v, n, d), n, e) == branches_room(v, n, e),
    decreases v, n,
{
    if n > 0 {
        lemma_room_branches(v, (n - 1) as nat, d, e);
        let before = indices::branches_index(v, (n - 1) as nat, d);
        let all = indices::branches_index(v, n, d);
        lemma_room_prefix(before, all[n - 1], (n - 1) as nat, e);
        assert(all =~= before.push(all[n - 1]));
        lemma_room_index(v[n - 1].body, indices::add32(d, v[n - 1].binds), e + v[n - 1].binds);
    }
}

proof fn lemma_room_prefix(v: Seq<BranchView>, b: BranchView, n: nat, e: int)
    requires
        n <= v.len(),
    ensures
        branches_room(v.push(b), n, e) == branches_room(v, n, e),
    decreases n,
{
    if n > 0 {
        lemma_room_prefix(v, b, (n - 1) as nat, e);
        assert(v.push(b)[n - 1] == v[n - 1]);
    }
}

proof fn lemma_lams(v: Seq<TypeView>, n: nat, c: CoreView)
    ensures
        room(lower::lams(v, n, c), 0) ==> n <= u32::MAX && room(c, n as int),
        n <= u32::MAX && indices::in_scope(c, n as int) ==> indices::in_scope(
            lower::lams(v, n, c),
            0,
        ),
    decreases n,
{
    if n > 0 {
        let inner = CoreView::Lam {
            param: v[n - 1],
            effects: EffectView::pure(),
            body: Box::new(c),
        };
        lemma_lams(v, (n - 1) as nat, inner);
    }
}

proof fn lemma_params(lw: LowererView, f: FnDecl, n: nat, d: int)
    requires
        n <= d <= u32::MAX,
    ensures
        binds_closed(lower::param_scope(lw, f, n), d),
    decreases n,
{
    if n > 0 {
        lemma_params(lw, f, (n - 1) as nat, d);
    }
}

/// What a function is lowered to is closed: every variable of its body is bound
/// there, if its binders can be counted, and its contracts speak of its parameters
/// and, where it returned, of its result.
pub proof fn lemma_a_lowered_function_is_closed(lw: LowererView, f: FnDecl, pend: PendView)
    requires
        lower::fn_s(lw, f, pend) is Ok,
        f.params@.len() < u32::MAX,
        f.body matches Some(b) ==> narrow_block(b),
    ensures
        ({
            let d = lower::fn_s(lw, f, pend)->Ok_0.0;
            let n = f.params@.len() as int;
            &&& (d.body matches Some(c) ==> room(c, 0) ==> indices::in_scope(c, 0))
            &&& forall|i: int|
                0 <= i < d.pre.len() ==> indices::pred_in_scope(#[trigger] d.pre[i], n)
            &&& forall|i: int|
                0 <= i < d.post.len() ==> indices::pred_in_scope(#[trigger] d.post[i], n + 1)
        }),
{
    let n = f.params@.len() as int;
    let params = lower::param_names(f.params@);
    lemma_clauses(
        f.pre@,
        f.pre@.len(),
        NamesView::Flat { params, with_result: false },
        n,
    );
    lemma_clauses(
        f.post@,
        f.post@.len(),
        NamesView::Flat { params, with_result: true },
        n + 1,
    );
    match f.body {
        None => {},
        Some(b) => {
            let tys = lower::param_types(lw, f);
            let base = (tys.len() as usize) as u32;
            let sc = lower::param_scope(lw, f, f.params@.len());
            match blocks::block_s(lw, b, GoalView::Value, sc, base, pend) {
                Ok((c, _)) => {
                    let whole = lower::lams(tys, tys.len(), c);
                    lemma_room_index(whole, 0, 0);
                    lemma_lams(tys, tys.len(), c);
                    if room(whole, 0) {
                        lemma_params(lw, f, f.params@.len(), base as int);
                        lemma_block(lw, b, GoalView::Value, sc, base, pend);
                        indices::lemma_indices_are_an_involution(whole, 0);
                    }
                },
                Err(_) => {},
            }
        },
    }
}

} // verus!
