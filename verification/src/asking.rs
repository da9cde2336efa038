//! What a term is lowered to does not depend on the generic instances that were
//! asked for before it.
use vstd::prelude::*;

use crate::assign;
use crate::blocks;
use crate::blocks::{CarryView, GoalView, SlotsView};
use crate::contract;
use crate::decls;
use crate::emit;
use crate::hash;
use crate::indices;
use crate::ir::{AtomView, CoreView, PredView, PrimOp, TypeView};
use crate::lower;
use crate::lower_error::LowerErrorView;
use crate::resolve;
use crate::scope;
use crate::scope::{BindView, LowererView, PendView, ScopeView, St};
use crate::syntax::{Arm, ArmBody, Block, Else, Expr, Field, FieldInit, FnDecl, IfExpr, LValue, MatchExpr, Pattern, STypeView, Stmt, Tail};
use crate::text;

verus! {

/// States that differ in the instances asked for only.
pub open spec fn same_st(a: St, b: St) -> bool {
    a.base == b.base && a.lets == b.lets
}

/// Results that are the same but for the instances asked for.
pub open spec fn even<T>(
    a: Result<(T, St), LowerErrorView>,
    b: Result<(T, St), LowerErrorView>,
) -> bool {
    match (a, b) {
        (Ok((x, s)), Ok((y, t))) => x == y && same_st(s, t),
        (Err(x), Err(y)) => x == y,
        _ => false,
    }
}

/// Results that are the same but for the instances asked for.
pub open spec fn even_code<T>(
    a: Result<(T, PendView), LowerErrorView>,
    b: Result<(T, PendView), LowerErrorView>,
) -> bool {
    match (a, b) {
        (Ok((x, _)), Ok((y, _))) => x == y,
        (Err(x), Err(y)) => x == y,
        _ => false,
    }
}

/// The same instance, or none.
pub open spec fn even_call(a: Option<(AtomView, PendView)>, b: Option<(AtomView, PendView)>) -> bool {
    match (a, b) {
        (Some((x, _)), Some((y, _))) => x == y,
        (None, None) => true,
        _ => false,
    }
}

// ---- instances ------------------------------------------------------------------------------------

proof fn lemma_calls(
    lw: LowererView,
    name: Seq<char>,
    args: Seq<Expr>,
    elem: STypeView,
    sc: ScopeView,
    p: PendView,
    q: PendView,
)
    ensures
        even_call(
            resolve::generic_call(lw, name, args, sc, p),
            resolve::generic_call(lw, name, args, sc, q),
        ),
        even_call(
            resolve::iterator_call(lw, name, elem, p),
            resolve::iterator_call(lw, name, elem, q),
        ),
{
    reveal(resolve::generic_call);
    reveal(resolve::iterator_call);
}

// ---- expressions ----------------------------------------------------------------------------------

/// A name is lowered alike whatever was asked for.
proof fn lemma_var(lw: LowererView, name: Seq<char>, sc: ScopeView, st: St, tt: St)
    requires
        same_st(st, tt),
    ensures
        even(emit::var_s(lw, name, sc, st), emit::var_s(lw, name, sc, tt)),
{
}

/// An expression is lowered to the same atom whatever was asked for.
pub proof fn lemma_atom(lw: LowererView, e: Expr, sc: ScopeView, st: St, tt: St)
    requires
        same_st(st, tt),
    ensures
        even(emit::atom_s(lw, e, sc, st), emit::atom_s(lw, e, sc, tt)),
    decreases e, 3nat, 0nat,
{
    match e {
        Expr::Unit | Expr::Int(_) | Expr::Bool(_) | Expr::Str(_) | Expr::Char(_) => {},
        Expr::Try(inner) => lemma_atom(lw, *inner, sc, st, tt),
        Expr::Var(name) => lemma_var(lw, name@, sc, st, tt),
        Expr::Struct { path, fields } => if emit::is_collection(lw, text::strings_view(path@)) {
            lemma_collection(lw, path@[0]@, fields@, sc, st, tt);
        } else {
            lemma_node(lw, e, sc, st, tt);
        },
        _ => lemma_node(lw, e, sc, st, tt),
    }
}

proof fn lemma_tail(lw: LowererView, e: Expr, sc: ScopeView, st: St, tt: St)
    requires
        same_st(st, tt),
    ensures
        even(emit::tail_s(lw, e, sc, st), emit::tail_s(lw, e, sc, tt)),
    decreases e, 4nat, 0nat,
{
    match e {
        Expr::Unit | Expr::Int(_) | Expr::Bool(_) | Expr::Str(_) | Expr::Char(_) | Expr::Var(
            _,
        ) => lemma_atom(lw, e, sc, st, tt),
        Expr::Try(inner) => lemma_tail(lw, *inner, sc, st, tt),
        Expr::Struct { path, fields } => {
            lemma_atom(lw, e, sc, st, tt);
            lemma_node(lw, e, sc, st, tt);
        },
        _ => lemma_node(lw, e, sc, st, tt),
    }
}

proof fn lemma_node(lw: LowererView, e: Expr, sc: ScopeView, st: St, tt: St)
    requires
        same_st(st, tt),
    ensures
        even(emit::node_s(lw, e, sc, st), emit::node_s(lw, e, sc, tt)),
    decreases e, 2nat, 0nat,
{
    match e {
        Expr::Cast(inner, ty) => lemma_atom(lw, *inner, sc, st, tt),
        Expr::Binary(l, op, r) => {
            lemma_atom(lw, *l, sc, st, tt);
            match (emit::atom_s(lw, *l, sc, st), emit::atom_s(lw, *l, sc, tt)) {
                (Ok((_, st1)), Ok((_, tt1))) => lemma_atom(lw, *r, sc, st1, tt1),
                _ => {},
            }
        },
        Expr::Unary(op, operand) => lemma_atom(lw, *operand, sc, st, tt),
        Expr::Index(base, index) => {
            lemma_atom(lw, *base, sc, st, tt);
            match (emit::atom_s(lw, *base, sc, st), emit::atom_s(lw, *base, sc, tt)) {
                (Ok((_, st1)), Ok((_, tt1))) => lemma_atom(lw, *index, sc, st1, tt1),
                _ => {},
            }
        },
        Expr::Field(_, _) => lemma_field(lw, e, sc, st, tt),
        Expr::Struct { path, fields } => lemma_struct(
            lw,
            text::strings_view(path@),
            fields@,
            sc,
            st,
            tt,
        ),
        Expr::Array(items) => lemma_atoms(lw, items@, items@.len(), sc, st, tt),
        Expr::Call(callee, args) => lemma_call(lw, e, sc, st, tt),
        _ => {},
    }
}

proof fn lemma_field(lw: LowererView, e: Expr, sc: ScopeView, st: St, tt: St)
    requires
        same_st(st, tt),
    ensures
        even(emit::field_s(lw, e, sc, st), emit::field_s(lw, e, sc, tt)),
    decreases e, 1nat, 0nat,
{
    match e {
        Expr::Field(base, field) => lemma_atom(lw, *base, sc, st, tt),
        _ => {},
    }
}

proof fn lemma_atoms(lw: LowererView, v: Seq<Expr>, n: nat, sc: ScopeView, st: St, tt: St)
    requires
        same_st(st, tt),
    ensures
        even(emit::atoms_s(lw, v, n, sc, st), emit::atoms_s(lw, v, n, sc, tt)),
    decreases v, 0nat, n,
{
    if n > 0 && n <= v.len() {
        let k = (n - 1) as nat;
        lemma_atoms(lw, v, k, sc, st, tt);
        match (emit::atoms_s(lw, v, k, sc, st), emit::atoms_s(lw, v, k, sc, tt)) {
            (Ok((_, st1)), Ok((_, tt1))) => lemma_atom(lw, v[n - 1], sc, st1, tt1),
            _ => {},
        }
    }
}

proof fn lemma_struct(
    lw: LowererView,
    path: Seq<Seq<char>>,
    inits: Seq<FieldInit>,
    sc: ScopeView,
    st: St,
    tt: St,
)
    requires
        same_st(st, tt),
    ensures
        even(emit::struct_s(lw, path, inits, sc, st), emit::struct_s(lw, path, inits, sc, tt)),
    decreases inits, 1nat, 0nat,
{
    let name = text::join_view(path, "."@);
    if let Some(d) = decls::struct_named(lw.m, name) {
        lemma_inits(lw, name, d.fields@, d.fields@.len(), inits, sc, st, tt);
    }
}

proof fn lemma_inits(
    lw: LowererView,
    name: Seq<char>,
    f: Seq<Field>,
    n: nat,
    inits: Seq<FieldInit>,
    sc: ScopeView,
    st: St,
    tt: St,
)
    requires
        same_st(st, tt),
    ensures
        even(
            emit::inits_s(lw, name, f, n, inits, sc, st),
            emit::inits_s(lw, name, f, n, inits, sc, tt),
        ),
    decreases inits, 0nat, n,
{
    if n > 0 && n <= f.len() {
        let k = (n - 1) as nat;
        lemma_inits(lw, name, f, k, inits, sc, st, tt);
        match (
            emit::inits_s(lw, name, f, k, inits, sc, st),
            emit::inits_s(lw, name, f, k, inits, sc, tt),
            emit::init_index(inits, f[n - 1].name@),
        ) {
            (Ok((_, st1)), Ok((_, tt1)), Some(i)) => if 0 <= i < inits.len() {
                lemma_atom(lw, inits[i].value, sc, st1, tt1);
            },
            _ => {},
        }
    }
}

proof fn lemma_call(lw: LowererView, e: Expr, sc: ScopeView, st: St, tt: St)
    requires
        same_st(st, tt),
    ensures
        even(emit::call_s(lw, e, sc, st), emit::call_s(lw, e, sc, tt)),
    decreases e, 1nat, 0nat,
{
    match e {
        Expr::Call(callee, args) => {
            if emit::is_len(*callee, args@, sc) {
                lemma_atom(lw, args@[0], sc, st, tt);
            } else {
                lemma_atoms(lw, args@, args@.len(), sc, st, tt);
                match *callee {
                    Expr::Field(recv, method) => {
                        lemma_atom(lw, *recv, sc, st, tt);
                        match (
                            emit::method_ref(lw, sc, method@),
                            emit::atom_s(lw, *recv, sc, st),
                            emit::atom_s(lw, *recv, sc, tt),
                        ) {
                            (Ok(func), Ok((r, st1)), Ok((_, tt1))) => {
                                let first = CoreView::App { func, arg: r };
                                let (x, st2) = scope::push_s(st1, first);
                                let (_, tt2) = scope::push_s(tt1, first);
                                lemma_apply(lw, args@, args@.len(), x, sc, st2, tt2);
                            },
                            _ => {},
                        }
                    },
                    _ => {
                        lemma_callee(lw, e, sc, st, tt);
                        match (emit::callee_s(lw, e, sc, st), emit::callee_s(lw, e, sc, tt)) {
                            (Ok((func, st1)), Ok((_, tt1))) => lemma_apply(
                                lw,
                                args@,
                                args@.len(),
                                func,
                                sc,
                                st1,
                                tt1,
                            ),
                            _ => {},
                        }
                    },
                }
            }
        },
        _ => {},
    }
}

proof fn lemma_callee(lw: LowererView, e: Expr, sc: ScopeView, st: St, tt: St)
    requires
        same_st(st, tt),
    ensures
        even(emit::callee_s(lw, e, sc, st), emit::callee_s(lw, e, sc, tt)),
    decreases e, 0nat, 0nat,
{
    match e {
        Expr::Call(callee, args) => {
            lemma_atom(lw, *callee, sc, st, tt);
            if let Some(name) = emit::free_name(*callee, sc) {
                lemma_calls(lw, name, args@, STypeView::Unit, sc, st.pend, tt.pend);
            }
        },
        _ => {},
    }
}

proof fn lemma_apply(
    lw: LowererView,
    args: Seq<Expr>,
    n: nat,
    func: AtomView,
    sc: ScopeView,
    st: St,
    tt: St,
)
    requires
        same_st(st, tt),
    ensures
        even(emit::apply_s(lw, args, n, func, sc, st), emit::apply_s(lw, args, n, func, sc, tt)),
    decreases args, 0nat, 2 * n,
{
    if n > 0 && n <= args.len() {
        let k = (n - 1) as nat;
        lemma_applied(lw, args, k, func, sc, st, tt);
        match (emit::applied_s(lw, args, k, func, sc, st), emit::applied_s(lw, args, k, func, sc, tt)) {
            (Ok((_, st1)), Ok((_, tt1))) => lemma_atom(lw, args[n - 1], sc, st1, tt1),
            _ => {},
        }
    }
}

proof fn lemma_applied(
    lw: LowererView,
    args: Seq<Expr>,
    n: nat,
    func: AtomView,
    sc: ScopeView,
    st: St,
    tt: St,
)
    requires
        same_st(st, tt),
    ensures
        even(
            emit::applied_s(lw, args, n, func, sc, st),
            emit::applied_s(lw, args, n, func, sc, tt),
        ),
    decreases args, 0nat, 2 * n + 1,
{
    if n > 0 {
        lemma_apply(lw, args, n, func, sc, st, tt);
    }
}

proof fn lemma_collection(
    lw: LowererView,
    kind: Seq<char>,
    inits: Seq<FieldInit>,
    sc: ScopeView,
    st: St,
    tt: St,
)
    requires
        same_st(st, tt),
    ensures
        even(
            emit::collection_s(lw, kind, inits, sc, st),
            emit::collection_s(lw, kind, inits, sc, tt),
        ),
    decreases inits, 2nat, 0nat,
{
    if let Some(ai) = emit::init_index(inits, "alloc"@) {
        match (emit::array_part(inits, "keys"@), emit::array_part(inits, "values"@)) {
            (Some(ki), Some(vi)) => lemma_map(lw, inits, ai, ki, vi, sc, st, tt),
            _ => {},
        }
        if let Some(ii) = emit::array_part(inits, "items"@) {
            lemma_set(lw, inits, ai, ii, sc, st, tt);
            lemma_list(lw, inits, ai, ii, sc, st, tt);
        }
    }
}

proof fn lemma_list(
    lw: LowererView,
    inits: Seq<FieldInit>,
    ai: int,
    ii: int,
    sc: ScopeView,
    st: St,
    tt: St,
)
    requires
        same_st(st, tt),
    ensures
        even(emit::list_s(lw, inits, ai, ii, sc, st), emit::list_s(lw, inits, ai, ii, sc, tt)),
    decreases inits, 1nat, 0nat,
{
    if 0 <= ai < inits.len() && 0 <= ii < inits.len() {
        match inits[ii].value {
            Expr::Array(items) => {
                let first = inits[ai].value;
                lemma_atom(lw, first, sc, st, tt);
                match (emit::atom_s(lw, first, sc, st), emit::atom_s(lw, first, sc, tt)) {
                    (Ok((alloc, st1)), Ok((_, tt1))) => {
                        let new = CoreView::ListNew {
                            elem: emit::elem_view(lw, items@, sc),
                            alloc,
                            capacity: emit::count_atom(items@.len()),
                        };
                        let (list, st2) = scope::push_s(st1, new);
                        let (_, tt2) = scope::push_s(tt1, new);
                        lemma_pushes(lw, items@, items@.len(), alloc, list, sc, st2, tt2);
                    },
                    _ => {},
                }
            },
            _ => {},
        }
    }
}

proof fn lemma_pushes(
    lw: LowererView,
    items: Seq<Expr>,
    n: nat,
    alloc: AtomView,
    list: AtomView,
    sc: ScopeView,
    st: St,
    tt: St,
)
    requires
        same_st(st, tt),
    ensures
        even(
            emit::pushes_s(lw, items, n, alloc, list, sc, st),
            emit::pushes_s(lw, items, n, alloc, list, sc, tt),
        ),
    decreases items, 0nat, n,
{
    if n > 0 && n <= items.len() {
        let k = (n - 1) as nat;
        lemma_pushes(lw, items, k, alloc, list, sc, st, tt);
        match (
            emit::pushes_s(lw, items, k, alloc, list, sc, st),
            emit::pushes_s(lw, items, k, alloc, list, sc, tt),
        ) {
            (Ok((_, st1)), Ok((_, tt1))) => lemma_atom(lw, items[n - 1], sc, st1, tt1),
            _ => {},
        }
    }
}

proof fn lemma_set(
    lw: LowererView,
    inits: Seq<FieldInit>,
    ai: int,
    ii: int,
    sc: ScopeView,
    st: St,
    tt: St,
)
    requires
        same_st(st, tt),
    ensures
        even(emit::set_s(lw, inits, ai, ii, sc, st), emit::set_s(lw, inits, ai, ii, sc, tt)),
    decreases inits, 1nat, 0nat,
{
    if 0 <= ai < inits.len() && 0 <= ii < inits.len() {
        match inits[ii].value {
            Expr::Array(items) => {
                let first = inits[ai].value;
                lemma_atom(lw, first, sc, st, tt);
                match (emit::atom_s(lw, first, sc, st), emit::atom_s(lw, first, sc, tt)) {
                    (Ok((alloc, st1)), Ok((_, tt1))) => {
                        let name = "std.collections.set_with_capacity"@;
                        let n = emit::count_atom(items@.len());
                        let (set, st2) = emit::call2_s(name, alloc, n, st1);
                        let (_, tt2) = emit::call2_s(name, alloc, n, tt1);
                        lemma_inserts(lw, items@, items@.len(), alloc, set, sc, st2, tt2);
                    },
                    _ => {},
                }
            },
            _ => {},
        }
    }
}

proof fn lemma_inserts(
    lw: LowererView,
    items: Seq<Expr>,
    n: nat,
    alloc: AtomView,
    set: AtomView,
    sc: ScopeView,
    st: St,
    tt: St,
)
    requires
        same_st(st, tt),
    ensures
        even(
            emit::inserts_s(lw, items, n, alloc, set, sc, st),
            emit::inserts_s(lw, items, n, alloc, set, sc, tt),
        ),
    decreases items, 0nat, n,
{
    if n > 0 && n <= items.len() {
        let k = (n - 1) as nat;
        lemma_inserts(lw, items, k, alloc, set, sc, st, tt);
        match (
            emit::inserts_s(lw, items, k, alloc, set, sc, st),
            emit::inserts_s(lw, items, k, alloc, set, sc, tt),
        ) {
            (Ok((_, st1)), Ok((_, tt1))) => lemma_atom(lw, items[n - 1], sc, st1, tt1),
            _ => {},
        }
    }
}

proof fn lemma_map(
    lw: LowererView,
    inits: Seq<FieldInit>,
    ai: int,
    ki: int,
    vi: int,
    sc: ScopeView,
    st: St,
    tt: St,
)
    requires
        same_st(st, tt),
    ensures
        even(
            emit::map_s(lw, inits, ai, ki, vi, sc, st),
            emit::map_s(lw, inits, ai, ki, vi, sc, tt),
        ),
    decreases inits, 1nat, 0nat,
{
    let keys = emit::part(inits, ki);
    let values = emit::part(inits, vi);
    if 0 <= ai < inits.len() {
        let first = inits[ai].value;
        lemma_atom(lw, first, sc, st, tt);
        match (emit::atom_s(lw, first, sc, st), emit::atom_s(lw, first, sc, tt)) {
            (Ok((alloc, st1)), Ok((_, tt1))) => {
                let new = CoreView::ListNew {
                    elem: TypeView::Nominal {
                        def: hash::symbol_id("std.collections.Entry"@),
                        args: seq![emit::elem_view(lw, keys, sc), emit::elem_view(lw, values, sc)],
                    },
                    alloc,
                    capacity: emit::count_atom(keys.len()),
                };
                let (list, st2) = scope::push_s(st1, new);
                let (_, tt2) = scope::push_s(tt1, new);
                lemma_entries(lw, inits, ki, vi, keys.len(), alloc, list, sc, st2, tt2);
            },
            _ => {},
        }
    }
}

proof fn lemma_entries(
    lw: LowererView,
    inits: Seq<FieldInit>,
    ki: int,
    vi: int,
    n: nat,
    alloc: AtomView,
    list: AtomView,
    sc: ScopeView,
    st: St,
    tt: St,
)
    requires
        same_st(st, tt),
    ensures
        even(
            emit::entries_s(lw, inits, ki, vi, n, alloc, list, sc, st),
            emit::entries_s(lw, inits, ki, vi, n, alloc, list, sc, tt),
        ),
    decreases inits, 0nat, n,
{
    let keys = emit::part(inits, ki);
    let values = emit::part(inits, vi);
    if n > 0 && n <= keys.len() && n <= values.len() && 0 <= ki < inits.len() && 0 <= vi
        < inits.len() {
        let k = (n - 1) as nat;
        lemma_entries(lw, inits, ki, vi, k, alloc, list, sc, st, tt);
        match (
            emit::entries_s(lw, inits, ki, vi, k, alloc, list, sc, st),
            emit::entries_s(lw, inits, ki, vi, k, alloc, list, sc, tt),
        ) {
            (Ok((_, st1)), Ok((_, tt1))) => {
                let key = keys[n - 1];
                lemma_atom(lw, key, sc, st1, tt1);
                match (emit::atom_s(lw, key, sc, st1), emit::atom_s(lw, key, sc, tt1)) {
                    (Ok((_, st2)), Ok((_, tt2))) => lemma_atom(lw, values[n - 1], sc, st2, tt2),
                    _ => {},
                }
            },
            _ => {},
        }
    }
}

// ---- assignments ------------------------------------------------------------------------------------

proof fn lemma_target(lw: LowererView, lv: LValue, sc: ScopeView, st: St, tt: St)
    requires
        same_st(st, tt),
    ensures
        even(assign::target_s(lw, lv, sc, st), assign::target_s(lw, lv, sc, tt)),
    decreases lv,
{
    match lv {
        LValue::Var(name) => lemma_var(lw, name@, sc, st, tt),
        LValue::Field(base, field) => lemma_target(lw, *base, sc, st, tt),
        LValue::Index(base, index) => {
            lemma_target(lw, *base, sc, st, tt);
            match (assign::target_s(lw, *base, sc, st), assign::target_s(lw, *base, sc, tt)) {
                (Ok((_, st1)), Ok((_, tt1))) => lemma_atom(lw, *index, sc, st1, tt1),
                _ => {},
            }
        },
    }
}

proof fn lemma_rebuilt(base: AtomView, at: int, new: AtomView, n: nat, st: St, tt: St)
    requires
        same_st(st, tt),
    ensures
        assign::rebuilt_s(base, at, new, n, st).0 == assign::rebuilt_s(base, at, new, n, tt).0,
        same_st(
            assign::rebuilt_s(base, at, new, n, st).1,
            assign::rebuilt_s(base, at, new, n, tt).1,
        ),
    decreases n,
{
    if n > 0 {
        lemma_rebuilt(base, at, new, (n - 1) as nat, st, tt);
    }
}

proof fn lemma_stored(base: AtomView, index: AtomView, new: AtomView, n: nat, st: St, tt: St)
    requires
        same_st(st, tt),
    ensures
        assign::stored_s(base, index, new, n, st).0 == assign::stored_s(base, index, new, n, tt).0,
        same_st(
            assign::stored_s(base, index, new, n, st).1,
            assign::stored_s(base, index, new, n, tt).1,
        ),
    decreases n,
{
    if n > 0 {
        lemma_stored(base, index, new, (n - 1) as nat, st, tt);
    }
}

proof fn lemma_element(
    lw: LowererView,
    t: STypeView,
    base: AtomView,
    index: AtomView,
    new: AtomView,
    st: St,
    tt: St,
)
    requires
        same_st(st, tt),
    ensures
        match (
            assign::element_s(lw, t, base, index, new, st),
            assign::element_s(lw, t, base, index, new, tt),
        ) {
            (Some((x, s)), Some((y, u))) => x == y && same_st(s, u),
            (None, None) => true,
            _ => false,
        },
{
    match t {
        STypeView::Array { len, elem } => {
            let read = CoreView::Prim { op: PrimOp::Index, args: seq![base, index] };
            lemma_stored(
                base,
                index,
                new,
                len as nat,
                scope::push_s(st, read).1,
                scope::push_s(tt, read).1,
            );
        },
        _ => {},
    }
}

proof fn lemma_assign(lw: LowererView, lv: LValue, new: AtomView, sc: ScopeView, st: St, tt: St)
    requires
        same_st(st, tt),
    ensures
        even(assign::assign_s(lw, lv, new, sc, st), assign::assign_s(lw, lv, new, sc, tt)),
    decreases lv,
{
    match lv {
        LValue::Var(_) => {},
        LValue::Field(base, field) => {
            lemma_target(lw, *base, sc, st, tt);
            match (
                resolve::projection(lw, assign::target_type(lw, *base, sc), field@),
                assign::target_s(lw, *base, sc, st),
                assign::target_s(lw, *base, sc, tt),
            ) {
                (Ok((s, at)), Ok((a, st1)), Ok((_, tt1))) => {
                    let n = match decls::struct_named(lw.m, s) {
                        Some(d) => d.fields@.len(),
                        None => 0,
                    };
                    lemma_rebuilt(a, at, new, n, st1, tt1);
                    let (fields, st2) = assign::rebuilt_s(a, at, new, n, st1);
                    let (_, tt2) = assign::rebuilt_s(a, at, new, n, tt1);
                    let c = CoreView::Ctor {
                        ty: hash::symbol_id(resolve::struct_qual(lw, s)),
                        tag: 0,
                        fields,
                    };
                    let (whole, st3) = scope::push_s(st2, c);
                    let (_, tt3) = scope::push_s(tt2, c);
                    lemma_assign(lw, *base, whole, sc, st3, tt3);
                },
                _ => {},
            }
        },
        LValue::Index(base, index) => {
            lemma_target(lw, *base, sc, st, tt);
            match (
                assign::peeled(assign::target_type(lw, *base, sc)),
                assign::target_s(lw, *base, sc, st),
                assign::target_s(lw, *base, sc, tt),
            ) {
                (Some(t), Ok((a, st1)), Ok((_, tt1))) => {
                    lemma_atom(lw, *index, sc, st1, tt1);
                    match (emit::atom_s(lw, *index, sc, st1), emit::atom_s(lw, *index, sc, tt1)) {
                        (Ok((i, st2)), Ok((_, tt2))) => {
                            lemma_element(lw, t, a, i, new, st2, tt2);
                            match (
                                assign::element_s(lw, t, a, i, new, st2),
                                assign::element_s(lw, t, a, i, new, tt2),
                            ) {
                                (Some((whole, st3)), Some((_, tt3))) => lemma_assign(
                                    lw,
                                    *base,
                                    whole,
                                    sc,
                                    st3,
                                    tt3,
                                ),
                                _ => {},
                            }
                        },
                        _ => {},
                    }
                },
                _ => {},
            }
        },
    }
}

// ---- loops ----------------------------------------------------------------------------------------------

proof fn lemma_yield(lw: LowererView, e: Expr, goal: GoalView, sc: ScopeView, st: St, tt: St)
    requires
        same_st(st, tt),
    ensures
        even(blocks::yield_s(lw, e, goal, sc, st), blocks::yield_s(lw, e, goal, sc, tt)),
        even(
            blocks::return_s(lw, Some(e), goal, sc, st),
            blocks::return_s(lw, Some(e), goal, sc, tt),
        ),
{
    lemma_tail(lw, e, sc, st, tt);
    lemma_atom(lw, e, sc, st, tt);
}

proof fn lemma_protocol(
    lw: LowererView,
    name: Seq<char>,
    iter: Expr,
    sc: ScopeView,
    p: PendView,
    q: PendView,
)
    ensures
        even_call(
            blocks::protocol(lw, name, iter, sc, p),
            blocks::protocol(lw, name, iter, sc, q),
        ),
{
    if let Some(t) = resolve::expr_type(lw, iter, sc) {
        if let Some(e) = resolve::iterated(lw, t) {
            lemma_calls(lw, name, Seq::empty(), e, sc, p, q);
        }
    }
}

proof fn lemma_length(lw: LowererView, iter: Expr, sc: ScopeView, st: St, tt: St)
    requires
        same_st(st, tt),
    ensures
        even(blocks::length_s(lw, iter, sc, st), blocks::length_s(lw, iter, sc, tt)),
{
    lemma_protocol(lw, "iter_len"@, iter, sc, st.pend, tt.pend);
    lemma_atom(lw, iter, sc, st, tt);
    match (
        blocks::protocol(lw, "iter_len"@, iter, sc, st.pend),
        blocks::protocol(lw, "iter_len"@, iter, sc, tt.pend),
    ) {
        (Some((_, p)), Some((_, q))) => lemma_atom(
            lw,
            iter,
            sc,
            St { pend: p, ..st },
            St { pend: q, ..tt },
        ),
        _ => {},
    }
}

proof fn lemma_below(lw: LowererView, iter: Expr, index: Seq<char>, sc: ScopeView, st: St, tt: St)
    requires
        same_st(st, tt),
    ensures
        even(blocks::below_s(lw, iter, index, sc, st), blocks::below_s(lw, iter, index, sc, tt)),
{
    lemma_var(lw, index, sc, st, tt);
    match (emit::var_s(lw, index, sc, st), emit::var_s(lw, index, sc, tt)) {
        (Ok((_, st1)), Ok((_, tt1))) => lemma_length(lw, iter, sc, st1, tt1),
        _ => {},
    }
}

proof fn lemma_item(
    lw: LowererView,
    binder: Seq<char>,
    iter: Expr,
    index: Seq<char>,
    sc: ScopeView,
    st: St,
    tt: St,
)
    requires
        same_st(st, tt),
    ensures
        even(
            blocks::item_s(lw, binder, iter, index, sc, st),
            blocks::item_s(lw, binder, iter, index, sc, tt),
        ),
{
    lemma_protocol(lw, "iter_get"@, iter, sc, st.pend, tt.pend);
    match (
        blocks::protocol(lw, "iter_get"@, iter, sc, st.pend),
        blocks::protocol(lw, "iter_get"@, iter, sc, tt.pend),
    ) {
        (Some((func, p)), Some((_, q))) => {
            let st0 = St { pend: p, ..st };
            let tt0 = St { pend: q, ..tt };
            lemma_atom(lw, iter, sc, st0, tt0);
            match (emit::atom_s(lw, iter, sc, st0), emit::atom_s(lw, iter, sc, tt0)) {
                (Ok((a, st1)), Ok((_, tt1))) => {
                    let c = CoreView::App { func, arg: a };
                    lemma_var(lw, index, sc, scope::push_s(st1, c).1, scope::push_s(tt1, c).1);
                },
                _ => {},
            }
        },
        _ => {
            lemma_atom(lw, iter, sc, st, tt);
            match (emit::atom_s(lw, iter, sc, st), emit::atom_s(lw, iter, sc, tt)) {
                (Ok((_, st1)), Ok((_, tt1))) => lemma_var(lw, index, sc, st1, tt1),
                _ => {},
            }
        },
    }
}

proof fn lemma_after(sc: ScopeView, v: Seq<CarryView>, n: nat, whole: AtomView, st: St, tt: St)
    requires
        same_st(st, tt),
    ensures
        blocks::after_s(sc, v, n, whole, st).0 == blocks::after_s(sc, v, n, whole, tt).0,
        same_st(blocks::after_s(sc, v, n, whole, st).1, blocks::after_s(sc, v, n, whole, tt).1),
    decreases n,
{
    if n > 0 {
        lemma_after(sc, v, (n - 1) as nat, whole, st, tt);
    }
}

proof fn lemma_loop(
    vars: Seq<BindView>,
    head: Seq<CarryView>,
    inv: Option<PredView>,
    cond: CoreView,
    body: CoreView,
    sc: ScopeView,
    st: St,
    tt: St,
)
    requires
        same_st(st, tt),
    ensures
        blocks::loop_s(vars, head, inv, cond, body, sc, st).0 == blocks::loop_s(
            vars,
            head,
            inv,
            cond,
            body,
            sc,
            tt,
        ).0,
        same_st(
            blocks::loop_s(vars, head, inv, cond, body, sc, st).1,
            blocks::loop_s(vars, head, inv, cond, body, sc, tt).1,
        ),
{
    let c = CoreView::Loop {
        state: blocks::atoms_of(vars),
        inv,
        cond: Box::new(cond),
        body: Box::new(body),
    };
    let (whole, st1) = scope::push_s(st, c);
    let (_, tt1) = scope::push_s(tt, c);
    lemma_after(sc, head, head.len(), whole, st1, tt1);
}

// ---- blocks ---------------------------------------------------------------------------------------------

/// A block is lowered to the same term whatever was asked for.
pub proof fn lemma_block(
    lw: LowererView,
    b: Block,
    goal: GoalView,
    sc: ScopeView,
    base: u32,
    p: PendView,
    q: PendView,
)
    ensures
        even_code(
            blocks::block_s(lw, b, goal, sc, base, p),
            blocks::block_s(lw, b, goal, sc, base, q),
        ),
    decreases b, 1nat, 0nat,
{
    let st = scope::open_s(base, p);
    let tt = scope::open_s(base, q);
    let n = b.stmts@.len();
    lemma_stmts(lw, b.stmts@, n, sc, st, tt);
    match (blocks::stmts_s(lw, b.stmts@, n, sc, st), blocks::stmts_s(lw, b.stmts@, n, sc, tt)) {
        (Ok((sc1, st1)), Ok((_, tt1))) => lemma_end(lw, b, goal, sc1, st1, tt1),
        _ => {},
    }
}

proof fn lemma_stmts(lw: LowererView, v: Seq<Stmt>, n: nat, sc: ScopeView, st: St, tt: St)
    requires
        same_st(st, tt),
    ensures
        even(blocks::stmts_s(lw, v, n, sc, st), blocks::stmts_s(lw, v, n, sc, tt)),
    decreases v, 0nat, n,
{
    if n > 0 && n <= v.len() {
        let k = (n - 1) as nat;
        lemma_stmts(lw, v, k, sc, st, tt);
        match (blocks::stmts_s(lw, v, k, sc, st), blocks::stmts_s(lw, v, k, sc, tt)) {
            (Ok((sc1, st1)), Ok((_, tt1))) => lemma_stmt(lw, v[n - 1], sc1, st1, tt1),
            _ => {},
        }
    }
}

proof fn lemma_stmt(lw: LowererView, s: Stmt, sc: ScopeView, st: St, tt: St)
    requires
        same_st(st, tt),
    ensures
        even(blocks::stmt_s(lw, s, sc, st), blocks::stmt_s(lw, s, sc, tt)),
    decreases s, 1nat, 0nat,
{
    match s {
        Stmt::Let { name, ty, value } => lemma_atom(lw, value, sc, st, tt),
        Stmt::Var { name, ty, value } => lemma_atom(lw, value, sc, st, tt),
        Stmt::Assign { target, value } => {
            lemma_atom(lw, value, sc, st, tt);
            match (emit::atom_s(lw, value, sc, st), emit::atom_s(lw, value, sc, tt)) {
                (Ok((a, st1)), Ok((_, tt1))) => lemma_assign(lw, target, a, sc, st1, tt1),
                _ => {},
            }
        },
        Stmt::While { cond, invariants, body } => lemma_while(lw, s, sc, st, tt),
        Stmt::For { binder, iter, body } => lemma_for(lw, s, sc, st, tt),
    }
}

proof fn lemma_while(lw: LowererView, s: Stmt, sc: ScopeView, st: St, tt: St)
    requires
        same_st(st, tt),
    ensures
        even(blocks::while_s(lw, s, sc, st), blocks::while_s(lw, s, sc, tt)),
    decreases s, 0nat, 0nat,
{
    match s {
        Stmt::While { cond, invariants, body } => {
            let vars = blocks::carried(sc, blocks::while_assigns(body), sc.binds.len());
            let head = blocks::header(vars, scope::depth_s(st));
            let inner = blocks::inside(sc, head, head.len());
            let base = indices::add32(scope::depth_s(st), (vars.len() as usize) as u32);
            let st0 = scope::open_s(base, st.pend);
            let tt0 = scope::open_s(base, tt.pend);
            let goal = GoalView::Next(head);
            lemma_tail(lw, cond, inner, st0, tt0);
            match (
                blocks::closed_s(emit::tail_s(lw, cond, inner, st0)),
                blocks::closed_s(emit::tail_s(lw, cond, inner, tt0)),
                contract::invariant_s(invariants@, invariants@.len(), inner),
            ) {
                (Ok((c, p1)), Ok((_, q1)), Ok(inv)) => {
                    lemma_block(lw, body, goal, inner, base, p1, q1);
                    match (
                        blocks::block_s(lw, body, goal, inner, base, p1),
                        blocks::block_s(lw, body, goal, inner, base, q1),
                    ) {
                        (Ok((k, p2)), Ok((_, q2))) => lemma_loop(
                            vars,
                            head,
                            inv,
                            c,
                            k,
                            sc,
                            St { pend: p2, ..st },
                            St { pend: q2, ..tt },
                        ),
                        _ => {},
                    }
                },
                _ => {},
            }
        },
        _ => {},
    }
}

proof fn lemma_for_body(
    lw: LowererView,
    binder: Seq<char>,
    iter: Expr,
    body: Block,
    index: Seq<char>,
    goal: GoalView,
    sc: ScopeView,
    base: u32,
    p: PendView,
    q: PendView,
)
    ensures
        even_code(
            blocks::for_body_s(lw, binder, iter, body, index, goal, sc, base, p),
            blocks::for_body_s(lw, binder, iter, body, index, goal, sc, base, q),
        ),
    decreases body, 1nat, 0nat,
{
    let st = scope::open_s(base, p);
    let tt = scope::open_s(base, q);
    let n = body.stmts@.len();
    lemma_item(lw, binder, iter, index, sc, st, tt);
    match (
        blocks::item_s(lw, binder, iter, index, sc, st),
        blocks::item_s(lw, binder, iter, index, sc, tt),
    ) {
        (Ok((sc1, st1)), Ok((_, tt1))) => {
            lemma_stmts(lw, body.stmts@, n, sc1, st1, tt1);
            match (
                blocks::stmts_s(lw, body.stmts@, n, sc1, st1),
                blocks::stmts_s(lw, body.stmts@, n, sc1, tt1),
            ) {
                (Ok((sc2, st2)), Ok((_, tt2))) => {
                    lemma_var(lw, index, sc2, st2, tt2);
                    match (
                        blocks::advance_s(lw, index, sc2, st2),
                        blocks::advance_s(lw, index, sc2, tt2),
                    ) {
                        (Ok((sc3, st3)), Ok((_, tt3))) => lemma_end(lw, body, goal, sc3, st3, tt3),
                        _ => {},
                    }
                },
                _ => {},
            }
        },
        _ => {},
    }
}

proof fn lemma_for(lw: LowererView, s: Stmt, sc0: ScopeView, st: St, tt: St)
    requires
        same_st(st, tt),
    ensures
        even(blocks::for_s(lw, s, sc0, st), blocks::for_s(lw, s, sc0, tt)),
    decreases s, 0nat, 0nat,
{
    match s {
        Stmt::For { binder, iter, body } => {
            let index = blocks::index_name(scope::depth_s(st));
            let sc = scope::bind(sc0, blocks::index_bind(sc0, scope::depth_s(st)));
            let vars = blocks::carried(
                sc,
                blocks::for_assigns(binder@, index, body),
                sc.binds.len(),
            );
            let head = blocks::header(vars, scope::depth_s(st));
            let inner = blocks::inside(sc, head, head.len());
            let base = indices::add32(scope::depth_s(st), (vars.len() as usize) as u32);
            let st0 = scope::open_s(base, st.pend);
            let tt0 = scope::open_s(base, tt.pend);
            let goal = GoalView::Next(head);
            lemma_below(lw, iter, index, inner, st0, tt0);
            match (
                blocks::closed_s(blocks::below_s(lw, iter, index, inner, st0)),
                blocks::closed_s(blocks::below_s(lw, iter, index, inner, tt0)),
            ) {
                (Ok((c, p1)), Ok((_, q1))) => {
                    lemma_for_body(lw, binder@, iter, body, index, goal, inner, base, p1, q1);
                    match (
                        blocks::for_body_s(lw, binder@, iter, body, index, goal, inner, base, p1),
                        blocks::for_body_s(lw, binder@, iter, body, index, goal, inner, base, q1),
                    ) {
                        (Ok((k, p2)), Ok((_, q2))) => lemma_loop(
                            vars,
                            head,
                            None,
                            c,
                            k,
                            sc,
                            St { pend: p2, ..st },
                            St { pend: q2, ..tt },
                        ),
                        _ => {},
                    }
                },
                _ => {},
            }
        },
        _ => {},
    }
}

proof fn lemma_end(lw: LowererView, b: Block, goal: GoalView, sc: ScopeView, st: St, tt: St)
    requires
        same_st(st, tt),
    ensures
        even(blocks::end_s(lw, b, goal, sc, st), blocks::end_s(lw, b, goal, sc, tt)),
    decreases b, 0nat, 0nat,
{
    match b.tail {
        None => {},
        Some(Tail::Expr(e)) => lemma_yield(lw, e, goal, sc, st, tt),
        Some(Tail::Return(o)) => match o {
            Some(e) => lemma_yield(lw, e, goal, sc, st, tt),
            None => {},
        },
        Some(Tail::If(i)) => lemma_if(lw, *i, goal, sc, st, tt),
        Some(Tail::Match(m)) => lemma_match(lw, *m, goal, sc, st, tt),
    }
}

proof fn lemma_if(lw: LowererView, i: IfExpr, goal: GoalView, sc: ScopeView, st: St, tt: St)
    requires
        same_st(st, tt),
    ensures
        even(blocks::if_s(lw, i, goal, sc, st), blocks::if_s(lw, i, goal, sc, tt)),
    decreases i, 1nat, 0nat,
{
    lemma_atom(lw, i.cond, sc, st, tt);
    match (emit::atom_s(lw, i.cond, sc, st), emit::atom_s(lw, i.cond, sc, tt)) {
        (Ok((_, st1)), Ok((_, tt1))) => {
            let base = scope::depth_s(st1);
            lemma_block(lw, i.yes, goal, sc, base, st1.pend, tt1.pend);
            match (
                blocks::block_s(lw, i.yes, goal, sc, base, st1.pend),
                blocks::block_s(lw, i.yes, goal, sc, base, tt1.pend),
            ) {
                (Ok((_, p2)), Ok((_, q2))) => lemma_else(lw, i, goal, sc, base, p2, q2),
                _ => {},
            }
        },
        _ => {},
    }
}

proof fn lemma_else(
    lw: LowererView,
    i: IfExpr,
    goal: GoalView,
    sc: ScopeView,
    base: u32,
    p: PendView,
    q: PendView,
)
    ensures
        even_code(
            blocks::else_s(lw, i, goal, sc, base, p),
            blocks::else_s(lw, i, goal, sc, base, q),
        ),
    decreases i, 0nat, 0nat,
{
    match i.no {
        None => {},
        Some(Else::Block(b)) => lemma_block(lw, b, goal, sc, base, p, q),
        Some(Else::If(inner)) => lemma_if(
            lw,
            *inner,
            goal,
            sc,
            scope::open_s(base, p),
            scope::open_s(base, q),
        ),
    }
}

/// The body of an arm is lowered to the same term whatever was asked for.
pub proof fn lemma_arm_body(
    lw: LowererView,
    a: Arm,
    goal: GoalView,
    sc: ScopeView,
    base: u32,
    p: PendView,
    q: PendView,
)
    ensures
        even_code(
            blocks::arm_body_s(lw, a, goal, sc, base, p),
            blocks::arm_body_s(lw, a, goal, sc, base, q),
        ),
    decreases a, 0nat, 0nat,
{
    match a.body {
        ArmBody::Expr(e) => lemma_yield(
            lw,
            e,
            goal,
            sc,
            scope::open_s(base, p),
            scope::open_s(base, q),
        ),
        ArmBody::Block(b) => lemma_block(lw, b, goal, sc, base, p, q),
    }
}

/// An arm fills its slot with the same term whatever was asked for.
pub proof fn lemma_arm(
    lw: LowererView,
    a: Arm,
    qual: Seq<char>,
    goal: GoalView,
    sc: ScopeView,
    base: u32,
    s: SlotsView,
    p: PendView,
    q: PendView,
)
    ensures
        even_code(
            blocks::arm_s(lw, a, qual, goal, sc, base, s, p),
            blocks::arm_s(lw, a, qual, goal, sc, base, s, q),
        ),
    decreases a, 1nat, 0nat,
{
    match a.pat {
        Pattern::Wildcard => lemma_arm_body(lw, a, goal, sc, base, p, q),
        Pattern::Ctor { path, fields } => lemma_arm_body(
            lw,
            a,
            goal,
            blocks::fields_s(fields@, fields@.len(), sc, base),
            indices::add32(base, (fields@.len() as usize) as u32),
            p,
            q,
        ),
    }
}

proof fn lemma_arms(
    lw: LowererView,
    v: Seq<Arm>,
    n: nat,
    qual: Seq<char>,
    goal: GoalView,
    sc: ScopeView,
    base: u32,
    s: SlotsView,
    p: PendView,
    q: PendView,
)
    ensures
        even_code(
            blocks::arms_s(lw, v, n, qual, goal, sc, base, s, p),
            blocks::arms_s(lw, v, n, qual, goal, sc, base, s, q),
        ),
    decreases v, 0nat, n,
{
    if n > 0 && n <= v.len() {
        let k = (n - 1) as nat;
        lemma_arms(lw, v, k, qual, goal, sc, base, s, p, q);
        match (
            blocks::arms_s(lw, v, k, qual, goal, sc, base, s, p),
            blocks::arms_s(lw, v, k, qual, goal, sc, base, s, q),
        ) {
            (Ok((s1, p1)), Ok((_, q1))) => lemma_arm(
                lw,
                v[n - 1],
                qual,
                goal,
                sc,
                base,
                s1,
                p1,
                q1,
            ),
            _ => {},
        }
    }
}

proof fn lemma_match(lw: LowererView, m: MatchExpr, goal: GoalView, sc: ScopeView, st: St, tt: St)
    requires
        same_st(st, tt),
    ensures
        even(blocks::match_s(lw, m, goal, sc, st), blocks::match_s(lw, m, goal, sc, tt)),
    decreases m, 0nat, 0nat,
{
    lemma_atom(lw, m.scrutinee, sc, st, tt);
    match (
        emit::atom_s(lw, m.scrutinee, sc, st),
        emit::atom_s(lw, m.scrutinee, sc, tt),
        blocks::arms_enum(lw, m.arms@, 0),
    ) {
        (Ok((_, st1)), Ok((_, tt1)), Ok(qual)) => lemma_arms(
            lw,
            m.arms@,
            m.arms@.len(),
            qual,
            goal,
            sc,
            scope::depth_s(st1),
            blocks::no_slots(decls::variants_of(lw.ms, qual)),
            st1.pend,
            tt1.pend,
        ),
        _ => {},
    }
}

/// A function is lowered to the same definition whatever instances were asked for
/// before it.
pub proof fn lemma_a_definition_stands_alone(lw: LowererView, f: FnDecl, p: PendView, q: PendView)
    ensures
        even_code(lower::fn_s(lw, f, p), lower::fn_s(lw, f, q)),
{
    if let Some(b) = f.body {
        let n = lower::param_types(lw, f).len();
        lemma_block(
            lw,
            b,
            GoalView::Value,
            lower::param_scope(lw, f, f.params@.len()),
            (n as usize) as u32,
            p,
            q,
        );
    }
}

} // verus!
