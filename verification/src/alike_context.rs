//! Lowering asks of a program its outline only: a function is lowered alike in
//! programs with the same outline.
use vstd::prelude::*;

use crate::assign;
use crate::blocks;
use crate::blocks::{GoalView, SlotsView};
use crate::decls;
use crate::decls::CtorRef;
use crate::emit;
use crate::find;
use crate::hash;
use crate::indices;
use crate::ir::{AtomView, CoreView, TypeView};
use crate::lower;
use crate::outline;
use crate::resolve;
use crate::scope;
use crate::scope::{LowererView, PendView, ScopeView, St};
use crate::syntax::{Arm, ArmBody, Block, Else, Expr, Field, FieldInit, FnDecl, IfExpr, LValue, MatchExpr, Pattern, Stmt, Tail};
use crate::text;

verus! {

// ---- expressions ---------------------------------------------------------------------------------

/// A name is lowered alike.
pub proof fn lemma_var(p: LowererView, q: LowererView, name: Seq<char>, sc: ScopeView, st: St)
    requires
        outline::like(p, q),
    ensures
        emit::var_s(p, name, sc, st) == emit::var_s(q, name, sc, st),
{
    reveal(outline::like);
}

/// An expression is lowered to the same atom.
pub proof fn lemma_atom(p: LowererView, q: LowererView, e: Expr, sc: ScopeView, st: St)
    requires
        outline::like(p, q),
    ensures
        emit::atom_s(p, e, sc, st) == emit::atom_s(q, e, sc, st),
    decreases e, 3nat, 0nat,
{
    reveal(outline::like);
    match e {
        Expr::Unit | Expr::Int(_) | Expr::Bool(_) | Expr::Str(_) | Expr::Char(_) => {},
        Expr::Try(inner) => lemma_atom(p, q, *inner, sc, st),
        Expr::Var(name) => lemma_var(p, q, name@, sc, st),
        Expr::Struct { path, fields } => {
            lemma_collection_kind(p, q, text::strings_view(path@));
            if emit::is_collection(p, text::strings_view(path@)) {
                lemma_collection(p, q, path@[0]@, fields@, sc, st);
            } else {
                lemma_node(p, q, e, sc, st);
            }
        },
        _ => lemma_node(p, q, e, sc, st),
    }
}

proof fn lemma_collection_kind(p: LowererView, q: LowererView, path: Seq<Seq<char>>)
    requires
        outline::like(p, q),
    ensures
        emit::is_collection(p, path) == emit::is_collection(q, path),
{
    reveal(outline::like);
    if path.len() == 1 {
        assert(outline::same_struct(
            decls::struct_named(p.m, path[0]),
            decls::struct_named(q.m, path[0]),
        ));
    }
}

/// An expression in tail position is lowered to the same term.
pub proof fn lemma_tail(p: LowererView, q: LowererView, e: Expr, sc: ScopeView, st: St)
    requires
        outline::like(p, q),
    ensures
        emit::tail_s(p, e, sc, st) == emit::tail_s(q, e, sc, st),
    decreases e, 4nat, 0nat,
{
    match e {
        Expr::Unit | Expr::Int(_) | Expr::Bool(_) | Expr::Str(_) | Expr::Char(_) | Expr::Var(
            _,
        ) => lemma_atom(p, q, e, sc, st),
        Expr::Try(inner) => lemma_tail(p, q, *inner, sc, st),
        Expr::Struct { path, fields } => {
            lemma_collection_kind(p, q, text::strings_view(path@));
            lemma_atom(p, q, e, sc, st);
            lemma_node(p, q, e, sc, st);
        },
        _ => lemma_node(p, q, e, sc, st),
    }
}

proof fn lemma_node(p: LowererView, q: LowererView, e: Expr, sc: ScopeView, st: St)
    requires
        outline::like(p, q),
    ensures
        emit::node_s(p, e, sc, st) == emit::node_s(q, e, sc, st),
    decreases e, 2nat, 0nat,
{
    reveal(outline::like);
    match e {
        Expr::Cast(inner, ty) => lemma_atom(p, q, *inner, sc, st),
        Expr::Binary(l, op, r) => {
            lemma_atom(p, q, *l, sc, st);
            if let Ok((a, st1)) = emit::atom_s(p, *l, sc, st) {
                lemma_atom(p, q, *r, sc, st1);
            }
        },
        Expr::Unary(op, operand) => lemma_atom(p, q, *operand, sc, st),
        Expr::Index(base, index) => {
            lemma_atom(p, q, *base, sc, st);
            if let Ok((a, st1)) = emit::atom_s(p, *base, sc, st) {
                lemma_atom(p, q, *index, sc, st1);
            }
        },
        Expr::Field(_, _) => lemma_field(p, q, e, sc, st),
        Expr::Struct { path, fields } => lemma_struct(
            p,
            q,
            text::strings_view(path@),
            fields@,
            sc,
            st,
        ),
        Expr::Array(items) => lemma_atoms(p, q, items@, items@.len(), sc, st),
        Expr::Call(callee, args) => lemma_call(p, q, e, sc, st),
        _ => {},
    }
}

proof fn lemma_field(p: LowererView, q: LowererView, e: Expr, sc: ScopeView, st: St)
    requires
        outline::like(p, q),
    ensures
        emit::field_s(p, e, sc, st) == emit::field_s(q, e, sc, st),
    decreases e, 1nat, 0nat,
{
    reveal(outline::like);
    match e {
        Expr::Field(base, field) => {
            lemma_atom(p, q, *base, sc, st);
            lemma_path_names(p, q, *base, field@, sc);
        },
        _ => {},
    }
}

proof fn lemma_path_names(
    p: LowererView,
    q: LowererView,
    base: Expr,
    variant: Seq<char>,
    sc: ScopeView,
)
    requires
        outline::like(p, q),
    ensures
        emit::path_ctor(p, base, variant, sc) == emit::path_ctor(q, base, variant, sc),
        emit::path_missing(p, base, sc) == emit::path_missing(q, base, sc),
{
    reveal(outline::like);
}

proof fn lemma_atoms(p: LowererView, q: LowererView, v: Seq<Expr>, n: nat, sc: ScopeView, st: St)
    requires
        outline::like(p, q),
    ensures
        emit::atoms_s(p, v, n, sc, st) == emit::atoms_s(q, v, n, sc, st),
    decreases v, 0nat, n,
{
    if n > 0 && n <= v.len() {
        lemma_atoms(p, q, v, (n - 1) as nat, sc, st);
        if let Ok((out, st1)) = emit::atoms_s(p, v, (n - 1) as nat, sc, st) {
            lemma_atom(p, q, v[n - 1], sc, st1);
        }
    }
}

proof fn lemma_undeclared(v: Seq<FieldInit>, f: Seq<Field>, g: Seq<Field>)
    requires
        outline::same_fields(f, g),
    ensures
        emit::undeclared(v, f) == emit::undeclared(v, g),
{
    let c = emit::is_undeclared(v, f);
    let d = emit::is_undeclared(v, g);
    assert forall|k: int| 0 <= k < v.len() implies #[trigger] c(k) == d(k) by {
        outline::lemma_field_index(f, g, v[k].name@);
    }
    find::lemma_first_from_same(c, d, 0, v.len() as int);
}

proof fn lemma_struct(
    p: LowererView,
    q: LowererView,
    path: Seq<Seq<char>>,
    inits: Seq<FieldInit>,
    sc: ScopeView,
    st: St,
)
    requires
        outline::like(p, q),
    ensures
        emit::struct_s(p, path, inits, sc, st) == emit::struct_s(q, path, inits, sc, st),
    decreases inits, 1nat, 0nat,
{
    reveal(outline::like);
    let name = text::join_view(path, "."@);
    match (decls::struct_named(p.m, name), decls::struct_named(q.m, name)) {
        (Some(d), Some(e)) => {
            lemma_undeclared(inits, d.fields@, e.fields@);
            lemma_inits(p, q, name, d.fields@, e.fields@, d.fields@.len(), inits, sc, st);
        },
        _ => {},
    }
}

proof fn lemma_inits(
    p: LowererView,
    q: LowererView,
    name: Seq<char>,
    f: Seq<Field>,
    g: Seq<Field>,
    n: nat,
    inits: Seq<FieldInit>,
    sc: ScopeView,
    st: St,
)
    requires
        outline::like(p, q),
        outline::same_fields(f, g),
    ensures
        emit::inits_s(p, name, f, n, inits, sc, st) == emit::inits_s(q, name, g, n, inits, sc, st),
    decreases inits, 0nat, n,
{
    if n > 0 && n <= f.len() {
        lemma_inits(p, q, name, f, g, (n - 1) as nat, inits, sc, st);
        assert(f[n - 1].name@ == g[n - 1].name@);
        match (
            emit::inits_s(p, name, f, (n - 1) as nat, inits, sc, st),
            emit::init_index(inits, f[n - 1].name@),
        ) {
            (Ok((out, st1)), Some(i)) => if 0 <= i < inits.len() {
                lemma_atom(p, q, inits[i].value, sc, st1);
            },
            _ => {},
        }
    }
}

proof fn lemma_call(p: LowererView, q: LowererView, e: Expr, sc: ScopeView, st: St)
    requires
        outline::like(p, q),
    ensures
        emit::call_s(p, e, sc, st) == emit::call_s(q, e, sc, st),
    decreases e, 1nat, 0nat,
{
    match e {
        Expr::Call(callee, args) => {
            if emit::is_len(*callee, args@, sc) {
                lemma_atom(p, q, args@[0], sc, st);
            } else {
                lemma_atoms(p, q, args@, args@.len(), sc, st);
                lemma_callee_ctor(p, q, *callee, sc);
                match *callee {
                    Expr::Field(recv, method) => {
                        lemma_path_names(p, q, *recv, method@, sc);
                        lemma_method(p, q, sc, method@);
                        lemma_atom(p, q, *recv, sc, st);
                        match (emit::method_ref(p, sc, method@), emit::atom_s(p, *recv, sc, st)) {
                            (Ok(func), Ok((r, st1))) => {
                                let next = scope::push_s(st1, CoreView::App { func, arg: r });
                                lemma_apply(p, q, args@, args@.len(), next.0, sc, next.1);
                            },
                            _ => {},
                        }
                    },
                    _ => {
                        lemma_callee(p, q, e, sc, st);
                        if let Ok((func, st1)) = emit::callee_s(p, e, sc, st) {
                            lemma_apply(p, q, args@, args@.len(), func, sc, st1);
                        }
                    },
                }
            }
        },
        _ => {},
    }
}

proof fn lemma_callee_ctor(p: LowererView, q: LowererView, callee: Expr, sc: ScopeView)
    requires
        outline::like(p, q),
    ensures
        emit::callee_ctor_view(p, callee, sc) == emit::callee_ctor_view(q, callee, sc),
        forall|c: CtorRef, v: Seq<AtomView>| #[trigger]
            emit::ctor_node_view(p.ms, c, v) == emit::ctor_node_view(q.ms, c, v),
{
    reveal(outline::like);
    match callee {
        Expr::Field(base, variant) => lemma_path_names(p, q, *base, variant@, sc),
        _ => {},
    }
}

proof fn lemma_method(p: LowererView, q: LowererView, sc: ScopeView, method: Seq<char>)
    requires
        outline::like(p, q),
    ensures
        emit::method_ref(p, sc, method) == emit::method_ref(q, sc, method),
{
    reveal(outline::like);
}

proof fn lemma_callee(p: LowererView, q: LowererView, e: Expr, sc: ScopeView, st: St)
    requires
        outline::like(p, q),
    ensures
        emit::callee_s(p, e, sc, st) == emit::callee_s(q, e, sc, st),
    decreases e, 0nat, 0nat,
{
    reveal(outline::like);
    match e {
        Expr::Call(callee, args) => lemma_atom(p, q, *callee, sc, st),
        _ => {},
    }
}

proof fn lemma_apply(
    p: LowererView,
    q: LowererView,
    args: Seq<Expr>,
    n: nat,
    func: AtomView,
    sc: ScopeView,
    st: St,
)
    requires
        outline::like(p, q),
    ensures
        emit::apply_s(p, args, n, func, sc, st) == emit::apply_s(q, args, n, func, sc, st),
    decreases args, 0nat, 2 * n,
{
    if n > 0 && n <= args.len() {
        lemma_applied(p, q, args, (n - 1) as nat, func, sc, st);
        if let Ok((f, st1)) = emit::applied_s(p, args, (n - 1) as nat, func, sc, st) {
            lemma_atom(p, q, args[n - 1], sc, st1);
        }
    }
}

proof fn lemma_applied(
    p: LowererView,
    q: LowererView,
    args: Seq<Expr>,
    n: nat,
    func: AtomView,
    sc: ScopeView,
    st: St,
)
    requires
        outline::like(p, q),
    ensures
        emit::applied_s(p, args, n, func, sc, st) == emit::applied_s(q, args, n, func, sc, st),
    decreases args, 0nat, 2 * n + 1,
{
    if n > 0 {
        lemma_apply(p, q, args, n, func, sc, st);
    }
}

proof fn lemma_collection(
    p: LowererView,
    q: LowererView,
    kind: Seq<char>,
    inits: Seq<FieldInit>,
    sc: ScopeView,
    st: St,
)
    requires
        outline::like(p, q),
    ensures
        emit::collection_s(p, kind, inits, sc, st) == emit::collection_s(q, kind, inits, sc, st),
    decreases inits, 2nat, 0nat,
{
    if let Some(ai) = emit::init_index(inits, "alloc"@) {
        match (emit::array_part(inits, "keys"@), emit::array_part(inits, "values"@)) {
            (Some(ki), Some(vi)) => lemma_map(p, q, inits, ai, ki, vi, sc, st),
            _ => {},
        }
        if let Some(ii) = emit::array_part(inits, "items"@) {
            lemma_set(p, q, inits, ai, ii, sc, st);
            lemma_list(p, q, inits, ai, ii, sc, st);
        }
    }
}

proof fn lemma_list(
    p: LowererView,
    q: LowererView,
    inits: Seq<FieldInit>,
    ai: int,
    ii: int,
    sc: ScopeView,
    st: St,
)
    requires
        outline::like(p, q),
    ensures
        emit::list_s(p, inits, ai, ii, sc, st) == emit::list_s(q, inits, ai, ii, sc, st),
    decreases inits, 1nat, 0nat,
{
    reveal(outline::like);
    if 0 <= ai < inits.len() && 0 <= ii < inits.len() {
        match inits[ii].value {
            Expr::Array(items) => {
                lemma_atom(p, q, inits[ai].value, sc, st);
                if let Ok((alloc, st1)) = emit::atom_s(p, inits[ai].value, sc, st) {
                    let next = scope::push_s(
                        st1,
                        CoreView::ListNew {
                            elem: emit::elem_view(p, items@, sc),
                            alloc,
                            capacity: emit::count_atom(items@.len()),
                        },
                    );
                    lemma_pushes(p, q, items@, items@.len(), alloc, next.0, sc, next.1);
                }
            },
            _ => {},
        }
    }
}

proof fn lemma_pushes(
    p: LowererView,
    q: LowererView,
    items: Seq<Expr>,
    n: nat,
    alloc: AtomView,
    list: AtomView,
    sc: ScopeView,
    st: St,
)
    requires
        outline::like(p, q),
    ensures
        emit::pushes_s(p, items, n, alloc, list, sc, st) == emit::pushes_s(
            q,
            items,
            n,
            alloc,
            list,
            sc,
            st,
        ),
    decreases items, 0nat, n,
{
    if n > 0 && n <= items.len() {
        lemma_pushes(p, q, items, (n - 1) as nat, alloc, list, sc, st);
        if let Ok((l, st1)) = emit::pushes_s(p, items, (n - 1) as nat, alloc, list, sc, st) {
            lemma_atom(p, q, items[n - 1], sc, st1);
        }
    }
}

proof fn lemma_set(
    p: LowererView,
    q: LowererView,
    inits: Seq<FieldInit>,
    ai: int,
    ii: int,
    sc: ScopeView,
    st: St,
)
    requires
        outline::like(p, q),
    ensures
        emit::set_s(p, inits, ai, ii, sc, st) == emit::set_s(q, inits, ai, ii, sc, st),
    decreases inits, 1nat, 0nat,
{
    if 0 <= ai < inits.len() && 0 <= ii < inits.len() {
        match inits[ii].value {
            Expr::Array(items) => {
                lemma_atom(p, q, inits[ai].value, sc, st);
                if let Ok((alloc, st1)) = emit::atom_s(p, inits[ai].value, sc, st) {
                    let next = emit::call2_s(
                        "std.collections.set_with_capacity"@,
                        alloc,
                        emit::count_atom(items@.len()),
                        st1,
                    );
                    lemma_inserts(p, q, items@, items@.len(), alloc, next.0, sc, next.1);
                }
            },
            _ => {},
        }
    }
}

proof fn lemma_inserts(
    p: LowererView,
    q: LowererView,
    items: Seq<Expr>,
    n: nat,
    alloc: AtomView,
    set: AtomView,
    sc: ScopeView,
    st: St,
)
    requires
        outline::like(p, q),
    ensures
        emit::inserts_s(p, items, n, alloc, set, sc, st) == emit::inserts_s(
            q,
            items,
            n,
            alloc,
            set,
            sc,
            st,
        ),
    decreases items, 0nat, n,
{
    if n > 0 && n <= items.len() {
        lemma_inserts(p, q, items, (n - 1) as nat, alloc, set, sc, st);
        if let Ok((s, st1)) = emit::inserts_s(p, items, (n - 1) as nat, alloc, set, sc, st) {
            lemma_atom(p, q, items[n - 1], sc, st1);
        }
    }
}

proof fn lemma_map(
    p: LowererView,
    q: LowererView,
    inits: Seq<FieldInit>,
    ai: int,
    ki: int,
    vi: int,
    sc: ScopeView,
    st: St,
)
    requires
        outline::like(p, q),
    ensures
        emit::map_s(p, inits, ai, ki, vi, sc, st) == emit::map_s(q, inits, ai, ki, vi, sc, st),
    decreases inits, 1nat, 0nat,
{
    reveal(outline::like);
    let keys = emit::part(inits, ki);
    let values = emit::part(inits, vi);
    if 0 <= ai < inits.len() {
        lemma_atom(p, q, inits[ai].value, sc, st);
        if let Ok((alloc, st1)) = emit::atom_s(p, inits[ai].value, sc, st) {
            let next = scope::push_s(
                st1,
                CoreView::ListNew {
                    elem: TypeView::Nominal {
                        def: hash::symbol_id("std.collections.Entry"@),
                        args: seq![emit::elem_view(p, keys, sc), emit::elem_view(p, values, sc)],
                    },
                    alloc,
                    capacity: emit::count_atom(keys.len()),
                },
            );
            lemma_entries(p, q, inits, ki, vi, keys.len(), alloc, next.0, sc, next.1);
        }
    }
}

proof fn lemma_entries(
    p: LowererView,
    q: LowererView,
    inits: Seq<FieldInit>,
    ki: int,
    vi: int,
    n: nat,
    alloc: AtomView,
    list: AtomView,
    sc: ScopeView,
    st: St,
)
    requires
        outline::like(p, q),
    ensures
        emit::entries_s(p, inits, ki, vi, n, alloc, list, sc, st) == emit::entries_s(
            q,
            inits,
            ki,
            vi,
            n,
            alloc,
            list,
            sc,
            st,
        ),
    decreases inits, 0nat, n,
{
    let keys = emit::part(inits, ki);
    let values = emit::part(inits, vi);
    if n > 0 && n <= keys.len() && n <= values.len() && 0 <= ki < inits.len() && 0 <= vi
        < inits.len() {
        lemma_entries(p, q, inits, ki, vi, (n - 1) as nat, alloc, list, sc, st);
        if let Ok((l, st1)) = emit::entries_s(
            p,
            inits,
            ki,
            vi,
            (n - 1) as nat,
            alloc,
            list,
            sc,
            st,
        ) {
            lemma_atom(p, q, keys[n - 1], sc, st1);
            if let Ok((k, st2)) = emit::atom_s(p, keys[n - 1], sc, st1) {
                lemma_atom(p, q, values[n - 1], sc, st2);
            }
        }
    }
}

// ---- assignments ------------------------------------------------------------------------------------

proof fn lemma_target_type(p: LowererView, q: LowererView, lv: LValue, sc: ScopeView)
    requires
        outline::like(p, q),
    ensures
        assign::target_type(p, lv, sc) == assign::target_type(q, lv, sc),
    decreases lv,
{
    reveal(outline::like);
    match lv {
        LValue::Var(_) => {},
        LValue::Field(base, field) => lemma_target_type(p, q, *base, sc),
        LValue::Index(base, _) => lemma_target_type(p, q, *base, sc),
    }
}

proof fn lemma_target(p: LowererView, q: LowererView, lv: LValue, sc: ScopeView, st: St)
    requires
        outline::like(p, q),
    ensures
        assign::target_s(p, lv, sc, st) == assign::target_s(q, lv, sc, st),
    decreases lv,
{
    reveal(outline::like);
    match lv {
        LValue::Var(name) => lemma_var(p, q, name@, sc, st),
        LValue::Field(base, field) => {
            lemma_target(p, q, *base, sc, st);
            lemma_target_type(p, q, *base, sc);
        },
        LValue::Index(base, index) => {
            lemma_target(p, q, *base, sc, st);
            if let Ok((a, st1)) = assign::target_s(p, *base, sc, st) {
                lemma_atom(p, q, *index, sc, st1);
            }
        },
    }
}

/// An assignment is lowered alike.
pub proof fn lemma_assign(
    p: LowererView,
    q: LowererView,
    lv: LValue,
    new: AtomView,
    sc: ScopeView,
    st: St,
)
    requires
        outline::like(p, q),
    ensures
        assign::assign_s(p, lv, new, sc, st) == assign::assign_s(q, lv, new, sc, st),
    decreases lv,
{
    reveal(outline::like);
    match lv {
        LValue::Var(_) => {},
        LValue::Field(base, field) => {
            lemma_target_type(p, q, *base, sc);
            lemma_target(p, q, *base, sc, st);
            match (
                resolve::projection(p, assign::target_type(p, *base, sc), field@),
                assign::target_s(p, *base, sc, st),
            ) {
                (Ok((s, at)), Ok((a, st1))) => {
                    assert(outline::same_struct(
                        decls::struct_named(p.m, s),
                        decls::struct_named(q.m, s),
                    ));
                    let n = match decls::struct_named(p.m, s) {
                        Some(d) => d.fields@.len(),
                        None => 0,
                    };
                    let (fields, st2) = assign::rebuilt_s(a, at, new, n, st1);
                    let (whole, st3) = scope::push_s(
                        st2,
                        CoreView::Ctor {
                            ty: hash::symbol_id(resolve::struct_qual(p, s)),
                            tag: 0,
                            fields,
                        },
                    );
                    lemma_assign(p, q, *base, whole, sc, st3);
                },
                _ => {},
            }
        },
        LValue::Index(base, index) => {
            lemma_target_type(p, q, *base, sc);
            lemma_target(p, q, *base, sc, st);
            match (assign::peeled(assign::target_type(p, *base, sc)), assign::target_s(p, *base, sc, st)) {
                (Some(t), Ok((a, st1))) => {
                    lemma_atom(p, q, *index, sc, st1);
                    if let Ok((i, st2)) = emit::atom_s(p, *index, sc, st1) {
                        assert(assign::element_s(p, t, a, i, new, st2) == assign::element_s(
                            q,
                            t,
                            a,
                            i,
                            new,
                            st2,
                        ));
                        if let Some((whole, st3)) = assign::element_s(p, t, a, i, new, st2) {
                            lemma_assign(p, q, *base, whole, sc, st3);
                        }
                    }
                },
                _ => {},
            }
        },
    }
}

// ---- loops ---------------------------------------------------------------------------------------------

proof fn lemma_yield(
    p: LowererView,
    q: LowererView,
    e: Expr,
    goal: GoalView,
    sc: ScopeView,
    st: St,
)
    requires
        outline::like(p, q),
    ensures
        blocks::yield_s(p, e, goal, sc, st) == blocks::yield_s(q, e, goal, sc, st),
        blocks::return_s(p, Some(e), goal, sc, st) == blocks::return_s(q, Some(e), goal, sc, st),
{
    lemma_tail(p, q, e, sc, st);
    lemma_atom(p, q, e, sc, st);
}

proof fn lemma_protocol(
    p: LowererView,
    q: LowererView,
    name: Seq<char>,
    iter: Expr,
    sc: ScopeView,
    pend: PendView,
)
    requires
        outline::like(p, q),
    ensures
        blocks::protocol(p, name, iter, sc, pend) == blocks::protocol(q, name, iter, sc, pend),
        blocks::item_type(p, iter, sc) == blocks::item_type(q, iter, sc),
{
    reveal(outline::like);
}

proof fn lemma_length(p: LowererView, q: LowererView, iter: Expr, sc: ScopeView, st: St)
    requires
        outline::like(p, q),
    ensures
        blocks::length_s(p, iter, sc, st) == blocks::length_s(q, iter, sc, st),
{
    lemma_protocol(p, q, "iter_len"@, iter, sc, st.pend);
    lemma_atom(p, q, iter, sc, st);
    if let Some((func, pend)) = blocks::protocol(p, "iter_len"@, iter, sc, st.pend) {
        lemma_atom(p, q, iter, sc, St { pend, ..st });
    }
}

proof fn lemma_below(
    p: LowererView,
    q: LowererView,
    iter: Expr,
    index: Seq<char>,
    sc: ScopeView,
    st: St,
)
    requires
        outline::like(p, q),
    ensures
        blocks::below_s(p, iter, index, sc, st) == blocks::below_s(q, iter, index, sc, st),
{
    lemma_var(p, q, index, sc, st);
    if let Ok((i, st1)) = emit::var_s(p, index, sc, st) {
        lemma_length(p, q, iter, sc, st1);
    }
}

proof fn lemma_item(
    p: LowererView,
    q: LowererView,
    binder: Seq<char>,
    iter: Expr,
    index: Seq<char>,
    sc: ScopeView,
    st: St,
)
    requires
        outline::like(p, q),
    ensures
        blocks::item_s(p, binder, iter, index, sc, st) == blocks::item_s(
            q,
            binder,
            iter,
            index,
            sc,
            st,
        ),
{
    lemma_protocol(p, q, "iter_get"@, iter, sc, st.pend);
    match blocks::protocol(p, "iter_get"@, iter, sc, st.pend) {
        Some((func, pend)) => {
            lemma_atom(p, q, iter, sc, St { pend, ..st });
            if let Ok((a, st1)) = emit::atom_s(p, iter, sc, St { pend, ..st }) {
                lemma_var(p, q, index, sc, scope::push_s(st1, CoreView::App { func, arg: a }).1);
            }
        },
        None => {
            lemma_atom(p, q, iter, sc, st);
            if let Ok((a, st1)) = emit::atom_s(p, iter, sc, st) {
                lemma_var(p, q, index, sc, st1);
            }
        },
    }
}

// ---- blocks --------------------------------------------------------------------------------------------

/// A block is lowered alike.
pub proof fn lemma_block(
    p: LowererView,
    q: LowererView,
    b: Block,
    goal: GoalView,
    sc: ScopeView,
    base: u32,
    pend: PendView,
)
    requires
        outline::like(p, q),
    ensures
        blocks::block_s(p, b, goal, sc, base, pend) == blocks::block_s(q, b, goal, sc, base, pend),
    decreases b, 1nat, 0nat,
{
    let st = scope::open_s(base, pend);
    lemma_stmts(p, q, b.stmts@, b.stmts@.len(), sc, st);
    if let Ok((sc1, st1)) = blocks::stmts_s(p, b.stmts@, b.stmts@.len(), sc, st) {
        lemma_end(p, q, b, goal, sc1, st1);
    }
}

proof fn lemma_stmts(p: LowererView, q: LowererView, v: Seq<Stmt>, n: nat, sc: ScopeView, st: St)
    requires
        outline::like(p, q),
    ensures
        blocks::stmts_s(p, v, n, sc, st) == blocks::stmts_s(q, v, n, sc, st),
    decreases v, 0nat, n,
{
    if n > 0 && n <= v.len() {
        lemma_stmts(p, q, v, (n - 1) as nat, sc, st);
        if let Ok((sc1, st1)) = blocks::stmts_s(p, v, (n - 1) as nat, sc, st) {
            lemma_stmt(p, q, v[n - 1], sc1, st1);
        }
    }
}

proof fn lemma_stmt(p: LowererView, q: LowererView, s: Stmt, sc: ScopeView, st: St)
    requires
        outline::like(p, q),
    ensures
        blocks::stmt_s(p, s, sc, st) == blocks::stmt_s(q, s, sc, st),
    decreases s, 1nat, 0nat,
{
    match s {
        Stmt::Let { name, ty, value } => {
            reveal(outline::like);
            lemma_atom(p, q, value, sc, st);
        },
        Stmt::Var { name, ty, value } => {
            reveal(outline::like);
            lemma_atom(p, q, value, sc, st);
        },
        Stmt::Assign { target, value } => {
            lemma_atom(p, q, value, sc, st);
            if let Ok((a, st1)) = emit::atom_s(p, value, sc, st) {
                lemma_assign(p, q, target, a, sc, st1);
            }
        },
        Stmt::While { cond, invariants, body } => lemma_while(p, q, s, sc, st),
        Stmt::For { binder, iter, body } => lemma_for(p, q, s, sc, st),
    }
}

proof fn lemma_while(p: LowererView, q: LowererView, s: Stmt, sc: ScopeView, st: St)
    requires
        outline::like(p, q),
    ensures
        blocks::while_s(p, s, sc, st) == blocks::while_s(q, s, sc, st),
    decreases s, 0nat, 0nat,
{
    match s {
        Stmt::While { cond, invariants, body } => {
            let vars = blocks::carried(sc, blocks::while_assigns(body), sc.binds.len());
            let head = blocks::header(vars, scope::depth_s(st));
            let inner = blocks::inside(sc, head, head.len());
            let base = indices::add32(scope::depth_s(st), (vars.len() as usize) as u32);
            let st0 = scope::open_s(base, st.pend);
            lemma_tail(p, q, cond, inner, st0);
            if let Ok((c, pend1)) = blocks::closed_s(emit::tail_s(p, cond, inner, st0)) {
                lemma_block(p, q, body, GoalView::Next(head), inner, base, pend1);
            }
        },
        _ => {},
    }
}

proof fn lemma_for_body(
    p: LowererView,
    q: LowererView,
    binder: Seq<char>,
    iter: Expr,
    body: Block,
    index: Seq<char>,
    goal: GoalView,
    sc: ScopeView,
    base: u32,
    pend: PendView,
)
    requires
        outline::like(p, q),
    ensures
        blocks::for_body_s(p, binder, iter, body, index, goal, sc, base, pend)
            == blocks::for_body_s(q, binder, iter, body, index, goal, sc, base, pend),
    decreases body, 1nat, 0nat,
{
    let st = scope::open_s(base, pend);
    lemma_item(p, q, binder, iter, index, sc, st);
    if let Ok((sc1, st1)) = blocks::item_s(p, binder, iter, index, sc, st) {
        lemma_stmts(p, q, body.stmts@, body.stmts@.len(), sc1, st1);
        if let Ok((sc2, st2)) = blocks::stmts_s(p, body.stmts@, body.stmts@.len(), sc1, st1) {
            lemma_var(p, q, index, sc2, st2);
            if let Ok((sc3, st3)) = blocks::advance_s(p, index, sc2, st2) {
                lemma_end(p, q, body, goal, sc3, st3);
            }
        }
    }
}

proof fn lemma_for(p: LowererView, q: LowererView, s: Stmt, sc0: ScopeView, st: St)
    requires
        outline::like(p, q),
    ensures
        blocks::for_s(p, s, sc0, st) == blocks::for_s(q, s, sc0, st),
    decreases s, 0nat, 0nat,
{
    match s {
        Stmt::For { binder, iter, body } => {
            let index = blocks::index_name(scope::depth_s(st));
            let sc = scope::bind(sc0, blocks::index_bind(sc0, scope::depth_s(st)));
            let vars = blocks::carried(
                sc,
                blocks::for_assigns(binder@, index, body),
                sc.binds.len(),
            );
            let head = blocks::header(vars, scope::depth_s(st));
            let inner = blocks::inside(sc, head, head.len());
            let base = indices::add32(scope::depth_s(st), (vars.len() as usize) as u32);
            let st0 = scope::open_s(base, st.pend);
            lemma_below(p, q, iter, index, inner, st0);
            if let Ok((c, pend1)) = blocks::closed_s(blocks::below_s(p, iter, index, inner, st0)) {
                lemma_for_body(
                    p,
                    q,
                    binder@,
                    iter,
                    body,
                    index,
                    GoalView::Next(head),
                    inner,
                    base,
                    pend1,
                );
            }
        },
        _ => {},
    }
}

proof fn lemma_end(
    p: LowererView,
    q: LowererView,
    b: Block,
    goal: GoalView,
    sc: ScopeView,
    st: St,
)
    requires
        outline::like(p, q),
    ensures
        blocks::end_s(p, b, goal, sc, st) == blocks::end_s(q, b, goal, sc, st),
    decreases b, 0nat, 0nat,
{
    match b.tail {
        None => {},
        Some(Tail::Expr(e)) => lemma_yield(p, q, e, goal, sc, st),
        Some(Tail::Return(o)) => match o {
            Some(e) => lemma_yield(p, q, e, goal, sc, st),
            None => {},
        },
        Some(Tail::If(i)) => lemma_if(p, q, *i, goal, sc, st),
        Some(Tail::Match(m)) => lemma_match(p, q, *m, goal, sc, st),
    }
}

proof fn lemma_if(p: LowererView, q: LowererView, i: IfExpr, goal: GoalView, sc: ScopeView, st: St)
    requires
        outline::like(p, q),
    ensures
        blocks::if_s(p, i, goal, sc, st) == blocks::if_s(q, i, goal, sc, st),
    decreases i, 1nat, 0nat,
{
    lemma_atom(p, q, i.cond, sc, st);
    if let Ok((cond, st1)) = emit::atom_s(p, i.cond, sc, st) {
        let base = scope::depth_s(st1);
        lemma_block(p, q, i.yes, goal, sc, base, st1.pend);
        if let Ok((yes, pend2)) = blocks::block_s(p, i.yes, goal, sc, base, st1.pend) {
            lemma_else(p, q, i, goal, sc, base, pend2);
        }
    }
}

proof fn lemma_else(
    p: LowererView,
    q: LowererView,
    i: IfExpr,
    goal: GoalView,
    sc: ScopeView,
    base: u32,
    pend: PendView,
)
    requires
        outline::like(p, q),
    ensures
        blocks::else_s(p, i, goal, sc, base, pend) == blocks::else_s(q, i, goal, sc, base, pend),
    decreases i, 0nat, 0nat,
{
    match i.no {
        None => {},
        Some(Else::Block(b)) => lemma_block(p, q, b, goal, sc, base, pend),
        Some(Else::If(inner)) => lemma_if(p, q, *inner, goal, sc, scope::open_s(base, pend)),
    }
}

proof fn lemma_pattern(p: LowererView, q: LowererView, path: Seq<Seq<char>>)
    requires
        outline::like(p, q),
    ensures
        blocks::pattern_ctor(p, path) == blocks::pattern_ctor(q, path),
{
    reveal(outline::like);
}

proof fn lemma_arms_enum(p: LowererView, q: LowererView, v: Seq<Arm>, i: nat)
    requires
        outline::like(p, q),
    ensures
        blocks::arms_enum(p, v, i) == blocks::arms_enum(q, v, i),
    decreases v.len() - i,
{
    if i < v.len() {
        match v[i as int].pat {
            Pattern::Ctor { path, fields } => {
                reveal(outline::like);
                lemma_pattern(p, q, text::strings_view(path@));
            },
            Pattern::Wildcard => lemma_arms_enum(p, q, v, i + 1),
        }
    }
}

proof fn lemma_arm_body(
    p: LowererView,
    q: LowererView,
    a: Arm,
    goal: GoalView,
    sc: ScopeView,
    base: u32,
    pend: PendView,
)
    requires
        outline::like(p, q),
    ensures
        blocks::arm_body_s(p, a, goal, sc, base, pend) == blocks::arm_body_s(
            q,
            a,
            goal,
            sc,
            base,
            pend,
        ),
    decreases a, 0nat, 0nat,
{
    match a.body {
        ArmBody::Expr(e) => lemma_yield(p, q, e, goal, sc, scope::open_s(base, pend)),
        ArmBody::Block(b) => lemma_block(p, q, b, goal, sc, base, pend),
    }
}

proof fn lemma_arm(
    p: LowererView,
    q: LowererView,
    a: Arm,
    qual: Seq<char>,
    goal: GoalView,
    sc: ScopeView,
    base: u32,
    s: SlotsView,
    pend: PendView,
)
    requires
        outline::like(p, q),
    ensures
        blocks::arm_s(p, a, qual, goal, sc, base, s, pend) == blocks::arm_s(
            q,
            a,
            qual,
            goal,
            sc,
            base,
            s,
            pend,
        ),
    decreases a, 1nat, 0nat,
{
    match a.pat {
        Pattern::Wildcard => lemma_arm_body(p, q, a, goal, sc, base, pend),
        Pattern::Ctor { path, fields } => {
            reveal(outline::like);
            lemma_pattern(p, q, text::strings_view(path@));
            lemma_arm_body(
                p,
                q,
                a,
                goal,
                blocks::fields_s(fields@, fields@.len(), sc, base),
                indices::add32(base, (fields@.len() as usize) as u32),
                pend,
            );
        },
    }
}

proof fn lemma_arms(
    p: LowererView,
    q: LowererView,
    v: Seq<Arm>,
    n: nat,
    qual: Seq<char>,
    goal: GoalView,
    sc: ScopeView,
    base: u32,
    s: SlotsView,
    pend: PendView,
)
    requires
        outline::like(p, q),
    ensures
        blocks::arms_s(p, v, n, qual, goal, sc, base, s, pend) == blocks::arms_s(
            q,
            v,
            n,
            qual,
            goal,
            sc,
            base,
            s,
            pend,
        ),
    decreases v, 0nat, n,
{
    if n > 0 && n <= v.len() {
        lemma_arms(p, q, v, (n - 1) as nat, qual, goal, sc, base, s, pend);
        if let Ok((s1, pend1)) = blocks::arms_s(
            p,
            v,
            (n - 1) as nat,
            qual,
            goal,
            sc,
            base,
            s,
            pend,
        ) {
            lemma_arm(p, q, v[n - 1], qual, goal, sc, base, s1, pend1);
        }
    }
}

proof fn lemma_match(
    p: LowererView,
    q: LowererView,
    m: MatchExpr,
    goal: GoalView,
    sc: ScopeView,
    st: St,
)
    requires
        outline::like(p, q),
    ensures
        blocks::match_s(p, m, goal, sc, st) == blocks::match_s(q, m, goal, sc, st),
    decreases m, 0nat, 0nat,
{
    reveal(outline::like);
    lemma_atom(p, q, m.scrutinee, sc, st);
    lemma_arms_enum(p, q, m.arms@, 0);
    match (emit::atom_s(p, m.scrutinee, sc, st), blocks::arms_enum(p, m.arms@, 0)) {
        (Ok((scrutinee, st1)), Ok(qual)) => lemma_arms(
            p,
            q,
            m.arms@,
            m.arms@.len(),
            qual,
            goal,
            sc,
            scope::depth_s(st1),
            blocks::no_slots(decls::variants_of(p.ms, qual)),
            st1.pend,
        ),
        _ => {},
    }
}

// ---- functions -----------------------------------------------------------------------------------------

proof fn lemma_param_scope(p: LowererView, q: LowererView, f: FnDecl, n: nat)
    requires
        p.subst == q.subst,
    ensures
        lower::param_scope(p, f, n) == lower::param_scope(q, f, n),
    decreases n,
{
    if n > 0 {
        lemma_param_scope(p, q, f, (n - 1) as nat);
    }
}

/// A function is lowered to the same definition by lowerers that answer alike.
pub proof fn lemma_function(p: LowererView, q: LowererView, f: FnDecl, pend: PendView)
    requires
        outline::like(p, q),
    ensures
        lower::fn_s(p, f, pend) == lower::fn_s(q, f, pend),
{
    reveal(outline::like);
    lemma_param_scope(p, q, f, f.params@.len());
    let tys = lower::param_types(p, f);
    assert(tys =~= lower::param_types(q, f));
    assert(lower::ret_type(p, f) == lower::ret_type(q, f));
    if let Some(b) = f.body {
        lemma_block(
            p,
            q,
            b,
            GoalView::Value,
            lower::param_scope(p, f, f.params@.len()),
            (tys.len() as usize) as u32,
            pend,
        );
    }
}

} // verus!
