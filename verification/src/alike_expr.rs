//! Expressions that differ in the names of locals only have the same terms.
use vstd::prelude::*;

use crate::alike;
use crate::alike_scope;
use crate::decls;
use crate::emit;
use crate::find;
use crate::hash;
use crate::ir::{AtomView, CoreView, TypeView};
use crate::lower_error::LowerErrorView;
use crate::resolve;
use crate::scope;
use crate::scope::{LowererView, PendView, ScopeView, St};
use crate::surface;
use crate::syntax::{Expr, Field, FieldInit, Module, Param};
use crate::text;

verus! {

/// Results that are equal, or both failures.
pub open spec fn agree<T>(a: Result<T, LowerErrorView>, b: Result<T, LowerErrorView>) -> bool {
    match (a, b) {
        (Ok(x), Ok(y)) => x == y,
        (Err(_), Err(_)) => true,
        _ => false,
    }
}

// ---- types and names ------------------------------------------------------------------------------------

/// Expressions that are alike have the same type.
pub proof fn lemma_expr_type(
    lw: LowererView,
    env: alike::Env,
    e: Expr,
    f: Expr,
    a: ScopeView,
    b: ScopeView,
)
    requires
        alike_scope::same_scope(env, a, b),
        alike::same_expr(lw.m, env, e, f),
    ensures
        resolve::expr_type(lw, e, a) == resolve::expr_type(lw, f, b),
        resolve::arg_type(lw, e, a) == resolve::arg_type(lw, f, b),
    decreases e,
{
    match (e, f) {
        (Expr::Var(x), Expr::Var(y)) => {
            assert(alike_scope::linked(env, x@, y@));
            alike_scope::lemma_local(env, a, b, x@, y@);
        },
        (Expr::Field(x, _), Expr::Field(y, _)) => lemma_expr_type(lw, env, *x, *y, a, b),
        (Expr::Index(x, _), Expr::Index(y, _)) => lemma_expr_type(lw, env, *x, *y, a, b),
        (Expr::Unary(_, x), Expr::Unary(_, y)) => lemma_expr_type(lw, env, *x, *y, a, b),
        (Expr::Call(g, _), Expr::Call(h, _)) => {
            assert(alike::same_expr(lw.m, env, *g, *h));
        },
        _ => {},
    }
}

proof fn lemma_elem(
    lw: LowererView,
    env: alike::Env,
    v: Seq<Expr>,
    w: Seq<Expr>,
    a: ScopeView,
    b: ScopeView,
)
    requires
        alike_scope::same_scope(env, a, b),
        alike::same_exprs(lw.m, env, v, w),
    ensures
        emit::elem_view(lw, v, a) == emit::elem_view(lw, w, b),
{
    reveal(emit::elem_view);
    if v.len() > 0 {
        assert(alike::same_expr(lw.m, env, v[0], w[0]));
        lemma_expr_type(lw, env, v[0], w[0], a, b);
    }
}

/// What a path in expressions that are alike denotes.
proof fn lemma_path(
    lw: LowererView,
    env: alike::Env,
    e: Expr,
    f: Expr,
    variant: Seq<char>,
    a: ScopeView,
    b: ScopeView,
)
    requires
        alike_scope::same_scope(env, a, b),
        alike::same_expr(lw.m, env, e, f),
    ensures
        emit::path_ctor(lw, e, variant, a) == emit::path_ctor(lw, f, variant, b),
        emit::path_missing(lw, e, a) == emit::path_missing(lw, f, b),
{
    match (e, f) {
        (Expr::Var(x), Expr::Var(y)) => {
            assert(alike_scope::linked(env, x@, y@));
            alike_scope::lemma_local(env, a, b, x@, y@);
        },
        _ => {},
    }
}

/// What callees that are alike denote.
proof fn lemma_callee_names(
    lw: LowererView,
    env: alike::Env,
    e: Expr,
    f: Expr,
    v: Seq<Expr>,
    w: Seq<Expr>,
    a: ScopeView,
    b: ScopeView,
)
    requires
        alike_scope::same_scope(env, a, b),
        alike::same_expr(lw.m, env, e, f),
        v.len() == w.len(),
    ensures
        emit::callee_ctor_view(lw, e, a) == emit::callee_ctor_view(lw, f, b),
        emit::free_name(e, a) == emit::free_name(f, b),
        emit::is_len(e, v, a) == emit::is_len(f, w, b),
{
    match (e, f) {
        (Expr::Var(x), Expr::Var(y)) => {
            assert(alike_scope::linked(env, x@, y@));
            alike_scope::lemma_local(env, a, b, x@, y@);
        },
        (Expr::Field(x, s), Expr::Field(y, _)) => lemma_path(lw, env, *x, *y, s@, a, b),
        _ => {},
    }
}

proof fn lemma_solve(
    lw: LowererView,
    env: alike::Env,
    params: Seq<Param>,
    v: Seq<Expr>,
    w: Seq<Expr>,
    n: nat,
    generics: Seq<Seq<char>>,
    a: ScopeView,
    b: ScopeView,
)
    requires
        alike_scope::same_scope(env, a, b),
        alike::same_exprs(lw.m, env, v, w),
        n <= v.len(),
    ensures
        resolve::solve(lw, params, v, n, generics, a) == resolve::solve(
            lw,
            params,
            w,
            n,
            generics,
            b,
        ),
    decreases n,
{
    if n > 0 {
        lemma_solve(lw, env, params, v, w, (n - 1) as nat, generics, a, b);
        assert(alike::same_expr(lw.m, env, v[n - 1], w[n - 1]));
        lemma_expr_type(lw, env, v[n - 1], w[n - 1], a, b);
    }
}

proof fn lemma_generic(
    lw: LowererView,
    env: alike::Env,
    name: Seq<char>,
    v: Seq<Expr>,
    w: Seq<Expr>,
    a: ScopeView,
    b: ScopeView,
    pend: PendView,
)
    requires
        alike_scope::same_scope(env, a, b),
        alike::same_exprs(lw.m, env, v, w),
    ensures
        resolve::generic_call(lw, name, v, a, pend) == resolve::generic_call(lw, name, w, b, pend),
{
    reveal(resolve::generic_call);
    match decls::generic_named(lw.ms, name) {
        None => {},
        Some((gm, gi)) => match decls::fn_at(lw.ms, gm, gi) {
            None => {},
            Some(f) => {
                lemma_solve(
                    lw,
                    env,
                    f.params@,
                    v,
                    w,
                    v.len(),
                    surface::generic_names_view(f.generics@),
                    a,
                    b,
                );
            },
        },
    }
}

proof fn lemma_init_index(
    m: Module,
    env: alike::Env,
    v: Seq<FieldInit>,
    w: Seq<FieldInit>,
    name: Seq<char>,
)
    requires
        alike::same_inits(m, env, v, w),
    ensures
        emit::init_index(v, name) == emit::init_index(w, name),
        emit::array_part(v, name) == emit::array_part(w, name),
{
    let p = emit::is_init_named(v, name);
    let q = emit::is_init_named(w, name);
    assert forall|k: int| 0 <= k < v.len() implies #[trigger] p(k) == q(k) by {
        assert(v[k].name@ == w[k].name@);
    }
    find::lemma_first_from_same(p, q, 0, v.len() as int);
    find::lemma_first_from(p, 0, v.len() as int);
    match emit::init_index(v, name) {
        Some(i) => {
            assert(v[i].name@ == w[i].name@);
            assert(alike::same_expr(m, env, v[i].value, w[i].value));
        },
        None => {},
    }
}

proof fn lemma_undeclared(
    m: Module,
    env: alike::Env,
    v: Seq<FieldInit>,
    w: Seq<FieldInit>,
    fields: Seq<Field>,
)
    requires
        alike::same_inits(m, env, v, w),
    ensures
        emit::undeclared(v, fields) == emit::undeclared(w, fields),
{
    let p = emit::is_undeclared(v, fields);
    let q = emit::is_undeclared(w, fields);
    assert forall|k: int| 0 <= k < v.len() implies #[trigger] p(k) == q(k) by {
        assert(v[k].name@ == w[k].name@);
    }
    find::lemma_first_from_same(p, q, 0, v.len() as int);
}

proof fn lemma_foreign(
    m: Module,
    env: alike::Env,
    v: Seq<FieldInit>,
    w: Seq<FieldInit>,
    kind: Seq<char>,
)
    requires
        alike::same_inits(m, env, v, w),
    ensures
        emit::foreign_part(v, kind) == emit::foreign_part(w, kind),
{
    let p = emit::is_foreign_part(v, kind);
    let q = emit::is_foreign_part(w, kind);
    assert forall|k: int| 0 <= k < v.len() implies #[trigger] p(k) == q(k) by {
        assert(v[k].name@ == w[k].name@);
    }
    find::lemma_first_from_same(p, q, 0, v.len() as int);
}

// ---- terms ---------------------------------------------------------------------------------------------------

/// Names that stand for each other have the same atom.
pub proof fn lemma_var(
    lw: LowererView,
    env: alike::Env,
    x: Seq<char>,
    y: Seq<char>,
    a: ScopeView,
    b: ScopeView,
    st: St,
)
    requires
        alike_scope::same_scope(env, a, b),
        alike_scope::linked(env, x, y),
    ensures
        agree(emit::var_s(lw, x, a, st), emit::var_s(lw, y, b, st)),
{
    alike_scope::lemma_local(env, a, b, x, y);
}

/// Expressions that are alike have the same atom.
pub proof fn lemma_atom(
    lw: LowererView,
    env: alike::Env,
    e: Expr,
    f: Expr,
    a: ScopeView,
    b: ScopeView,
    st: St,
)
    requires
        alike_scope::same_scope(env, a, b),
        alike::same_expr(lw.m, env, e, f),
    ensures
        agree(emit::atom_s(lw, e, a, st), emit::atom_s(lw, f, b, st)),
    decreases e, 3nat, 0nat,
{
    match (e, f) {
        (Expr::Try(x), Expr::Try(y)) => lemma_atom(lw, env, *x, *y, a, b, st),
        (Expr::Var(x), Expr::Var(y)) => {
            assert(alike_scope::linked(env, x@, y@));
            lemma_var(lw, env, x@, y@, a, b, st);
        },
        (Expr::Struct { path: p, fields: v }, Expr::Struct { path: q, fields: w }) => {
            if emit::is_collection(lw, text::strings_view(p@)) {
                assert(text::strings_view(p@)[0] == p@[0]@);
                assert(text::strings_view(q@)[0] == q@[0]@);
                lemma_collection(lw, env, p@[0]@, v@, w@, a, b, st);
            } else {
                lemma_node(lw, env, e, f, a, b, st);
            }
        },
        (Expr::Unit, _) | (Expr::Int(_), _) | (Expr::Bool(_), _) | (Expr::Str(_), _) | (
            Expr::Char(_),
            _,
        ) => {},
        _ => lemma_node(lw, env, e, f, a, b, st),
    }
}

/// Expressions that are alike have the same term.
pub proof fn lemma_tail(
    lw: LowererView,
    env: alike::Env,
    e: Expr,
    f: Expr,
    a: ScopeView,
    b: ScopeView,
    st: St,
)
    requires
        alike_scope::same_scope(env, a, b),
        alike::same_expr(lw.m, env, e, f),
    ensures
        agree(emit::tail_s(lw, e, a, st), emit::tail_s(lw, f, b, st)),
    decreases e, 4nat, 0nat,
{
    lemma_atom(lw, env, e, f, a, b, st);
    match (e, f) {
        (Expr::Try(x), Expr::Try(y)) => lemma_tail(lw, env, *x, *y, a, b, st),
        (Expr::Unit, _) | (Expr::Int(_), _) | (Expr::Bool(_), _) | (Expr::Str(_), _) | (
            Expr::Char(_),
            _,
        ) | (Expr::Var(_), _) => {},
        _ => lemma_node(lw, env, e, f, a, b, st),
    }
}

proof fn lemma_node(
    lw: LowererView,
    env: alike::Env,
    e: Expr,
    f: Expr,
    a: ScopeView,
    b: ScopeView,
    st: St,
)
    requires
        alike_scope::same_scope(env, a, b),
        alike::same_expr(lw.m, env, e, f),
    ensures
        agree(emit::node_s(lw, e, a, st), emit::node_s(lw, f, b, st)),
    decreases e, 2nat, 1nat,
{
    match e {
        Expr::Field(_, _) => lemma_field(lw, env, e, f, a, b, st),
        Expr::Call(_, _) => lemma_call(lw, env, e, f, a, b, st),
        Expr::Struct { .. } => lemma_literal(lw, env, e, f, a, b, st),
        Expr::Array(_) => lemma_array(lw, env, e, f, a, b, st),
        _ => lemma_operation(lw, env, e, f, a, b, st),
    }
}

proof fn lemma_literal(
    lw: LowererView,
    env: alike::Env,
    e: Expr,
    f: Expr,
    a: ScopeView,
    b: ScopeView,
    st: St,
)
    requires
        alike_scope::same_scope(env, a, b),
        alike::same_expr(lw.m, env, e, f),
        e is Struct,
    ensures
        agree(emit::node_s(lw, e, a, st), emit::node_s(lw, f, b, st)),
    decreases e, 2nat, 0nat,
{
    match (e, f) {
        (Expr::Struct { path: p, fields: v }, Expr::Struct { path: q, fields: w }) => {
            lemma_struct(lw, env, text::strings_view(p@), v@, w@, a, b, st);
        },
        _ => {},
    }
}

proof fn lemma_array(
    lw: LowererView,
    env: alike::Env,
    e: Expr,
    f: Expr,
    a: ScopeView,
    b: ScopeView,
    st: St,
)
    requires
        alike_scope::same_scope(env, a, b),
        alike::same_expr(lw.m, env, e, f),
        e is Array,
    ensures
        agree(emit::node_s(lw, e, a, st), emit::node_s(lw, f, b, st)),
    decreases e, 2nat, 0nat,
{
    match (e, f) {
        (Expr::Array(v), Expr::Array(w)) => {
            assert(alike::same_exprs(lw.m, env, v@, w@));
            lemma_atoms(lw, env, v@, w@, v@.len(), a, b, st);
            lemma_elem(lw, env, v@, w@, a, b);
        },
        _ => {},
    }
}

proof fn lemma_operation(
    lw: LowererView,
    env: alike::Env,
    e: Expr,
    f: Expr,
    a: ScopeView,
    b: ScopeView,
    st: St,
)
    requires
        alike_scope::same_scope(env, a, b),
        alike::same_expr(lw.m, env, e, f),
        !(e is Struct || e is Array || e is Call || e is Field),
    ensures
        agree(emit::node_s(lw, e, a, st), emit::node_s(lw, f, b, st)),
    decreases e, 2nat, 0nat,
{
    match (e, f) {
        (Expr::Cast(x, _), Expr::Cast(y, _)) => lemma_atom(lw, env, *x, *y, a, b, st),
        (Expr::Binary(l, _, r), Expr::Binary(l2, _, r2)) => {
            lemma_atom(lw, env, *l, *l2, a, b, st);
            match emit::atom_s(lw, *l, a, st) {
                Ok((_, st1)) => lemma_atom(lw, env, *r, *r2, a, b, st1),
                Err(_) => {},
            }
        },
        (Expr::Unary(_, x), Expr::Unary(_, y)) => lemma_atom(lw, env, *x, *y, a, b, st),
        (Expr::Index(x, i), Expr::Index(y, j)) => {
            lemma_atom(lw, env, *x, *y, a, b, st);
            match emit::atom_s(lw, *x, a, st) {
                Ok((_, st1)) => lemma_atom(lw, env, *i, *j, a, b, st1),
                Err(_) => {},
            }
        },
        _ => {},
    }
}

proof fn lemma_atoms(
    lw: LowererView,
    env: alike::Env,
    v: Seq<Expr>,
    w: Seq<Expr>,
    n: nat,
    a: ScopeView,
    b: ScopeView,
    st: St,
)
    requires
        alike_scope::same_scope(env, a, b),
        alike::same_exprs(lw.m, env, v, w),
        n <= v.len(),
    ensures
        agree(emit::atoms_s(lw, v, n, a, st), emit::atoms_s(lw, w, n, b, st)),
    decreases v, 0nat, n,
{
    if n > 0 {
        lemma_atoms(lw, env, v, w, (n - 1) as nat, a, b, st);
        match emit::atoms_s(lw, v, (n - 1) as nat, a, st) {
            Ok((_, st1)) => {
                assert(alike::same_expr(lw.m, env, v[n - 1], w[n - 1]));
                lemma_atom(lw, env, v[n - 1], w[n - 1], a, b, st1);
            },
            Err(_) => {},
        }
    }
}

proof fn lemma_struct(
    lw: LowererView,
    env: alike::Env,
    path: Seq<Seq<char>>,
    v: Seq<FieldInit>,
    w: Seq<FieldInit>,
    a: ScopeView,
    b: ScopeView,
    st: St,
)
    requires
        alike_scope::same_scope(env, a, b),
        alike::same_inits(lw.m, env, v, w),
    ensures
        agree(emit::struct_s(lw, path, v, a, st), emit::struct_s(lw, path, w, b, st)),
    decreases v, 1nat, 0nat,
{
    let name = text::join_view(path, "."@);
    match decls::struct_named(lw.m, name) {
        None => {},
        Some(d) => {
            lemma_undeclared(lw.m, env, v, w, d.fields@);
            lemma_inits(lw, env, name, d.fields@, d.fields@.len(), v, w, a, b, st);
        },
    }
}

proof fn lemma_inits(
    lw: LowererView,
    env: alike::Env,
    name: Seq<char>,
    fields: Seq<Field>,
    n: nat,
    v: Seq<FieldInit>,
    w: Seq<FieldInit>,
    a: ScopeView,
    b: ScopeView,
    st: St,
)
    requires
        alike_scope::same_scope(env, a, b),
        alike::same_inits(lw.m, env, v, w),
    ensures
        agree(
            emit::inits_s(lw, name, fields, n, v, a, st),
            emit::inits_s(lw, name, fields, n, w, b, st),
        ),
    decreases v, 0nat, n,
{
    if n > 0 && n <= fields.len() {
        lemma_inits(lw, env, name, fields, (n - 1) as nat, v, w, a, b, st);
        match emit::inits_s(lw, name, fields, (n - 1) as nat, v, a, st) {
            Ok((_, st1)) => {
                lemma_init_index(lw.m, env, v, w, fields[n - 1].name@);
                match emit::init_index(v, fields[n - 1].name@) {
                    Some(i) => if 0 <= i < v.len() {
                        assert(v[i].name@ == w[i].name@);
                        lemma_atom(lw, env, v[i].value, w[i].value, a, b, st1);
                    },
                    None => {},
                }
            },
            Err(_) => {},
        }
    }
}

proof fn lemma_field(
    lw: LowererView,
    env: alike::Env,
    e: Expr,
    f: Expr,
    a: ScopeView,
    b: ScopeView,
    st: St,
)
    requires
        alike_scope::same_scope(env, a, b),
        alike::same_expr(lw.m, env, e, f),
    ensures
        agree(emit::field_s(lw, e, a, st), emit::field_s(lw, f, b, st)),
    decreases e, 1nat, 0nat,
{
    match (e, f) {
        (Expr::Field(x, s), Expr::Field(y, _)) => {
            lemma_path(lw, env, *x, *y, s@, a, b);
            lemma_atom(lw, env, *x, *y, a, b, st);
            lemma_expr_type(lw, env, *x, *y, a, b);
        },
        _ => {},
    }
}

/// The parts of calls that are alike.
proof fn lemma_call_parts(
    lw: LowererView,
    env: alike::Env,
    e: Expr,
    f: Expr,
    a: ScopeView,
    b: ScopeView,
)
    requires
        alike_scope::same_scope(env, a, b),
        alike::same_expr(lw.m, env, e, f),
        e is Call,
    ensures
        f is Call,
        alike::same_expr(lw.m, env, *e->Call_0, *f->Call_0),
        alike::same_exprs(lw.m, env, e->Call_1@, f->Call_1@),
        emit::callee_ctor_view(lw, *e->Call_0, a) == emit::callee_ctor_view(lw, *f->Call_0, b),
        emit::free_name(*e->Call_0, a) == emit::free_name(*f->Call_0, b),
        emit::is_len(*e->Call_0, e->Call_1@, a) == emit::is_len(*f->Call_0, f->Call_1@, b),
        *e->Call_0 is Field <==> *f->Call_0 is Field,
        *e->Call_0 is Field ==> (*e->Call_0)->Field_1@ == (*f->Call_0)->Field_1@
            && alike::same_expr(lw.m, env, *(*e->Call_0)->Field_0, *(*f->Call_0)->Field_0),
{
    let g = *e->Call_0;
    let h = *f->Call_0;
    assert(alike::same_expr(lw.m, env, g, h));
    assert(alike::same_exprs(lw.m, env, e->Call_1@, f->Call_1@));
    lemma_callee_names(lw, env, g, h, e->Call_1@, f->Call_1@, a, b);
}

proof fn lemma_call(
    lw: LowererView,
    env: alike::Env,
    e: Expr,
    f: Expr,
    a: ScopeView,
    b: ScopeView,
    st: St,
)
    requires
        alike_scope::same_scope(env, a, b),
        alike::same_expr(lw.m, env, e, f),
        e is Call,
    ensures
        agree(emit::call_s(lw, e, a, st), emit::call_s(lw, f, b, st)),
    decreases e, 1nat, 1nat,
{
    lemma_call_parts(lw, env, e, f, a, b);
    let g = *e->Call_0;
    let h = *f->Call_0;
    let v = e->Call_1@;
    let w = f->Call_1@;
    if emit::is_len(g, v, a) {
        assert(alike::same_expr(lw.m, env, v[0], w[0]));
        lemma_atom(lw, env, v[0], w[0], a, b, st);
    } else if emit::callee_ctor_view(lw, g, a) is Some {
        lemma_atoms(lw, env, v, w, v.len(), a, b, st);
    } else if g is Field {
        lemma_method(lw, env, e, f, a, b, st);
    } else {
        lemma_plain_call(lw, env, e, f, a, b, st);
    }
}

proof fn lemma_method(
    lw: LowererView,
    env: alike::Env,
    e: Expr,
    f: Expr,
    a: ScopeView,
    b: ScopeView,
    st: St,
)
    requires
        alike_scope::same_scope(env, a, b),
        alike::same_expr(lw.m, env, e, f),
        e is Call,
        *e->Call_0 is Field,
        !emit::is_len(*e->Call_0, e->Call_1@, a),
        emit::callee_ctor_view(lw, *e->Call_0, a) is None,
    ensures
        agree(emit::call_s(lw, e, a, st), emit::call_s(lw, f, b, st)),
    decreases e, 1nat, 0nat,
{
    lemma_call_parts(lw, env, e, f, a, b);
    alike_scope::lemma_allowed(env, a, b);
    let x = *(*e->Call_0)->Field_0;
    let y = *(*f->Call_0)->Field_0;
    let s = (*e->Call_0)->Field_1@;
    lemma_path(lw, env, x, y, s, a, b);
    lemma_atom(lw, env, x, y, a, b, st);
    assert(emit::method_ref(lw, a, s) == emit::method_ref(lw, b, s));
    match (emit::method_ref(lw, a, s), emit::atom_s(lw, x, a, st)) {
        (Ok(func), Ok((r, st1))) => {
            let (g1, st2) = scope::push_s(st1, CoreView::App { func, arg: r });
            let v = e->Call_1@;
            lemma_apply(lw, env, v, f->Call_1@, v.len(), g1, a, b, st2);
        },
        _ => {},
    }
}

proof fn lemma_plain_call(
    lw: LowererView,
    env: alike::Env,
    e: Expr,
    f: Expr,
    a: ScopeView,
    b: ScopeView,
    st: St,
)
    requires
        alike_scope::same_scope(env, a, b),
        alike::same_expr(lw.m, env, e, f),
        e is Call,
        !(*e->Call_0 is Field),
        !emit::is_len(*e->Call_0, e->Call_1@, a),
        emit::callee_ctor_view(lw, *e->Call_0, a) is None,
    ensures
        agree(emit::call_s(lw, e, a, st), emit::call_s(lw, f, b, st)),
    decreases e, 1nat, 0nat,
{
    lemma_call_parts(lw, env, e, f, a, b);
    lemma_callee(lw, env, e, f, a, b, st);
    match emit::callee_s(lw, e, a, st) {
        Ok((func, st1)) => {
            let v = e->Call_1@;
            lemma_apply(lw, env, v, f->Call_1@, v.len(), func, a, b, st1);
        },
        Err(_) => {},
    }
}

proof fn lemma_callee(
    lw: LowererView,
    env: alike::Env,
    e: Expr,
    f: Expr,
    a: ScopeView,
    b: ScopeView,
    st: St,
)
    requires
        alike_scope::same_scope(env, a, b),
        alike::same_expr(lw.m, env, e, f),
        e is Call,
    ensures
        agree(emit::callee_s(lw, e, a, st), emit::callee_s(lw, f, b, st)),
    decreases e, 0nat, 0nat,
{
    lemma_call_parts(lw, env, e, f, a, b);
    let g = *e->Call_0;
    lemma_atom(lw, env, g, *f->Call_0, a, b, st);
    match emit::free_name(g, a) {
        Some(name) => lemma_generic(lw, env, name, e->Call_1@, f->Call_1@, a, b, st.pend),
        None => {},
    }
}

proof fn lemma_apply(
    lw: LowererView,
    env: alike::Env,
    v: Seq<Expr>,
    w: Seq<Expr>,
    n: nat,
    func: AtomView,
    a: ScopeView,
    b: ScopeView,
    st: St,
)
    requires
        alike_scope::same_scope(env, a, b),
        alike::same_exprs(lw.m, env, v, w),
        n <= v.len(),
    ensures
        agree(emit::apply_s(lw, v, n, func, a, st), emit::apply_s(lw, w, n, func, b, st)),
    decreases v, 0nat, n,
{
    if n > 0 {
        let k = (n - 1) as nat;
        lemma_apply(lw, env, v, w, k, func, a, b, st);
        assert(agree(
            emit::applied_s(lw, v, k, func, a, st),
            emit::applied_s(lw, w, k, func, b, st),
        ));
        match emit::applied_s(lw, v, k, func, a, st) {
            Ok((_, st1)) => {
                assert(alike::same_expr(lw.m, env, v[n - 1], w[n - 1]));
                lemma_atom(lw, env, v[n - 1], w[n - 1], a, b, st1);
            },
            Err(_) => {},
        }
    }
}

// ---- collection literals --------------------------------------------------------------------------------------

proof fn lemma_collection(
    lw: LowererView,
    env: alike::Env,
    kind: Seq<char>,
    v: Seq<FieldInit>,
    w: Seq<FieldInit>,
    a: ScopeView,
    b: ScopeView,
    st: St,
)
    requires
        alike_scope::same_scope(env, a, b),
        alike::same_inits(lw.m, env, v, w),
    ensures
        agree(emit::collection_s(lw, kind, v, a, st), emit::collection_s(lw, kind, w, b, st)),
    decreases v, 2nat, 0nat,
{
    lemma_foreign(lw.m, env, v, w, kind);
    lemma_init_index(lw.m, env, v, w, "alloc"@);
    lemma_init_index(lw.m, env, v, w, "keys"@);
    lemma_init_index(lw.m, env, v, w, "values"@);
    lemma_init_index(lw.m, env, v, w, "items"@);
    match emit::init_index(v, "alloc"@) {
        None => {},
        Some(ai) => {
            match (emit::array_part(v, "keys"@), emit::array_part(v, "values"@)) {
                (Some(ki), Some(vi)) => lemma_map(lw, env, v, w, ai, ki, vi, a, b, st),
                _ => {},
            }
            match emit::array_part(v, "items"@) {
                Some(ii) => {
                    lemma_list(lw, env, v, w, ai, ii, a, b, st);
                    lemma_set(lw, env, v, w, ai, ii, a, b, st);
                },
                None => {},
            }
        },
    }
}

proof fn lemma_list(
    lw: LowererView,
    env: alike::Env,
    v: Seq<FieldInit>,
    w: Seq<FieldInit>,
    ai: int,
    ii: int,
    a: ScopeView,
    b: ScopeView,
    st: St,
)
    requires
        alike_scope::same_scope(env, a, b),
        alike::same_inits(lw.m, env, v, w),
    ensures
        agree(emit::list_s(lw, v, ai, ii, a, st), emit::list_s(lw, w, ai, ii, b, st)),
    decreases v, 1nat, 0nat,
{
    if 0 <= ai < v.len() && 0 <= ii < v.len() {
        assert(v[ai].name@ == w[ai].name@);
        assert(v[ii].name@ == w[ii].name@);
        lemma_atom(lw, env, v[ai].value, w[ai].value, a, b, st);
        match (v[ii].value, w[ii].value) {
            (Expr::Array(x), Expr::Array(y)) => {
                assert(alike::same_exprs(lw.m, env, x@, y@));
                lemma_elem(lw, env, x@, y@, a, b);
                match emit::atom_s(lw, v[ai].value, a, st) {
                    Ok((alloc, st1)) => {
                        let (list, st2) = scope::push_s(
                            st1,
                            CoreView::ListNew {
                                elem: emit::elem_view(lw, x@, a),
                                alloc,
                                capacity: emit::count_atom(x@.len()),
                            },
                        );
                        lemma_pushes(lw, env, x@, y@, x@.len(), alloc, list, a, b, st2);
                    },
                    Err(_) => {},
                }
            },
            _ => {},
        }
    }
}

proof fn lemma_pushes(
    lw: LowererView,
    env: alike::Env,
    v: Seq<Expr>,
    w: Seq<Expr>,
    n: nat,
    alloc: AtomView,
    list: AtomView,
    a: ScopeView,
    b: ScopeView,
    st: St,
)
    requires
        alike_scope::same_scope(env, a, b),
        alike::same_exprs(lw.m, env, v, w),
        n <= v.len(),
    ensures
        agree(
            emit::pushes_s(lw, v, n, alloc, list, a, st),
            emit::pushes_s(lw, w, n, alloc, list, b, st),
        ),
    decreases v, 0nat, n,
{
    if n > 0 {
        lemma_pushes(lw, env, v, w, (n - 1) as nat, alloc, list, a, b, st);
        match emit::pushes_s(lw, v, (n - 1) as nat, alloc, list, a, st) {
            Ok((_, st1)) => {
                assert(alike::same_expr(lw.m, env, v[n - 1], w[n - 1]));
                lemma_atom(lw, env, v[n - 1], w[n - 1], a, b, st1);
            },
            Err(_) => {},
        }
    }
}

proof fn lemma_set(
    lw: LowererView,
    env: alike::Env,
    v: Seq<FieldInit>,
    w: Seq<FieldInit>,
    ai: int,
    ii: int,
    a: ScopeView,
    b: ScopeView,
    st: St,
)
    requires
        alike_scope::same_scope(env, a, b),
        alike::same_inits(lw.m, env, v, w),
    ensures
        agree(emit::set_s(lw, v, ai, ii, a, st), emit::set_s(lw, w, ai, ii, b, st)),
    decreases v, 1nat, 0nat,
{
    if 0 <= ai < v.len() && 0 <= ii < v.len() {
        assert(v[ai].name@ == w[ai].name@);
        assert(v[ii].name@ == w[ii].name@);
        lemma_atom(lw, env, v[ai].value, w[ai].value, a, b, st);
        match (v[ii].value, w[ii].value) {
            (Expr::Array(x), Expr::Array(y)) => {
                assert(alike::same_exprs(lw.m, env, x@, y@));
                match emit::atom_s(lw, v[ai].value, a, st) {
                    Ok((alloc, st1)) => {
                        let (set, st2) = emit::call2_s(
                            "std.collections.set_with_capacity"@,
                            alloc,
                            emit::count_atom(x@.len()),
                            st1,
                        );
                        lemma_inserts(lw, env, x@, y@, x@.len(), alloc, set, a, b, st2);
                    },
                    Err(_) => {},
                }
            },
            _ => {},
        }
    }
}

proof fn lemma_inserts(
    lw: LowererView,
    env: alike::Env,
    v: Seq<Expr>,
    w: Seq<Expr>,
    n: nat,
    alloc: AtomView,
    set: AtomView,
    a: ScopeView,
    b: ScopeView,
    st: St,
)
    requires
        alike_scope::same_scope(env, a, b),
        alike::same_exprs(lw.m, env, v, w),
        n <= v.len(),
    ensures
        agree(
            emit::inserts_s(lw, v, n, alloc, set, a, st),
            emit::inserts_s(lw, w, n, alloc, set, b, st),
        ),
    decreases v, 0nat, n,
{
    if n > 0 {
        lemma_inserts(lw, env, v, w, (n - 1) as nat, alloc, set, a, b, st);
        match emit::inserts_s(lw, v, (n - 1) as nat, alloc, set, a, st) {
            Ok((_, st1)) => {
                assert(alike::same_expr(lw.m, env, v[n - 1], w[n - 1]));
                lemma_atom(lw, env, v[n - 1], w[n - 1], a, b, st1);
            },
            Err(_) => {},
        }
    }
}

proof fn lemma_map(
    lw: LowererView,
    env: alike::Env,
    v: Seq<FieldInit>,
    w: Seq<FieldInit>,
    ai: int,
    ki: int,
    vi: int,
    a: ScopeView,
    b: ScopeView,
    st: St,
)
    requires
        alike_scope::same_scope(env, a, b),
        alike::same_inits(lw.m, env, v, w),
        0 <= ki < v.len(),
        0 <= vi < v.len(),
    ensures
        agree(emit::map_s(lw, v, ai, ki, vi, a, st), emit::map_s(lw, w, ai, ki, vi, b, st)),
    decreases v, 1nat, 0nat,
{
    assert(v[ki].name@ == w[ki].name@);
    assert(v[vi].name@ == w[vi].name@);
    let keys = emit::part(v, ki);
    let values = emit::part(v, vi);
    assert(alike::same_exprs(lw.m, env, keys, emit::part(w, ki)));
    assert(alike::same_exprs(lw.m, env, values, emit::part(w, vi)));
    lemma_elem(lw, env, keys, emit::part(w, ki), a, b);
    lemma_elem(lw, env, values, emit::part(w, vi), a, b);
    if 0 <= ai < v.len() {
        assert(v[ai].name@ == w[ai].name@);
        lemma_atom(lw, env, v[ai].value, w[ai].value, a, b, st);
        match emit::atom_s(lw, v[ai].value, a, st) {
            Ok((alloc, st1)) => {
                let (list, st2) = scope::push_s(
                    st1,
                    CoreView::ListNew {
                        elem: TypeView::Nominal {
                            def: hash::symbol_id("std.collections.Entry"@),
                            args: seq![
                                emit::elem_view(lw, keys, a),
                                emit::elem_view(lw, values, a),
                            ],
                        },
                        alloc,
                        capacity: emit::count_atom(keys.len()),
                    },
                );
                lemma_entries(lw, env, v, w, ki, vi, keys.len(), alloc, list, a, b, st2);
            },
            Err(_) => {},
        }
    }
}

proof fn lemma_entries(
    lw: LowererView,
    env: alike::Env,
    v: Seq<FieldInit>,
    w: Seq<FieldInit>,
    ki: int,
    vi: int,
    n: nat,
    alloc: AtomView,
    list: AtomView,
    a: ScopeView,
    b: ScopeView,
    st: St,
)
    requires
        alike_scope::same_scope(env, a, b),
        alike::same_inits(lw.m, env, v, w),
        0 <= ki < v.len(),
        0 <= vi < v.len(),
    ensures
        agree(
            emit::entries_s(lw, v, ki, vi, n, alloc, list, a, st),
            emit::entries_s(lw, w, ki, vi, n, alloc, list, b, st),
        ),
    decreases v, 0nat, n,
{
    assert(v[ki].name@ == w[ki].name@);
    assert(v[vi].name@ == w[vi].name@);
    let keys = emit::part(v, ki);
    let values = emit::part(v, vi);
    let keys2 = emit::part(w, ki);
    let values2 = emit::part(w, vi);
    assert(alike::same_exprs(lw.m, env, keys, keys2));
    assert(alike::same_exprs(lw.m, env, values, values2));
    if n > 0 && n <= keys.len() && n <= values.len() {
        lemma_entries(lw, env, v, w, ki, vi, (n - 1) as nat, alloc, list, a, b, st);
        match emit::entries_s(lw, v, ki, vi, (n - 1) as nat, alloc, list, a, st) {
            Ok((_, st1)) => {
                assert(alike::same_expr(lw.m, env, keys[n - 1], keys2[n - 1]));
                lemma_atom(lw, env, keys[n - 1], keys2[n - 1], a, b, st1);
                match emit::atom_s(lw, keys[n - 1], a, st1) {
                    Ok((_, st2)) => {
                        assert(alike::same_expr(lw.m, env, values[n - 1], values2[n - 1]));
                        lemma_atom(lw, env, values[n - 1], values2[n - 1], a, b, st2);
                    },
                    Err(_) => {},
                }
            },
            Err(_) => {},
        }
    }
}

} // verus!
