//! Targets, loop invariants and carried variables of sources that differ in the
//! names of locals only.
use vstd::prelude::*;

use crate::alike;
use crate::alike_assign;
use crate::alike_expr;
use crate::alike_scope;
use crate::assign;
use crate::blocks;
use crate::blocks::{CarryView, GoalView};
use crate::contract;
use crate::contract::NamesView;
use crate::decls;
use crate::emit;
use crate::find;
use crate::hash;
use crate::ir::{AtomView, CoreView};
use crate::lower_error::LowerErrorView;
use crate::resolve;
use crate::scope;
use crate::scope::{BindView, LowererView, ScopeView, St};
use crate::syntax::{Expr, LValue, Module};

verus! {

/// Scopes and states that are alike, or both failures.
pub open spec fn agree_scope(
    env: alike::Env,
    r: Result<(ScopeView, St), LowerErrorView>,
    s: Result<(ScopeView, St), LowerErrorView>,
) -> bool {
    match (r, s) {
        (Ok((a, st)), Ok((b, st2))) => alike_scope::same_scope(env, a, b) && st == st2,
        (Err(_), Err(_)) => true,
        _ => false,
    }
}

// ---- loop invariants ------------------------------------------------------------------------------------

proof fn lemma_operand(
    m: Module,
    env: alike::Env,
    e: Expr,
    f: Expr,
    a: ScopeView,
    b: ScopeView,
)
    requires
        alike_scope::same_scope(env, a, b),
        alike::same_expr(m, env, e, f),
    ensures
        alike_expr::agree(
            contract::operand_s(e, NamesView::Local(a)),
            contract::operand_s(f, NamesView::Local(b)),
        ),
{
    match (e, f) {
        (Expr::Var(x), Expr::Var(y)) => {
            assert(alike_scope::linked(env, x@, y@));
            alike_scope::lemma_local(env, a, b, x@, y@);
        },
        _ => {},
    }
}

proof fn lemma_pred(
    m: Module,
    env: alike::Env,
    e: Expr,
    f: Expr,
    a: ScopeView,
    b: ScopeView,
)
    requires
        alike_scope::same_scope(env, a, b),
        alike::same_expr(m, env, e, f),
    ensures
        alike_expr::agree(
            contract::pred_s(e, NamesView::Local(a)),
            contract::pred_s(f, NamesView::Local(b)),
        ),
    decreases e,
{
    match (e, f) {
        (Expr::Binary(l, _, r), Expr::Binary(l2, _, r2)) => {
            lemma_pred(m, env, *l, *l2, a, b);
            lemma_pred(m, env, *r, *r2, a, b);
            lemma_operand(m, env, *l, *l2, a, b);
            lemma_operand(m, env, *r, *r2, a, b);
        },
        (Expr::Unary(_, x), Expr::Unary(_, y)) => lemma_pred(m, env, *x, *y, a, b),
        _ => {},
    }
}

/// Invariants that are alike are the same predicate.
pub proof fn lemma_invariant(
    m: Module,
    env: alike::Env,
    v: Seq<Expr>,
    w: Seq<Expr>,
    n: nat,
    a: ScopeView,
    b: ScopeView,
)
    requires
        alike_scope::same_scope(env, a, b),
        alike::same_exprs(m, env, v, w),
        n <= v.len(),
    ensures
        alike_expr::agree(contract::invariant_s(v, n, a), contract::invariant_s(w, n, b)),
    decreases n,
{
    if n > 0 {
        lemma_invariant(m, env, v, w, (n - 1) as nat, a, b);
        assert(alike::same_expr(m, env, v[n - 1], w[n - 1]));
        lemma_pred(m, env, v[n - 1], w[n - 1], a, b);
    }
}

// ---- targets ------------------------------------------------------------------------------------------------

proof fn lemma_target_type(
    lw: LowererView,
    env: alike::Env,
    t: LValue,
    u: LValue,
    a: ScopeView,
    b: ScopeView,
)
    requires
        alike_scope::same_scope(env, a, b),
        alike::same_target(lw.m, env, t, u),
    ensures
        assign::target_type(lw, t, a) == assign::target_type(lw, u, b),
    decreases t,
{
    match (t, u) {
        (LValue::Var(x), LValue::Var(y)) => {
            assert(alike_scope::linked(env, x@, y@));
            alike_scope::lemma_local(env, a, b, x@, y@);
        },
        (LValue::Field(x, _), LValue::Field(y, _)) => lemma_target_type(lw, env, *x, *y, a, b),
        (LValue::Index(x, _), LValue::Index(y, _)) => lemma_target_type(lw, env, *x, *y, a, b),
        _ => {},
    }
}

proof fn lemma_target(
    lw: LowererView,
    env: alike::Env,
    t: LValue,
    u: LValue,
    a: ScopeView,
    b: ScopeView,
    st: St,
)
    requires
        alike_scope::same_scope(env, a, b),
        alike::same_target(lw.m, env, t, u),
    ensures
        alike_expr::agree(assign::target_s(lw, t, a, st), assign::target_s(lw, u, b, st)),
    decreases t,
{
    match (t, u) {
        (LValue::Var(x), LValue::Var(y)) => {
            assert(alike_scope::linked(env, x@, y@));
            alike_expr::lemma_var(lw, env, x@, y@, a, b, st);
        },
        (LValue::Field(x, _), LValue::Field(y, _)) => {
            lemma_target(lw, env, *x, *y, a, b, st);
            lemma_target_type(lw, env, *x, *y, a, b);
        },
        (LValue::Index(x, i), LValue::Index(y, j)) => {
            lemma_target(lw, env, *x, *y, a, b, st);
            match assign::target_s(lw, *x, a, st) {
                Ok((_, st1)) => alike_expr::lemma_atom(lw, env, *i, *j, a, b, st1),
                Err(_) => {},
            }
        },
        _ => {},
    }
}

/// Stores into targets that are alike leave scopes that are alike.
pub proof fn lemma_assign(
    lw: LowererView,
    env: alike::Env,
    t: LValue,
    u: LValue,
    new: AtomView,
    a: ScopeView,
    b: ScopeView,
    st: St,
)
    requires
        alike_scope::same_scope(env, a, b),
        alike::same_target(lw.m, env, t, u),
    ensures
        agree_scope(env, assign::assign_s(lw, t, new, a, st), assign::assign_s(lw, u, new, b, st)),
    decreases t,
{
    match (t, u) {
        (LValue::Var(x), LValue::Var(y)) => {
            assert(alike_scope::linked(env, x@, y@));
            alike_scope::lemma_local(env, a, b, x@, y@);
            match (scope::local(a, x@), scope::local(b, y@)) {
                (Some(p), Some(q)) => {
                    alike_scope::lemma_known(env, a, b, x@);
                    alike_scope::lemma_rebind(
                        env,
                        a,
                        b,
                        BindView { atom: new, ..p },
                        BindView { atom: new, ..q },
                    );
                },
                _ => {},
            }
        },
        (LValue::Field(x, s), LValue::Field(y, _)) => {
            lemma_target_type(lw, env, *x, *y, a, b);
            lemma_target(lw, env, *x, *y, a, b, st);
            match (
                resolve::projection(lw, assign::target_type(lw, *x, a), s@),
                assign::target_s(lw, *x, a, st),
            ) {
                (Ok((s, at)), Ok((base, st1))) => {
                    let n = match decls::struct_named(lw.m, s) {
                        Some(d) => d.fields@.len(),
                        None => 0,
                    };
                    let (fields, st2) = assign::rebuilt_s(base, at, new, n, st1);
                    let (whole, st3) = scope::push_s(
                        st2,
                        CoreView::Ctor {
                            ty: hash::symbol_id(resolve::struct_qual(lw, s)),
                            tag: 0,
                            fields,
                        },
                    );
                    lemma_assign(lw, env, *x, *y, whole, a, b, st3);
                },
                _ => {},
            }
        },
        (LValue::Index(x, i), LValue::Index(y, j)) => {
            lemma_target_type(lw, env, *x, *y, a, b);
            lemma_target(lw, env, *x, *y, a, b, st);
            match (assign::peeled(assign::target_type(lw, *x, a)), assign::target_s(lw, *x, a, st)) {
                (Some(ty), Ok((base, st1))) => {
                    alike_expr::lemma_atom(lw, env, *i, *j, a, b, st1);
                    match emit::atom_s(lw, *i, a, st1) {
                        Ok((index, st2)) => match assign::element_s(lw, ty, base, index, new, st2) {
                            Some((whole, st3)) => lemma_assign(
                                lw,
                                env,
                                *x,
                                *y,
                                whole,
                                a,
                                b,
                                st3,
                            ),
                            None => {},
                        },
                        Err(_) => {},
                    }
                },
                _ => {},
            }
        },
        _ => {},
    }
}

// ---- carried variables ------------------------------------------------------------------------------------------

/// A binding of a declaration in scope, on both sides.
pub open spec fn same_var(
    env: alike::Env,
    a: ScopeView,
    b: ScopeView,
    p: BindView,
    q: BindView,
) -> bool {
    &&& alike_scope::same_bind(p, q)
    &&& alike_scope::linked(env, p.name, q.name)
    &&& p.decl < a.binds.len()
    &&& p.decl < b.binds.len()
    &&& a.binds[p.decl as int].name == p.name
    &&& b.binds[p.decl as int].name == q.name
    &&& p.mutable
    &&& alike_scope::settled(env, p)
}

pub open spec fn same_vars(
    env: alike::Env,
    a: ScopeView,
    b: ScopeView,
    v: Seq<BindView>,
    w: Seq<BindView>,
) -> bool {
    &&& v.len() == w.len()
    &&& forall|i: int| 0 <= i < v.len() ==> same_var(env, a, b, #[trigger] v[i], w[i])
}

/// Whether the same hidden names are assigned.
pub open spec fn same_hidden(p: spec_fn(Seq<char>) -> bool, q: spec_fn(Seq<char>) -> bool) -> bool {
    forall|x: Seq<char>| alike::hidden(x) ==> #[trigger] p(x) == q(x)
}

proof fn lemma_carried_at(
    env: alike::Env,
    a: ScopeView,
    b: ScopeView,
    p: spec_fn(Seq<char>) -> bool,
    q: spec_fn(Seq<char>) -> bool,
    i: int,
)
    requires
        alike_scope::same_scope(env, a, b),
        alike::same_carried(env, p, q),
        same_hidden(p, q),
        0 <= i < a.binds.len(),
    ensures
        match (blocks::carried_at(a, p, i), blocks::carried_at(b, q, i)) {
            (Some(x), Some(y)) => same_var(env, a, b, x, y),
            (None, None) => true,
            _ => false,
        },
{
    alike_scope::lemma_allowed(env, a, b);
    match blocks::carried_at(a, p, i) {
        Some(x) => {
            lemma_named(a, i);
            alike_scope::lemma_known(env, a, b, x.name);
            let y = alike::renamed(env, x.name);
            assert(p(x.name));
            if alike::hidden(x.name) {
                alike_scope::lemma_hidden(env, a, b, x.name);
            }
            assert(q(y));
            assert(alike_scope::linked(env, x.name, y));
            alike_scope::lemma_local(env, a, b, x.name, y);
        },
        None => {},
    }
    match blocks::carried_at(b, q, i) {
        Some(y) => {
            lemma_named(b, i);
            alike_scope::lemma_known(env, a, b, y.name);
            let x = alike_assign::unrenamed(env, y.name);
            assert(q(y.name));
            if alike::hidden(y.name) {
                alike_scope::lemma_hidden(env, a, b, y.name);
            }
            assert(p(x));
            assert(alike_scope::linked(env, x, y.name));
            alike_scope::lemma_local(env, a, b, x, y.name);
            lemma_named(a, i);
        },
        None => {},
    }
}

/// A bound name has a binding, which has that name.
proof fn lemma_named(sc: ScopeView, i: int)
    requires
        0 <= i < sc.binds.len(),
    ensures
        scope::local(sc, sc.binds[i].name) is Some,
        (scope::local(sc, sc.binds[i].name)->0).name == sc.binds[i].name,
{
    let p = scope::binds_name(sc, sc.binds[i].name);
    find::lemma_last_below(p, sc.binds.len() as int);
    assert(p(i));
}

/// The variables that two loops carry, if they carry the same.
pub proof fn lemma_carried(
    env: alike::Env,
    a: ScopeView,
    b: ScopeView,
    p: spec_fn(Seq<char>) -> bool,
    q: spec_fn(Seq<char>) -> bool,
    n: nat,
)
    requires
        alike_scope::same_scope(env, a, b),
        alike::same_carried(env, p, q),
        same_hidden(p, q),
        n <= a.binds.len(),
    ensures
        same_vars(env, a, b, blocks::carried(a, p, n), blocks::carried(b, q, n)),
    decreases n,
{
    if n > 0 {
        lemma_carried(env, a, b, p, q, (n - 1) as nat);
        lemma_carried_at(env, a, b, p, q, n - 1);
    }
}

/// Carried variables that differ in their names only.
pub open spec fn same_carries(
    env: alike::Env,
    a: ScopeView,
    b: ScopeView,
    v: Seq<CarryView>,
    w: Seq<CarryView>,
) -> bool {
    &&& v.len() == w.len()
    &&& forall|i: int|
        0 <= i < v.len() ==> (#[trigger] v[i]).atom == w[i].atom && same_var(
            env,
            a,
            b,
            blocks::rebind(v[i], v[i].atom),
            blocks::rebind(w[i], w[i].atom),
        )
}

pub proof fn lemma_header(
    env: alike::Env,
    a: ScopeView,
    b: ScopeView,
    v: Seq<BindView>,
    w: Seq<BindView>,
    depth: u32,
)
    requires
        same_vars(env, a, b, v, w),
    ensures
        same_carries(env, a, b, blocks::header(v, depth), blocks::header(w, depth)),
        blocks::atoms_of(v) == blocks::atoms_of(w),
{
    let x = blocks::header(v, depth);
    let y = blocks::header(w, depth);
    assert forall|i: int| 0 <= i < x.len() implies (#[trigger] x[i]).atom == y[i].atom && same_var(
        env,
        a,
        b,
        blocks::rebind(x[i], x[i].atom),
        blocks::rebind(y[i], y[i].atom),
    ) by {
        assert(same_var(env, a, b, v[i], w[i]));
    }
    assert forall|i: int| 0 <= i < v.len() implies (#[trigger] v[i]).atom == w[i].atom by {
        assert(same_var(env, a, b, v[i], w[i]));
    }
    assert(blocks::atoms_of(v) =~= blocks::atoms_of(w));
}

/// Whether a scope begins with another one.
pub open spec fn extends(sc: ScopeView, more: ScopeView) -> bool {
    &&& sc.binds.len() <= more.binds.len()
    &&& forall|i: int| 0 <= i < sc.binds.len() ==> #[trigger] more.binds[i] == sc.binds[i]
}

/// Scopes inside two loops that are alike.
pub proof fn lemma_inside(
    env: alike::Env,
    a: ScopeView,
    b: ScopeView,
    v: Seq<CarryView>,
    w: Seq<CarryView>,
    n: nat,
)
    requires
        alike_scope::same_scope(env, a, b),
        same_carries(env, a, b, v, w),
        n <= v.len(),
    ensures
        alike_scope::same_scope(env, blocks::inside(a, v, n), blocks::inside(b, w, n)),
        extends(a, blocks::inside(a, v, n)),
        extends(b, blocks::inside(b, w, n)),
    decreases n,
{
    if n > 0 {
        lemma_inside(env, a, b, v, w, (n - 1) as nat);
        let p = blocks::rebind(v[n - 1], v[n - 1].atom);
        let q = blocks::rebind(w[n - 1], w[n - 1].atom);
        assert(v[n - 1].atom == w[n - 1].atom);
        assert(same_var(env, a, b, p, q));
        alike_scope::lemma_rebind(
            env,
            blocks::inside(a, v, (n - 1) as nat),
            blocks::inside(b, w, (n - 1) as nat),
            p,
            q,
        );
    }
}

/// Scopes after two loops that are alike.
pub proof fn lemma_after(
    env: alike::Env,
    a: ScopeView,
    b: ScopeView,
    v: Seq<CarryView>,
    w: Seq<CarryView>,
    n: nat,
    whole: AtomView,
    st: St,
)
    requires
        alike_scope::same_scope(env, a, b),
        same_carries(env, a, b, v, w),
        n <= v.len(),
    ensures
        alike_scope::same_scope(
            env,
            blocks::after_s(a, v, n, whole, st).0,
            blocks::after_s(b, w, n, whole, st).0,
        ),
        blocks::after_s(a, v, n, whole, st).1 == blocks::after_s(b, w, n, whole, st).1,
        extends(a, blocks::after_s(a, v, n, whole, st).0),
        extends(b, blocks::after_s(b, w, n, whole, st).0),
    decreases n,
{
    if n > 0 {
        lemma_after(env, a, b, v, w, (n - 1) as nat, whole, st);
        let (a1, st1) = blocks::after_s(a, v, (n - 1) as nat, whole, st);
        let (b1, _) = blocks::after_s(b, w, (n - 1) as nat, whole, st);
        let (atom, _) = scope::push_s(
            st1,
            CoreView::Proj { base: whole, idx: ((n - 1) as usize) as u32 },
        );
        assert(v[n - 1].atom == w[n - 1].atom);
        assert(same_var(
            env,
            a,
            b,
            blocks::rebind(v[n - 1], v[n - 1].atom),
            blocks::rebind(w[n - 1], w[n - 1].atom),
        ));
        alike_scope::lemma_rebind(
            env,
            a1,
            b1,
            blocks::rebind(v[n - 1], atom),
            blocks::rebind(w[n - 1], atom),
        );
    }
}

/// Goals that are alike.
pub open spec fn same_goal(g: GoalView, h: GoalView) -> bool {
    match (g, h) {
        (GoalView::Value, GoalView::Value) => true,
        (GoalView::Next(v), GoalView::Next(w)) => {
            &&& v.len() == w.len()
            &&& forall|i: int|
                0 <= i < v.len() ==> (#[trigger] v[i]).atom == w[i].atom && v[i].decl == w[i].decl
        },
        _ => false,
    }
}

pub proof fn lemma_goal(
    env: alike::Env,
    a: ScopeView,
    b: ScopeView,
    v: Seq<CarryView>,
    w: Seq<CarryView>,
)
    requires
        same_carries(env, a, b, v, w),
    ensures
        same_goal(GoalView::Next(v), GoalView::Next(w)),
{
    assert forall|i: int| 0 <= i < v.len() implies (#[trigger] v[i]).atom == w[i].atom && v[i].decl
        == w[i].decl by {
        assert(same_var(
            env,
            a,
            b,
            blocks::rebind(v[i], v[i].atom),
            blocks::rebind(w[i], w[i].atom),
        ));
    }
}

/// Goals that are alike yield the same where nothing is computed.
pub proof fn lemma_nothing(
    env: alike::Env,
    g: GoalView,
    h: GoalView,
    a: ScopeView,
    b: ScopeView,
)
    requires
        alike_scope::same_scope(env, a, b),
        same_goal(g, h),
    ensures
        blocks::nothing_s(g, a) == blocks::nothing_s(h, b),
{
    match (g, h) {
        (GoalView::Next(v), GoalView::Next(w)) => {
            assert forall|i: int| 0 <= i < v.len() implies scope::latest(
                a,
                (#[trigger] v[i]).decl,
                v[i].atom,
            ) == scope::latest(b, w[i].decl, w[i].atom) by {
                alike_scope::lemma_latest(env, a, b, v[i].decl, v[i].atom);
            }
            assert(blocks::next_view(v, a)->Ctor_fields =~= blocks::next_view(w, b)->Ctor_fields);
        },
        _ => {},
    }
}

} // verus!
