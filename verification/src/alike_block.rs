//! Functions that differ in the names of parameters and locals only are the same
//! definition.
use vstd::prelude::*;

use crate::alike;
use crate::alike_assign;
use crate::alike_expr;
use crate::alike_loop;
use crate::alike_scope;
use crate::blocks;
use crate::blocks::{CarryView, GoalView, SlotsView};
use crate::contract;
use crate::contract::NamesView;
use crate::decls;
use crate::emit;
use crate::indices;
use crate::ir::{AtomView, CoreView, LiteralView, PredView, PrimOp};
use crate::lower;
use crate::resolve;
use crate::scope;
use crate::scope::{BindView, LowererView, PendView, ScopeView, St};
use crate::surface;
use crate::syntax;
use crate::syntax::{Arm, ArmBody, Block, Else, Expr, FieldPat, FnDecl, IfExpr, MatchExpr, Module, Pattern, STypeView, Stmt, Tail};

verus! {

// ---- statements ------------------------------------------------------------------------------------------

proof fn lemma_yield(
    lw: LowererView,
    env: alike::Env,
    e: Expr,
    f: Expr,
    g: GoalView,
    h: GoalView,
    a: ScopeView,
    b: ScopeView,
    st: St,
)
    requires
        alike_scope::same_scope(env, a, b),
        alike::same_expr(lw.m, env, e, f),
        alike_loop::same_goal(g, h),
    ensures
        alike_expr::agree(blocks::yield_s(lw, e, g, a, st), blocks::yield_s(lw, f, h, b, st)),
        alike_expr::agree(
            blocks::return_s(lw, Some(e), g, a, st),
            blocks::return_s(lw, Some(f), h, b, st),
        ),
{
    alike_expr::lemma_tail(lw, env, e, f, a, b, st);
    alike_expr::lemma_atom(lw, env, e, f, a, b, st);
    alike_loop::lemma_nothing(env, g, h, a, b);
}

proof fn lemma_let(
    lw: LowererView,
    env: alike::Env,
    x: Seq<char>,
    y: Seq<char>,
    ty: Option<STypeView>,
    e: Expr,
    f: Expr,
    mutable: bool,
    a: ScopeView,
    b: ScopeView,
    st: St,
)
    requires
        alike_scope::same_scope(env, a, b),
        alike::same_expr(lw.m, env, e, f),
        alike::both_declare(x, y),
    ensures
        alike_loop::agree_scope(
            env.push((x, y, mutable)),
            blocks::let_s(lw, x, ty, e, mutable, a, st),
            blocks::let_s(lw, y, ty, f, mutable, b, st),
        ),
{
    alike_expr::lemma_atom(lw, env, e, f, a, b, st);
    alike_expr::lemma_expr_type(lw, env, e, f, a, b);
    match emit::atom_s(lw, e, a, st) {
        Ok((atom, _)) => {
            let t = match ty {
                Some(t) => Some(t),
                None => resolve::expr_type(lw, e, a),
            };
            lemma_declared(env, x, y, atom, t, mutable, a, b);
        },
        Err(_) => {},
    }
}

proof fn lemma_declared(
    env: alike::Env,
    x: Seq<char>,
    y: Seq<char>,
    atom: AtomView,
    ty: Option<STypeView>,
    mutable: bool,
    a: ScopeView,
    b: ScopeView,
)
    requires
        alike_scope::same_scope(env, a, b),
        alike::both_declare(x, y),
    ensures
        alike_scope::same_scope(
            env.push((x, y, mutable)),
            blocks::declare(a, x, atom, ty, mutable),
            blocks::declare(b, y, atom, ty, mutable),
        ),
{
    alike_scope::lemma_allowed(env, a, b);
    alike_scope::lemma_declare(
        env,
        a,
        b,
        BindView { name: x, atom, ty, mutable, decl: a.binds.len() },
        BindView { name: y, atom, ty, mutable, decl: b.binds.len() },
    );
}

proof fn lemma_stmts(
    lw: LowererView,
    env: alike::Env,
    v: Seq<Stmt>,
    w: Seq<Stmt>,
    n: nat,
    a: ScopeView,
    b: ScopeView,
    st: St,
)
    requires
        alike_scope::same_scope(env, a, b),
        v.len() == w.len(),
        n <= v.len(),
        alike::same_stmts(lw.m, env, v, w, n),
    ensures
        alike_loop::agree_scope(
            alike::env_after(env, v, w, n),
            blocks::stmts_s(lw, v, n, a, st),
            blocks::stmts_s(lw, w, n, b, st),
        ),
    decreases v, 0nat, n,
{
    if n > 0 {
        let k = (n - 1) as nat;
        lemma_stmts(lw, env, v, w, k, a, b, st);
        let before = alike::env_after(env, v, w, k);
        match (blocks::stmts_s(lw, v, k, a, st), blocks::stmts_s(lw, w, k, b, st)) {
            (Ok((a1, st1)), Ok((b1, _))) => {
                lemma_stmt(lw, before, v[n - 1], w[n - 1], a1, b1, st1);
            },
            _ => {},
        }
    }
}

proof fn lemma_stmt(
    lw: LowererView,
    env: alike::Env,
    s: Stmt,
    t: Stmt,
    a: ScopeView,
    b: ScopeView,
    st: St,
)
    requires
        alike_scope::same_scope(env, a, b),
        alike::same_stmt(lw.m, env, s, t),
    ensures
        alike_loop::agree_scope(
            alike::env_step(env, s, t),
            blocks::stmt_s(lw, s, a, st),
            blocks::stmt_s(lw, t, b, st),
        ),
    decreases s, 1nat, 0nat,
{
    match (s, t) {
        (
            Stmt::Let { name: x, ty: p, value: e },
            Stmt::Let { name: y, ty: q, value: f },
        ) => lemma_let(lw, env, x@, y@, syntax::opt_stype_view(p), e, f, false, a, b, st),
        (
            Stmt::Var { name: x, ty: p, value: e },
            Stmt::Var { name: y, ty: q, value: f },
        ) => lemma_let(lw, env, x@, y@, syntax::opt_stype_view(p), e, f, true, a, b, st),
        (Stmt::Assign { target: x, value: e }, Stmt::Assign { target: y, value: f }) => {
            alike_expr::lemma_atom(lw, env, e, f, a, b, st);
            match emit::atom_s(lw, e, a, st) {
                Ok((atom, st1)) => alike_loop::lemma_assign(lw, env, x, y, atom, a, b, st1),
                Err(_) => {},
            }
        },
        (Stmt::While { .. }, Stmt::While { .. }) => lemma_while(lw, env, s, t, a, b, st),
        (Stmt::For { .. }, Stmt::For { .. }) => lemma_for(lw, env, s, t, a, b, st),
        _ => {},
    }
}

// ---- loops -------------------------------------------------------------------------------------------------

proof fn lemma_while_carries(m: Module, env: alike::Env, s: Stmt, t: Stmt)
    requires
        alike::same_stmt(m, env, s, t),
        s is While,
    ensures
        alike::same_carried(
            env,
            blocks::while_assigns(s->While_body),
            blocks::while_assigns(t->While_body),
        ),
        alike_loop::same_hidden(
            blocks::while_assigns(s->While_body),
            blocks::while_assigns(t->While_body),
        ),
{
    let p = blocks::while_assigns(s->While_body);
    let q = blocks::while_assigns(t->While_body);
    let p0 = alike::stmt_assigns(s);
    let q0 = alike::stmt_assigns(t);
    assert(alike::same_carried(env, p0, q0));
    assert forall|i: int| 0 <= i < env.len() && (#[trigger] env[i]).2 implies (alike::left_at(
        env,
        env[i].0,
    ) == Some(i) && p(env[i].0)) == (alike::right_at(env, env[i].1) == Some(i) && q(env[i].1)) by {
        assert(p(env[i].0) == p0(env[i].0));
        assert(q(env[i].1) == q0(env[i].1));
    }
    assert forall|x: Seq<char>| alike::hidden(x) implies #[trigger] p(x) == q(x) by {
        alike_assign::lemma_plain_block(m, env, s->While_body, t->While_body, x);
    }
}

proof fn lemma_while(
    lw: LowererView,
    env: alike::Env,
    s: Stmt,
    t: Stmt,
    a: ScopeView,
    b: ScopeView,
    st: St,
)
    requires
        alike_scope::same_scope(env, a, b),
        alike::same_stmt(lw.m, env, s, t),
        s is While,
    ensures
        alike_loop::agree_scope(env, blocks::while_s(lw, s, a, st), blocks::while_s(lw, t, b, st)),
    decreases s, 0nat, 0nat,
{
    let k = s->While_body;
    let l = t->While_body;
    alike_scope::lemma_allowed(env, a, b);
    lemma_while_carries(lw.m, env, s, t);
    let vars = blocks::carried(a, blocks::while_assigns(k), a.binds.len());
    let vars2 = blocks::carried(b, blocks::while_assigns(l), b.binds.len());
    alike_loop::lemma_carried(
        env,
        a,
        b,
        blocks::while_assigns(k),
        blocks::while_assigns(l),
        a.binds.len(),
    );
    let head = blocks::header(vars, scope::depth_s(st));
    let head2 = blocks::header(vars2, scope::depth_s(st));
    alike_loop::lemma_header(env, a, b, vars, vars2, scope::depth_s(st));
    alike_loop::lemma_inside(env, a, b, head, head2, head.len());
    alike_loop::lemma_goal(env, a, b, head, head2);
    let inner = blocks::inside(a, head, head.len());
    let inner2 = blocks::inside(b, head2, head2.len());
    let base = indices::add32(scope::depth_s(st), (vars.len() as usize) as u32);
    alike_expr::lemma_tail(
        lw,
        env,
        s->While_cond,
        t->While_cond,
        inner,
        inner2,
        scope::open_s(base, st.pend),
    );
    let v = s->invariants@;
    let w = t->invariants@;
    alike_loop::lemma_invariant(lw.m, env, v, w, v.len(), inner, inner2);
    match (
        blocks::closed_s(
            emit::tail_s(lw, s->While_cond, inner, scope::open_s(base, st.pend)),
        ),
        contract::invariant_s(v, v.len(), inner),
    ) {
        (Ok((c, pend1)), Ok(inv)) => {
            lemma_block(
                lw,
                env,
                k,
                l,
                GoalView::Next(head),
                GoalView::Next(head2),
                inner,
                inner2,
                base,
                pend1,
            );
            match blocks::block_s(lw, k, GoalView::Next(head), inner, base, pend1) {
                Ok((body, pend2)) => lemma_loop(
                    env,
                    a,
                    b,
                    vars,
                    vars2,
                    head,
                    head2,
                    inv,
                    c,
                    body,
                    St { pend: pend2, ..st },
                ),
                Err(_) => {},
            }
        },
        _ => {},
    }
}

proof fn lemma_loop(
    env: alike::Env,
    a: ScopeView,
    b: ScopeView,
    vars: Seq<BindView>,
    vars2: Seq<BindView>,
    head: Seq<CarryView>,
    head2: Seq<CarryView>,
    inv: Option<PredView>,
    cond: CoreView,
    body: CoreView,
    st: St,
)
    requires
        alike_scope::same_scope(env, a, b),
        alike_loop::same_carries(env, a, b, head, head2),
        blocks::atoms_of(vars) == blocks::atoms_of(vars2),
    ensures
        alike_scope::same_scope(
            env,
            blocks::loop_s(vars, head, inv, cond, body, a, st).0,
            blocks::loop_s(vars2, head2, inv, cond, body, b, st).0,
        ),
        blocks::loop_s(vars, head, inv, cond, body, a, st).1 == blocks::loop_s(
            vars2,
            head2,
            inv,
            cond,
            body,
            b,
            st,
        ).1,
{
    let (whole, st1) = scope::push_s(
        st,
        CoreView::Loop {
            state: blocks::atoms_of(vars),
            inv,
            cond: Box::new(cond),
            body: Box::new(body),
        },
    );
    alike_loop::lemma_after(env, a, b, head, head2, head.len(), whole, st1);
}

/// The index of a `for` loop is no source name.
proof fn lemma_index_hidden(depth: u32)
    ensures
        alike::hidden(blocks::index_name(depth)),
{
    reveal_strlit("#for");
}

proof fn lemma_for_carries(
    m: Module,
    env: alike::Env,
    s: Stmt,
    t: Stmt,
    index: Seq<char>,
    a: ScopeView,
    b: ScopeView,
)
    requires
        alike::same_stmt(m, env, s, t),
        s is For,
        alike::hidden(index),
        alike_scope::same_scope(env, a, b),
    ensures
        alike::same_carried(
            env,
            blocks::for_assigns(s->binder@, index, s->For_body),
            blocks::for_assigns(t->binder@, index, t->For_body),
        ),
        alike_loop::same_hidden(
            blocks::for_assigns(s->binder@, index, s->For_body),
            blocks::for_assigns(t->binder@, index, t->For_body),
        ),
{
    let p = blocks::for_assigns(s->binder@, index, s->For_body);
    let q = blocks::for_assigns(t->binder@, index, t->For_body);
    let p0 = alike::stmt_assigns(s);
    let q0 = alike::stmt_assigns(t);
    assert(alike::same_carried(env, p0, q0));
    alike_scope::lemma_hidden(env, a, b, index);
    assert forall|i: int| 0 <= i < env.len() && (#[trigger] env[i]).2 implies (alike::left_at(
        env,
        env[i].0,
    ) == Some(i) && p(env[i].0)) == (alike::right_at(env, env[i].1) == Some(i) && q(env[i].1)) by {
        assert(env[i].0 != index ==> p(env[i].0) == p0(env[i].0));
        assert(env[i].1 != index ==> q(env[i].1) == q0(env[i].1));
    }
    let inner = env.push((s->binder@, t->binder@, false));
    assert forall|x: Seq<char>| alike::hidden(x) implies #[trigger] p(x) == q(x) by {
        alike_assign::lemma_plain_block(m, inner, s->For_body, t->For_body, x);
    }
}

proof fn lemma_below(
    lw: LowererView,
    env: alike::Env,
    e: Expr,
    f: Expr,
    index: Seq<char>,
    a: ScopeView,
    b: ScopeView,
    st: St,
)
    requires
        alike_scope::same_scope(env, a, b),
        alike::same_expr(lw.m, env, e, f),
        alike::same_name(env, "len"@, "len"@),
        alike::hidden(index),
    ensures
        alike_expr::agree(
            blocks::below_s(lw, e, index, a, st),
            blocks::below_s(lw, f, index, b, st),
        ),
{
    assert(alike_scope::linked(env, index, index));
    assert(alike_scope::linked(env, "len"@, "len"@));
    alike_scope::lemma_local(env, a, b, "len"@, "len"@);
    alike_expr::lemma_var(lw, env, index, index, a, b, st);
    alike_expr::lemma_expr_type(lw, env, e, f, a, b);
    match emit::var_s(lw, index, a, st) {
        Ok((_, st1)) => match blocks::protocol(lw, "iter_len"@, e, a, st1.pend) {
            Some((_, pend)) => alike_expr::lemma_atom(lw, env, e, f, a, b, St { pend, ..st1 }),
            None => alike_expr::lemma_atom(lw, env, e, f, a, b, st1),
        },
        Err(_) => {},
    }
}

proof fn lemma_item(
    lw: LowererView,
    env: alike::Env,
    x: Seq<char>,
    y: Seq<char>,
    e: Expr,
    f: Expr,
    index: Seq<char>,
    a: ScopeView,
    b: ScopeView,
    st: St,
)
    requires
        alike_scope::same_scope(env, a, b),
        alike::same_expr(lw.m, env, e, f),
        alike::both_declare(x, y),
        alike::hidden(index),
    ensures
        alike_loop::agree_scope(
            env.push((x, y, false)),
            blocks::item_s(lw, x, e, index, a, st),
            blocks::item_s(lw, y, f, index, b, st),
        ),
{
    assert(alike_scope::linked(env, index, index));
    alike_expr::lemma_expr_type(lw, env, e, f, a, b);
    match blocks::protocol(lw, "iter_get"@, e, a, st.pend) {
        Some((func, pend)) => {
            let st0 = St { pend, ..st };
            alike_expr::lemma_atom(lw, env, e, f, a, b, st0);
            match emit::atom_s(lw, e, a, st0) {
                Ok((atom, st1)) => {
                    let (get, st2) = scope::push_s(st1, CoreView::App { func, arg: atom });
                    alike_expr::lemma_var(lw, env, index, index, a, b, st2);
                    match emit::var_s(lw, index, a, st2) {
                        Ok((i, st3)) => {
                            let (item, _) = scope::push_s(
                                st3,
                                CoreView::App { func: get, arg: i },
                            );
                            lemma_declared(
                                env,
                                x,
                                y,
                                item,
                                blocks::item_type(lw, e, a),
                                false,
                                a,
                                b,
                            );
                        },
                        Err(_) => {},
                    }
                },
                Err(_) => {},
            }
        },
        None => {
            alike_expr::lemma_atom(lw, env, e, f, a, b, st);
            match emit::atom_s(lw, e, a, st) {
                Ok((atom, st1)) => {
                    alike_expr::lemma_var(lw, env, index, index, a, b, st1);
                    match emit::var_s(lw, index, a, st1) {
                        Ok((i, st2)) => {
                            let (item, _) = scope::push_s(
                                st2,
                                CoreView::Prim { op: PrimOp::Index, args: seq![atom, i] },
                            );
                            lemma_declared(env, x, y, item, blocks::item_type(lw, e, a), false, a, b);
                        },
                        Err(_) => {},
                    }
                },
                Err(_) => {},
            }
        },
    }
}

proof fn lemma_advance(
    lw: LowererView,
    env: alike::Env,
    index: Seq<char>,
    a: ScopeView,
    b: ScopeView,
    st: St,
)
    requires
        alike_scope::same_scope(env, a, b),
        alike::hidden(index),
    ensures
        alike_loop::agree_scope(
            env,
            blocks::advance_s(lw, index, a, st),
            blocks::advance_s(lw, index, b, st),
        ),
{
    assert(alike_scope::linked(env, index, index));
    alike_expr::lemma_var(lw, env, index, index, a, b, st);
    alike_scope::lemma_local(env, a, b, index, index);
    match (emit::var_s(lw, index, a, st), scope::local(a, index), scope::local(b, index)) {
        (Ok((i, st1)), Some(p), Some(q)) => {
            let (atom, _) = scope::push_s(
                st1,
                CoreView::Prim {
                    op: PrimOp::Add,
                    args: seq![i, AtomView::Lit(LiteralView::Int(1))],
                },
            );
            alike_scope::lemma_rebind(
                env,
                a,
                b,
                BindView { atom, ..p },
                BindView { atom, ..q },
            );
        },
        _ => {},
    }
}

proof fn lemma_for(
    lw: LowererView,
    env: alike::Env,
    s: Stmt,
    t: Stmt,
    a0: ScopeView,
    b0: ScopeView,
    st: St,
)
    requires
        alike_scope::same_scope(env, a0, b0),
        alike::same_stmt(lw.m, env, s, t),
        s is For,
    ensures
        alike_loop::agree_scope(env, blocks::for_s(lw, s, a0, st), blocks::for_s(lw, t, b0, st)),
    decreases s, 0nat, 0nat,
{
    let k = s->For_body;
    let l = t->For_body;
    let x = s->binder@;
    let y = t->binder@;
    let depth = scope::depth_s(st);
    let index = blocks::index_name(depth);
    lemma_index_hidden(depth);
    alike_scope::lemma_allowed(env, a0, b0);
    let a = scope::bind(a0, blocks::index_bind(a0, depth));
    let b = scope::bind(b0, blocks::index_bind(b0, depth));
    alike_scope::lemma_declare_hidden(env, a0, b0, blocks::index_bind(a0, depth));
    alike_scope::lemma_allowed(env, a, b);
    lemma_for_carries(lw.m, env, s, t, index, a, b);
    let p = blocks::for_assigns(x, index, k);
    let q = blocks::for_assigns(y, index, l);
    let vars = blocks::carried(a, p, a.binds.len());
    let vars2 = blocks::carried(b, q, b.binds.len());
    alike_loop::lemma_carried(env, a, b, p, q, a.binds.len());
    let head = blocks::header(vars, depth);
    let head2 = blocks::header(vars2, depth);
    alike_loop::lemma_header(env, a, b, vars, vars2, depth);
    alike_loop::lemma_inside(env, a, b, head, head2, head.len());
    alike_loop::lemma_goal(env, a, b, head, head2);
    let inner = blocks::inside(a, head, head.len());
    let inner2 = blocks::inside(b, head2, head2.len());
    let base = indices::add32(depth, (vars.len() as usize) as u32);
    lemma_below(lw, env, s->iter, t->iter, index, inner, inner2, scope::open_s(base, st.pend));
    match blocks::closed_s(
        blocks::below_s(lw, s->iter, index, inner, scope::open_s(base, st.pend)),
    ) {
        Ok((c, pend1)) => {
            lemma_for_body(
                lw,
                env,
                x,
                y,
                s->iter,
                t->iter,
                k,
                l,
                index,
                GoalView::Next(head),
                GoalView::Next(head2),
                inner,
                inner2,
                base,
                pend1,
            );
            match blocks::for_body_s(
                lw,
                x,
                s->iter,
                k,
                index,
                GoalView::Next(head),
                inner,
                base,
                pend1,
            ) {
                Ok((body, pend2)) => lemma_loop(
                    env,
                    a,
                    b,
                    vars,
                    vars2,
                    head,
                    head2,
                    None,
                    c,
                    body,
                    St { pend: pend2, ..st },
                ),
                Err(_) => {},
            }
        },
        Err(_) => {},
    }
}

proof fn lemma_for_body(
    lw: LowererView,
    env: alike::Env,
    x: Seq<char>,
    y: Seq<char>,
    e: Expr,
    f: Expr,
    k: Block,
    l: Block,
    index: Seq<char>,
    g: GoalView,
    h: GoalView,
    a: ScopeView,
    b: ScopeView,
    base: u32,
    pend: PendView,
)
    requires
        alike_scope::same_scope(env, a, b),
        alike::same_expr(lw.m, env, e, f),
        alike::both_declare(x, y),
        alike::hidden(index),
        alike::same_block(lw.m, env.push((x, y, false)), k, l),
        alike_loop::same_goal(g, h),
    ensures
        alike_expr::agree(
            blocks::for_body_s(lw, x, e, k, index, g, a, base, pend),
            blocks::for_body_s(lw, y, f, l, index, h, b, base, pend),
        ),
    decreases k, 1nat, 0nat,
{
    let st = scope::open_s(base, pend);
    let env1 = env.push((x, y, false));
    let v = k.stmts@;
    let w = l.stmts@;
    lemma_item(lw, env, x, y, e, f, index, a, b, st);
    match (blocks::item_s(lw, x, e, index, a, st), blocks::item_s(lw, y, f, index, b, st)) {
        (Ok((a1, st1)), Ok((b1, _))) => {
            lemma_stmts(lw, env1, v, w, v.len(), a1, b1, st1);
            let env2 = alike::env_after(env1, v, w, v.len());
            match (
                blocks::stmts_s(lw, v, v.len(), a1, st1),
                blocks::stmts_s(lw, w, w.len(), b1, st1),
            ) {
                (Ok((a2, st2)), Ok((b2, _))) => {
                    lemma_advance(lw, env2, index, a2, b2, st2);
                    match (
                        blocks::advance_s(lw, index, a2, st2),
                        blocks::advance_s(lw, index, b2, st2),
                    ) {
                        (Ok((a3, st3)), Ok((b3, _))) => lemma_end(
                            lw,
                            env2,
                            k,
                            l,
                            g,
                            h,
                            a3,
                            b3,
                            st3,
                        ),
                        _ => {},
                    }
                },
                _ => {},
            }
        },
        _ => {},
    }
}

// ---- blocks ---------------------------------------------------------------------------------------------------

/// Blocks that are alike have the same term.
pub proof fn lemma_block(
    lw: LowererView,
    env: alike::Env,
    k: Block,
    l: Block,
    g: GoalView,
    h: GoalView,
    a: ScopeView,
    b: ScopeView,
    base: u32,
    pend: PendView,
)
    requires
        alike_scope::same_scope(env, a, b),
        alike::same_block(lw.m, env, k, l),
        alike_loop::same_goal(g, h),
    ensures
        alike_expr::agree(
            blocks::block_s(lw, k, g, a, base, pend),
            blocks::block_s(lw, l, h, b, base, pend),
        ),
    decreases k, 1nat, 0nat,
{
    let st = scope::open_s(base, pend);
    let v = k.stmts@;
    let w = l.stmts@;
    lemma_stmts(lw, env, v, w, v.len(), a, b, st);
    match (blocks::stmts_s(lw, v, v.len(), a, st), blocks::stmts_s(lw, w, w.len(), b, st)) {
        (Ok((a1, st1)), Ok((b1, _))) => lemma_end(
            lw,
            alike::env_after(env, v, w, v.len()),
            k,
            l,
            g,
            h,
            a1,
            b1,
            st1,
        ),
        _ => {},
    }
}

proof fn lemma_end(
    lw: LowererView,
    env: alike::Env,
    k: Block,
    l: Block,
    g: GoalView,
    h: GoalView,
    a: ScopeView,
    b: ScopeView,
    st: St,
)
    requires
        alike_scope::same_scope(env, a, b),
        match (k.tail, l.tail) {
            (None, None) => true,
            (Some(t), Some(u)) => alike::same_tail(lw.m, env, t, u),
            _ => false,
        },
        alike_loop::same_goal(g, h),
    ensures
        alike_expr::agree(blocks::end_s(lw, k, g, a, st), blocks::end_s(lw, l, h, b, st)),
    decreases k, 0nat, 0nat,
{
    match (k.tail, l.tail) {
        (None, None) => alike_loop::lemma_nothing(env, g, h, a, b),
        (Some(Tail::Expr(e)), Some(Tail::Expr(f))) => lemma_yield(lw, env, e, f, g, h, a, b, st),
        (Some(Tail::Return(Some(e))), Some(Tail::Return(Some(f)))) => lemma_yield(
            lw,
            env,
            e,
            f,
            g,
            h,
            a,
            b,
            st,
        ),
        (Some(Tail::If(i)), Some(Tail::If(j))) => lemma_if(lw, env, *i, *j, g, h, a, b, st),
        (Some(Tail::Match(i)), Some(Tail::Match(j))) => lemma_match(
            lw,
            env,
            *i,
            *j,
            g,
            h,
            a,
            b,
            st,
        ),
        _ => {},
    }
}

proof fn lemma_if(
    lw: LowererView,
    env: alike::Env,
    i: IfExpr,
    j: IfExpr,
    g: GoalView,
    h: GoalView,
    a: ScopeView,
    b: ScopeView,
    st: St,
)
    requires
        alike_scope::same_scope(env, a, b),
        alike::same_if(lw.m, env, i, j),
        alike_loop::same_goal(g, h),
    ensures
        alike_expr::agree(blocks::if_s(lw, i, g, a, st), blocks::if_s(lw, j, h, b, st)),
    decreases i, 1nat, 0nat,
{
    alike_expr::lemma_atom(lw, env, i.cond, j.cond, a, b, st);
    match emit::atom_s(lw, i.cond, a, st) {
        Ok((_, st1)) => {
            let base = scope::depth_s(st1);
            lemma_block(lw, env, i.yes, j.yes, g, h, a, b, base, st1.pend);
            match blocks::block_s(lw, i.yes, g, a, base, st1.pend) {
                Ok((_, pend)) => lemma_else(lw, env, i, j, g, h, a, b, base, pend),
                Err(_) => {},
            }
        },
        Err(_) => {},
    }
}

proof fn lemma_else(
    lw: LowererView,
    env: alike::Env,
    i: IfExpr,
    j: IfExpr,
    g: GoalView,
    h: GoalView,
    a: ScopeView,
    b: ScopeView,
    base: u32,
    pend: PendView,
)
    requires
        alike_scope::same_scope(env, a, b),
        alike::same_if(lw.m, env, i, j),
        alike_loop::same_goal(g, h),
    ensures
        alike_expr::agree(
            blocks::else_s(lw, i, g, a, base, pend),
            blocks::else_s(lw, j, h, b, base, pend),
        ),
    decreases i, 0nat, 0nat,
{
    match (i.no, j.no) {
        (None, None) => alike_loop::lemma_nothing(env, g, h, a, b),
        (Some(Else::Block(k)), Some(Else::Block(l))) => lemma_block(
            lw,
            env,
            k,
            l,
            g,
            h,
            a,
            b,
            base,
            pend,
        ),
        (Some(Else::If(x)), Some(Else::If(y))) => lemma_if(
            lw,
            env,
            *x,
            *y,
            g,
            h,
            a,
            b,
            scope::open_s(base, pend),
        ),
        _ => {},
    }
}

// ---- match -----------------------------------------------------------------------------------------------------

proof fn lemma_arms_enum(
    lw: LowererView,
    env: alike::Env,
    v: Seq<Arm>,
    w: Seq<Arm>,
    i: nat,
)
    requires
        alike::same_arms(lw.m, env, v, w),
    ensures
        alike_expr::agree(blocks::arms_enum(lw, v, i), blocks::arms_enum(lw, w, i)),
    decreases v.len() - i,
{
    if i < v.len() {
        assert(alike::same_arm(lw.m, env, v[i as int], w[i as int]));
        lemma_arms_enum(lw, env, v, w, i + 1);
    }
}

proof fn lemma_fields(
    env: alike::Env,
    v: Seq<FieldPat>,
    w: Seq<FieldPat>,
    n: nat,
    a: ScopeView,
    b: ScopeView,
    base: u32,
)
    requires
        alike_scope::same_scope(env, a, b),
        n <= v.len() == w.len(),
        forall|i: int|
            0 <= i < v.len() ==> match (#[trigger] v[i], w[i]) {
                (FieldPat::Bind(x), FieldPat::Bind(y)) => alike::both_declare(x@, y@),
                (FieldPat::Wildcard, FieldPat::Wildcard) => true,
                _ => false,
            },
    ensures
        alike_scope::same_scope(
            alike::env_fields(env, v, w, n),
            blocks::fields_s(v, n, a, base),
            blocks::fields_s(w, n, b, base),
        ),
    decreases n,
{
    if n > 0 {
        let k = (n - 1) as nat;
        lemma_fields(env, v, w, k, a, b, base);
        match (v[n - 1], w[n - 1]) {
            (FieldPat::Bind(x), FieldPat::Bind(y)) => lemma_declared(
                alike::env_fields(env, v, w, k),
                x@,
                y@,
                AtomView::Var(indices::add32(base, (k as usize) as u32)),
                None,
                false,
                blocks::fields_s(v, k, a, base),
                blocks::fields_s(w, k, b, base),
            ),
            _ => {},
        }
    }
}

proof fn lemma_arm_body(
    lw: LowererView,
    env: alike::Env,
    x: Arm,
    y: Arm,
    g: GoalView,
    h: GoalView,
    a: ScopeView,
    b: ScopeView,
    base: u32,
    pend: PendView,
)
    requires
        alike_scope::same_scope(env, a, b),
        match (x.body, y.body) {
            (ArmBody::Expr(e), ArmBody::Expr(f)) => alike::same_expr(lw.m, env, e, f),
            (ArmBody::Block(k), ArmBody::Block(l)) => alike::same_block(lw.m, env, k, l),
            _ => false,
        },
        alike_loop::same_goal(g, h),
    ensures
        alike_expr::agree(
            blocks::arm_body_s(lw, x, g, a, base, pend),
            blocks::arm_body_s(lw, y, h, b, base, pend),
        ),
    decreases x, 0nat, 0nat,
{
    match (x.body, y.body) {
        (ArmBody::Expr(e), ArmBody::Expr(f)) => lemma_yield(
            lw,
            env,
            e,
            f,
            g,
            h,
            a,
            b,
            scope::open_s(base, pend),
        ),
        (ArmBody::Block(k), ArmBody::Block(l)) => lemma_block(
            lw,
            env,
            k,
            l,
            g,
            h,
            a,
            b,
            base,
            pend,
        ),
        _ => {},
    }
}

proof fn lemma_arm(
    lw: LowererView,
    env: alike::Env,
    x: Arm,
    y: Arm,
    qual: Seq<char>,
    g: GoalView,
    h: GoalView,
    a: ScopeView,
    b: ScopeView,
    base: u32,
    s: SlotsView,
    pend: PendView,
)
    requires
        alike_scope::same_scope(env, a, b),
        alike::same_arm(lw.m, env, x, y),
        alike_loop::same_goal(g, h),
    ensures
        alike_expr::agree(
            blocks::arm_s(lw, x, qual, g, a, base, s, pend),
            blocks::arm_s(lw, y, qual, h, b, base, s, pend),
        ),
    decreases x, 1nat, 0nat,
{
    match (x.pat, y.pat) {
        (Pattern::Ctor { path: _, fields: v }, Pattern::Ctor { path: _, fields: w }) => {
            let n = v@.len();
            lemma_fields(env, v@, w@, n, a, b, base);
            lemma_arm_body(
                lw,
                alike::env_arm(env, x.pat, y.pat),
                x,
                y,
                g,
                h,
                blocks::fields_s(v@, n, a, base),
                blocks::fields_s(w@, n, b, base),
                indices::add32(base, (n as usize) as u32),
                pend,
            );
        },
        _ => lemma_arm_body(lw, env, x, y, g, h, a, b, base, pend),
    }
}

proof fn lemma_arms(
    lw: LowererView,
    env: alike::Env,
    v: Seq<Arm>,
    w: Seq<Arm>,
    n: nat,
    qual: Seq<char>,
    g: GoalView,
    h: GoalView,
    a: ScopeView,
    b: ScopeView,
    base: u32,
    s: SlotsView,
    pend: PendView,
)
    requires
        alike_scope::same_scope(env, a, b),
        alike::same_arms(lw.m, env, v, w),
        n <= v.len(),
        alike_loop::same_goal(g, h),
    ensures
        alike_expr::agree(
            blocks::arms_s(lw, v, n, qual, g, a, base, s, pend),
            blocks::arms_s(lw, w, n, qual, h, b, base, s, pend),
        ),
    decreases v, 0nat, n,
{
    if n > 0 {
        let k = (n - 1) as nat;
        lemma_arms(lw, env, v, w, k, qual, g, h, a, b, base, s, pend);
        match blocks::arms_s(lw, v, k, qual, g, a, base, s, pend) {
            Ok((s1, pend1)) => {
                assert(alike::same_arm(lw.m, env, v[n - 1], w[n - 1]));
                lemma_arm(lw, env, v[n - 1], w[n - 1], qual, g, h, a, b, base, s1, pend1);
            },
            Err(_) => {},
        }
    }
}

proof fn lemma_match(
    lw: LowererView,
    env: alike::Env,
    x: MatchExpr,
    y: MatchExpr,
    g: GoalView,
    h: GoalView,
    a: ScopeView,
    b: ScopeView,
    st: St,
)
    requires
        alike_scope::same_scope(env, a, b),
        alike::same_expr(lw.m, env, x.scrutinee, y.scrutinee),
        alike::same_arms(lw.m, env, x.arms@, y.arms@),
        alike_loop::same_goal(g, h),
    ensures
        alike_expr::agree(blocks::match_s(lw, x, g, a, st), blocks::match_s(lw, y, h, b, st)),
    decreases x, 0nat, 0nat,
{
    let v = x.arms@;
    let w = y.arms@;
    alike_expr::lemma_atom(lw, env, x.scrutinee, y.scrutinee, a, b, st);
    lemma_arms_enum(lw, env, v, w, 0);
    match (emit::atom_s(lw, x.scrutinee, a, st), blocks::arms_enum(lw, v, 0)) {
        (Ok((_, st1)), Ok(qual)) => lemma_arms(
            lw,
            env,
            v,
            w,
            v.len(),
            qual,
            g,
            h,
            a,
            b,
            scope::depth_s(st1),
            blocks::no_slots(decls::variants_of(lw.ms, qual)),
            st1.pend,
        ),
        _ => {},
    }
}

// ---- functions -------------------------------------------------------------------------------------------------

proof fn lemma_params(lw: LowererView, a: FnDecl, b: FnDecl, n: nat)
    requires
        alike::same_fn(lw.m, a, b),
        n <= a.params@.len(),
    ensures
        alike_scope::same_scope(
            alike::param_env(a, b).take(n as int),
            lower::param_scope(lw, a, n),
            lower::param_scope(lw, b, n),
        ),
    decreases n,
{
    let env = alike::param_env(a, b);
    if n == 0 {
        assert(env.take(0) =~= Seq::empty());
        alike_scope::lemma_empty_scope(a.is_unsafe);
    } else {
        let k = (n - 1) as nat;
        lemma_params(lw, a, b, k);
        assert(a.params@[n - 1].ty@ == b.params@[n - 1].ty@);
        lemma_declared(
            env.take(k as int),
            a.params@[n - 1].name@,
            b.params@[n - 1].name@,
            AtomView::Var((k as usize) as u32),
            Some(surface::subst_view(lw.subst, a.params@[n - 1].ty@, lw.subst.len())),
            false,
            lower::param_scope(lw, a, k),
            lower::param_scope(lw, b, k),
        );
        assert(env.take(n as int) =~= env.take(k as int).push(
            (a.params@[n - 1].name@, b.params@[n - 1].name@, false),
        ));
    }
}

proof fn lemma_clause_operand(
    p: Seq<Seq<char>>,
    q: Seq<Seq<char>>,
    with_result: bool,
    e: Expr,
    f: Expr,
)
    requires
        p.len() == q.len(),
        alike::same_clause(p, q, e, f),
    ensures
        alike_expr::agree(
            contract::operand_s(e, NamesView::Flat { params: p, with_result }),
            contract::operand_s(f, NamesView::Flat { params: q, with_result }),
        ),
{
}

proof fn lemma_clause(
    p: Seq<Seq<char>>,
    q: Seq<Seq<char>>,
    with_result: bool,
    e: Expr,
    f: Expr,
)
    requires
        p.len() == q.len(),
        alike::same_clause(p, q, e, f),
    ensures
        alike_expr::agree(
            contract::pred_s(e, NamesView::Flat { params: p, with_result }),
            contract::pred_s(f, NamesView::Flat { params: q, with_result }),
        ),
    decreases e,
{
    match (e, f) {
        (Expr::Binary(l, _, r), Expr::Binary(l2, _, r2)) => {
            lemma_clause(p, q, with_result, *l, *l2);
            lemma_clause(p, q, with_result, *r, *r2);
            lemma_clause_operand(p, q, with_result, *l, *l2);
            lemma_clause_operand(p, q, with_result, *r, *r2);
        },
        (Expr::Unary(_, x), Expr::Unary(_, y)) => lemma_clause(p, q, with_result, *x, *y),
        _ => {},
    }
}

proof fn lemma_clauses(
    p: Seq<Seq<char>>,
    q: Seq<Seq<char>>,
    with_result: bool,
    v: Seq<Expr>,
    w: Seq<Expr>,
    n: nat,
)
    requires
        p.len() == q.len(),
        n <= v.len() == w.len(),
        forall|i: int| 0 <= i < v.len() ==> alike::same_clause(p, q, #[trigger] v[i], w[i]),
    ensures
        alike_expr::agree(
            contract::clauses_s(v, n, NamesView::Flat { params: p, with_result }),
            contract::clauses_s(w, n, NamesView::Flat { params: q, with_result }),
        ),
    decreases n,
{
    if n > 0 {
        lemma_clauses(p, q, with_result, v, w, (n - 1) as nat);
        assert(alike::same_clause(p, q, v[n - 1], w[n - 1]));
        lemma_clause(p, q, with_result, v[n - 1], w[n - 1]);
    }
}

/// Two functions that differ in their own names, their docs and the names of
/// their parameters and locals only are lowered to one definition, with one
/// hash, or both are refused.
pub proof fn lemma_renaming_keeps_a_function(
    lw: LowererView,
    a: FnDecl,
    b: FnDecl,
    pend: PendView,
)
    requires
        alike::same_fn(lw.m, a, b),
    ensures
        alike_expr::agree(lower::fn_s(lw, a, pend), lower::fn_s(lw, b, pend)),
        match (lower::fn_s(lw, a, pend), lower::fn_s(lw, b, pend)) {
            (Ok((d, _)), Ok((e, _))) => lower::entry_of(a.name@, d, None).hash == lower::entry_of(
                b.name@,
                e,
                None,
            ).hash,
            _ => true,
        },
{
    let n = a.params@.len();
    let p = lower::param_names(a.params@);
    let q = lower::param_names(b.params@);
    lemma_clauses(p, q, false, a.pre@, b.pre@, a.pre@.len());
    lemma_clauses(p, q, true, a.post@, b.post@, a.post@.len());
    lemma_params(lw, a, b, n);
    assert(alike::param_env(a, b).take(n as int) =~= alike::param_env(a, b));
    assert forall|i: int| 0 <= i < n implies (#[trigger] a.params@[i]).ty@ == b.params@[i].ty@ by {}
    let tys = lower::param_types(lw, a);
    assert(tys =~= lower::param_types(lw, b));
    match (a.body, b.body) {
        (Some(k), Some(l)) => lemma_block(
            lw,
            alike::param_env(a, b),
            k,
            l,
            GoalView::Value,
            GoalView::Value,
            lower::param_scope(lw, a, n),
            lower::param_scope(lw, b, n),
            (tys.len() as usize) as u32,
            pend,
        ),
        _ => {},
    }
}

} // verus!
