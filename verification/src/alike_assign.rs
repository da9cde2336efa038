//! Which declarations are assigned by blocks that differ in the names of locals only,
//! and when their loops carry the same variables.
use vstd::prelude::*;

use crate::alike;
use crate::alike_scope;
use crate::assign;
use crate::find;
use crate::syntax::{Arm, ArmBody, Block, Else, FieldPat, IfExpr, LValue, Module, Pattern, Stmt, Tail};

verus! {

/// What the name `y` of the right side is called on the left.
pub open spec fn unrenamed(env: alike::Env, y: Seq<char>) -> Seq<char> {
    match alike::right_at(env, y) {
        Some(i) => env[i].0,
        None => y,
    }
}

/// The other name for a declaration, on either side.
proof fn lemma_other_name(env: alike::Env, x: Seq<char>, y: Seq<char>)
    requires
        alike::same_name(env, x, y),
    ensures
        y == alike::renamed(env, x),
        x == unrenamed(env, y),
{
    alike_scope::lemma_env_found(env, x);
    alike_scope::lemma_env_found(env, y);
}

// ---- what further declarations leave alone -------------------------------------------------------------

/// What the declarations `more` after `env` say of a name that they do not declare.
pub open spec fn kept(
    env: alike::Env,
    more: alike::Env,
    on_left: bool,
    on_right: bool,
    z: Seq<char>,
) -> bool {
    &&& env.len() <= more.len()
    &&& forall|i: int| 0 <= i < env.len() ==> #[trigger] more[i] == env[i]
    &&& if on_left {
        alike::left_at(more, z) is Some && alike::left_at(more, z)->0 >= env.len()
    } else {
        alike::left_at(more, z) == alike::left_at(env, z)
    }
    &&& if on_right {
        alike::right_at(more, z) is Some && alike::right_at(more, z)->0 >= env.len()
    } else {
        alike::right_at(more, z) == alike::right_at(env, z)
    }
}

proof fn lemma_env_after(
    m: Module,
    env: alike::Env,
    v: Seq<Stmt>,
    w: Seq<Stmt>,
    n: nat,
    z: Seq<char>,
)
    requires
        n <= v.len(),
        alike::same_stmts(m, env, v, w, n),
    ensures
        kept(
            env,
            alike::env_after(env, v, w, n),
            assign::declares_s(v, n, z),
            assign::declares_s(w, n, z),
            z,
        ),
    decreases n,
{
    if n > 0 {
        lemma_env_after(m, env, v, w, (n - 1) as nat, z);
        let before = alike::env_after(env, v, w, (n - 1) as nat);
        assert(alike::same_stmt(m, before, v[n - 1], w[n - 1]));
        match (alike::declared(v[n - 1]), alike::declared(w[n - 1])) {
            (Some(x), Some(y)) => alike_scope::lemma_env_at(before, (x, y, v[n - 1] is Var), z),
            _ => {},
        }
    }
}

/// Whether one of the first `n` fields of a pattern binds a name.
pub open spec fn fields_bind(v: Seq<FieldPat>, n: nat, x: Seq<char>) -> bool
    decreases n,
{
    n > 0 && (fields_bind(v, (n - 1) as nat, x) || match v[n - 1] {
        FieldPat::Bind(y) => y@ == x,
        FieldPat::Wildcard => false,
    })
}

proof fn lemma_fields_bind(v: Seq<FieldPat>, n: nat, x: Seq<char>)
    requires
        n <= v.len(),
        fields_bind(v, n, x),
    ensures
        exists|i: int| 0 <= i < n && (#[trigger] v[i] is Bind) && v[i]->Bind_0@ == x,
    decreases n,
{
    if fields_bind(v, (n - 1) as nat, x) {
        lemma_fields_bind(v, (n - 1) as nat, x);
    } else {
        assert(v[n - 1] is Bind && v[n - 1]->Bind_0@ == x);
    }
}

proof fn lemma_env_fields(
    env: alike::Env,
    v: Seq<FieldPat>,
    w: Seq<FieldPat>,
    n: nat,
    z: Seq<char>,
)
    requires
        n <= v.len() == w.len(),
        forall|i: int|
            0 <= i < v.len() ==> match (#[trigger] v[i], w[i]) {
                (FieldPat::Bind(x), FieldPat::Bind(y)) => alike::both_declare(x@, y@),
                (FieldPat::Wildcard, FieldPat::Wildcard) => true,
                _ => false,
            },
    ensures
        kept(env, alike::env_fields(env, v, w, n), fields_bind(v, n, z), fields_bind(w, n, z), z),
    decreases n,
{
    if n > 0 {
        lemma_env_fields(env, v, w, (n - 1) as nat, z);
        let before = alike::env_fields(env, v, w, (n - 1) as nat);
        match (v[n - 1], w[n - 1]) {
            (FieldPat::Bind(x), FieldPat::Bind(y)) => alike_scope::lemma_env_at(
                before,
                (x@, y@, false),
                z,
            ),
            _ => {},
        }
    }
}

/// A name that the further declarations do not declare on the left stands for
/// one that they do not declare on the right.
proof fn lemma_outer_left(
    env: alike::Env,
    more: alike::Env,
    z: Seq<char>,
    zr: bool,
    yl: bool,
    yr: bool,
)
    requires
        alike::same_name(more, z, alike::renamed(more, z)),
        kept(env, more, false, zr, z),
        kept(env, more, yl, yr, alike::renamed(more, z)),
    ensures
        !yr,
        alike::renamed(more, z) == alike::renamed(env, z),
        alike::same_name(env, z, alike::renamed(env, z)),
{
    alike_scope::lemma_env_found(env, z);
}

/// As [`lemma_outer_left`], from the right.
proof fn lemma_outer_right(
    env: alike::Env,
    more: alike::Env,
    z: Seq<char>,
    zl: bool,
    yl: bool,
    yr: bool,
)
    requires
        alike::same_name(more, unrenamed(more, z), z),
        kept(env, more, zl, false, z),
        kept(env, more, yl, yr, unrenamed(more, z)),
    ensures
        !yl,
        unrenamed(more, z) == unrenamed(env, z),
        alike::same_name(env, unrenamed(env, z), z),
{
    alike_scope::lemma_env_found(env, z);
}

// ---- what is assigned -----------------------------------------------------------------------------------

proof fn lemma_root(m: Module, env: alike::Env, a: LValue, b: LValue)
    requires
        alike::same_target(m, env, a, b),
    ensures
        alike::same_name(env, assign::root_view(a), assign::root_view(b)),
    decreases a,
{
    match (a, b) {
        (LValue::Field(x, _), LValue::Field(y, _)) => lemma_root(m, env, *x, *y),
        (LValue::Index(x, _), LValue::Index(y, _)) => lemma_root(m, env, *x, *y),
        _ => {},
    }
}

/// Whether the body of a loop is tidy.
pub open spec fn tidy_inside(s: Stmt) -> bool {
    match s {
        Stmt::While { cond, invariants, body } => alike::tidy_block(body),
        Stmt::For { binder, iter, body } => alike::tidy_block(body),
        _ => true,
    }
}

/// Loops that are alike but for which variables they carry, and whose bodies are
/// tidy, carry the same variables.
pub proof fn lemma_tidy_loops_carry_the_same(m: Module, env: alike::Env, a: Stmt, b: Stmt)
    requires
        match (a, b) {
            (
                Stmt::While { cond: _, invariants: _, body: k },
                Stmt::While { cond: _, invariants: _, body: l },
            ) => alike::same_block(m, env, k, l),
            (
                Stmt::For { binder: x, iter: _, body: k },
                Stmt::For { binder: y, iter: _, body: l },
            ) => {
                &&& alike::both_declare(x@, y@)
                &&& alike::same_block(m, env.push((x@, y@, false)), k, l)
            },
            _ => false,
        },
        tidy_inside(a),
        tidy_inside(b),
    ensures
        alike::same_carried(env, alike::stmt_assigns(a), alike::stmt_assigns(b)),
{
    let p = alike::stmt_assigns(a);
    let q = alike::stmt_assigns(b);
    assert forall|i: int| 0 <= i < env.len() && (#[trigger] env[i]).2 implies (alike::left_at(
        env,
        env[i].0,
    ) == Some(i) && p(env[i].0)) == (alike::right_at(env, env[i].1) == Some(i) && q(env[i].1)) by {
        lemma_loop_assigns(m, env, a, b, env[i].0);
        lemma_loop_assigns(m, env, a, b, env[i].1);
    }
}

/// Statements that are alike, and tidy where they are loops, assign the same
/// declarations from outside.
pub proof fn lemma_stmt_assigns(
    m: Module,
    env: alike::Env,
    a: Stmt,
    b: Stmt,
    z: Seq<char>,
)
    requires
        alike::same_stmt(m, env, a, b),
        tidy_inside(a),
        tidy_inside(b),
    ensures
        alike::stmt_assigns(a)(z) ==> alike::same_name(env, z, alike::renamed(env, z))
            && alike::stmt_assigns(b)(alike::renamed(env, z)),
        alike::stmt_assigns(b)(z) ==> alike::same_name(env, unrenamed(env, z), z)
            && alike::stmt_assigns(a)(unrenamed(env, z)),
    decreases a, 1nat,
{
    match (a, b) {
        (Stmt::Assign { target: t, value: _ }, Stmt::Assign { target: u, value: _ }) => {
            lemma_root(m, env, t, u);
            lemma_other_name(env, assign::root_view(t), assign::root_view(u));
        },
        (Stmt::While { .. }, Stmt::While { .. }) => lemma_loop_assigns(m, env, a, b, z),
        (Stmt::For { .. }, Stmt::For { .. }) => lemma_loop_assigns(m, env, a, b, z),
        _ => {},
    }
}

proof fn lemma_loop_assigns(m: Module, env: alike::Env, a: Stmt, b: Stmt, z: Seq<char>)
    requires
        match (a, b) {
            (
                Stmt::While { cond: _, invariants: _, body: k },
                Stmt::While { cond: _, invariants: _, body: l },
            ) => alike::same_block(m, env, k, l),
            (
                Stmt::For { binder: x, iter: _, body: k },
                Stmt::For { binder: y, iter: _, body: l },
            ) => {
                &&& alike::both_declare(x@, y@)
                &&& alike::same_block(m, env.push((x@, y@, false)), k, l)
            },
            _ => false,
        },
        tidy_inside(a),
        tidy_inside(b),
    ensures
        alike::stmt_assigns(a)(z) ==> alike::same_name(env, z, alike::renamed(env, z))
            && alike::stmt_assigns(b)(alike::renamed(env, z)),
        alike::stmt_assigns(b)(z) ==> alike::same_name(env, unrenamed(env, z), z)
            && alike::stmt_assigns(a)(unrenamed(env, z)),
    decreases a, 0nat,
{
    match (a, b) {
        (
            Stmt::While { cond: _, invariants: _, body: k },
            Stmt::While { cond: _, invariants: _, body: l },
        ) => lemma_block_assigns(m, env, k, l, z),
        (
            Stmt::For { binder: x, iter: _, body: k },
            Stmt::For { binder: y, iter: _, body: l },
        ) => {
            let inner = env.push((x@, y@, false));
            lemma_block_assigns(m, inner, k, l, z);
            alike_scope::lemma_env_at(env, (x@, y@, false), z);
            if alike::stmt_assigns(a)(z) {
                let o = alike::renamed(inner, z);
                alike_scope::lemma_env_at(env, (x@, y@, false), o);
                alike_scope::lemma_env_found(env, z);
            }
            if alike::stmt_assigns(b)(z) {
                let o = unrenamed(inner, z);
                alike_scope::lemma_env_at(env, (x@, y@, false), o);
                alike_scope::lemma_env_found(env, z);
            }
        },
        _ => {},
    }
}

proof fn lemma_stmts_assign(
    m: Module,
    env: alike::Env,
    v: Seq<Stmt>,
    w: Seq<Stmt>,
    n: nat,
    z: Seq<char>,
)
    requires
        v.len() == w.len(),
        n <= v.len(),
        alike::same_stmts(m, env, v, w, n),
        alike::tidy_stmts(v, n),
        alike::tidy_stmts(w, n),
    ensures
        assign::assigns_s(v, n, z) && !assign::declares_s(v, n, z) ==> alike::same_name(
            env,
            z,
            alike::renamed(env, z),
        ) && assign::assigns_s(w, n, alike::renamed(env, z)) && !assign::declares_s(
            w,
            n,
            alike::renamed(env, z),
        ),
        assign::assigns_s(w, n, z) && !assign::declares_s(w, n, z) ==> alike::same_name(
            env,
            unrenamed(env, z),
            z,
        ) && assign::assigns_s(v, n, unrenamed(env, z)) && !assign::declares_s(
            v,
            n,
            unrenamed(env, z),
        ),
    decreases v, n,
{
    if n > 0 {
        let k = (n - 1) as nat;
        lemma_stmts_assign(m, env, v, w, k, z);
        let before = alike::env_after(env, v, w, k);
        assert(alike::same_stmt(m, before, v[n - 1], w[n - 1]));
        lemma_stmt_assigns(m, before, v[n - 1], w[n - 1], z);
        lemma_env_after(m, env, v, w, k, z);
        if assign::assigns_s(v, n, z) && !assign::declares_s(v, n, z) && !assign::assigns_s(v, k, z) {
            assert(alike::stmt_assigns(v[n - 1])(z));
            let y = alike::renamed(before, z);
            lemma_env_after(m, env, v, w, k, y);
            lemma_outer_left(
                env,
                before,
                z,
                assign::declares_s(w, k, z),
                assign::declares_s(v, k, y),
                assign::declares_s(w, k, y),
            );
        }
        if assign::assigns_s(w, n, z) && !assign::declares_s(w, n, z) && !assign::assigns_s(w, k, z) {
            assert(alike::stmt_assigns(w[n - 1])(z));
            let y = unrenamed(before, z);
            lemma_env_after(m, env, v, w, k, y);
            lemma_outer_right(
                env,
                before,
                z,
                assign::declares_s(v, k, z),
                assign::declares_s(v, k, y),
                assign::declares_s(w, k, y),
            );
        }
    }
}

/// What a block assigns at its end.
pub open spec fn tail_assigns(b: Block, name: Seq<char>) -> bool {
    match b.tail {
        Some(Tail::If(i)) => assign::if_assigns(*i, name),
        Some(Tail::Match(m)) => assign::arms_assign(m.arms@, m.arms@.len(), name),
        _ => false,
    }
}

/// Blocks that are alike and tidy assign the same declarations from outside.
pub proof fn lemma_block_assigns(
    m: Module,
    env: alike::Env,
    a: Block,
    b: Block,
    z: Seq<char>,
)
    requires
        alike::same_block(m, env, a, b),
        alike::tidy_block(a),
        alike::tidy_block(b),
    ensures
        assign::block_assigns(a, z) ==> alike::same_name(env, z, alike::renamed(env, z))
            && assign::block_assigns(b, alike::renamed(env, z)),
        assign::block_assigns(b, z) ==> alike::same_name(env, unrenamed(env, z), z)
            && assign::block_assigns(a, unrenamed(env, z)),
    decreases a, 1nat,
{
    let v = a.stmts@;
    let w = b.stmts@;
    let n = v.len();
    let inner = alike::env_after(env, v, w, n);
    lemma_stmts_assign(m, env, v, w, n, z);
    lemma_env_after(m, env, v, w, n, z);
    lemma_tail_assigns(m, inner, a, b, z);
    if assign::block_assigns(a, z) && !assign::assigns_s(v, n, z) {
        let y = alike::renamed(inner, z);
        lemma_env_after(m, env, v, w, n, y);
        lemma_outer_left(
            env,
            inner,
            z,
            assign::declares_s(w, n, z),
            assign::declares_s(v, n, y),
            assign::declares_s(w, n, y),
        );
    }
    if assign::block_assigns(b, z) && !assign::assigns_s(w, n, z) {
        let y = unrenamed(inner, z);
        lemma_env_after(m, env, v, w, n, y);
        lemma_outer_right(
            env,
            inner,
            z,
            assign::declares_s(v, n, z),
            assign::declares_s(v, n, y),
            assign::declares_s(w, n, y),
        );
    }
}

proof fn lemma_tail_assigns(
    m: Module,
    env: alike::Env,
    a: Block,
    b: Block,
    z: Seq<char>,
)
    requires
        match (a.tail, b.tail) {
            (None, None) => true,
            (Some(t), Some(u)) => alike::same_tail(m, env, t, u),
            _ => false,
        },
        alike::tidy_block(a),
        alike::tidy_block(b),
    ensures
        tail_assigns(a, z) ==> alike::same_name(env, z, alike::renamed(env, z)) && tail_assigns(
            b,
            alike::renamed(env, z),
        ),
        tail_assigns(b, z) ==> alike::same_name(env, unrenamed(env, z), z) && tail_assigns(
            a,
            unrenamed(env, z),
        ),
    decreases a, 0nat,
{
    match (a.tail, b.tail) {
        (Some(Tail::If(i)), Some(Tail::If(j))) => lemma_if_assigns(m, env, *i, *j, z),
        (Some(Tail::Match(i)), Some(Tail::Match(j))) => {
            assert(alike::same_arms(m, env, i.arms@, j.arms@));
            lemma_arms_assign(m, env, i.arms@, j.arms@, i.arms@.len(), z);
        },
        _ => {},
    }
}

proof fn lemma_if_assigns(
    m: Module,
    env: alike::Env,
    a: IfExpr,
    b: IfExpr,
    z: Seq<char>,
)
    requires
        alike::same_if(m, env, a, b),
        alike::tidy_if(a),
        alike::tidy_if(b),
    ensures
        assign::if_assigns(a, z) ==> alike::same_name(env, z, alike::renamed(env, z))
            && assign::if_assigns(b, alike::renamed(env, z)),
        assign::if_assigns(b, z) ==> alike::same_name(env, unrenamed(env, z), z)
            && assign::if_assigns(a, unrenamed(env, z)),
    decreases a, 0nat,
{
    lemma_block_assigns(m, env, a.yes, b.yes, z);
    match (a.no, b.no) {
        (Some(Else::Block(k)), Some(Else::Block(l))) => lemma_block_assigns(m, env, k, l, z),
        (Some(Else::If(i)), Some(Else::If(j))) => lemma_if_assigns(m, env, *i, *j, z),
        _ => {},
    }
}

/// Whether an arm assigns the `name` from outside.
pub open spec fn arm_assigns(a: Arm, name: Seq<char>) -> bool {
    match a.body {
        ArmBody::Block(b) => assign::block_assigns(b, name),
        ArmBody::Expr(_) => false,
    }
}

proof fn lemma_arm_assigns(
    m: Module,
    env: alike::Env,
    a: Arm,
    b: Arm,
    z: Seq<char>,
)
    requires
        alike::same_arm(m, env, a, b),
        alike::tidy_arm(a),
        alike::tidy_arm(b),
    ensures
        arm_assigns(a, z) ==> alike::same_name(env, z, alike::renamed(env, z)) && arm_assigns(
            b,
            alike::renamed(env, z),
        ),
        arm_assigns(b, z) ==> alike::same_name(env, unrenamed(env, z), z) && arm_assigns(
            a,
            unrenamed(env, z),
        ),
    decreases a, 0nat,
{
    let inner = alike::env_arm(env, a.pat, b.pat);
    match (a.body, b.body) {
        (ArmBody::Block(k), ArmBody::Block(l)) => {
            lemma_block_assigns(m, inner, k, l, z);
            match (a.pat, b.pat) {
                (Pattern::Ctor { path: _, fields: f }, Pattern::Ctor { path: _, fields: g }) => {
                    let v = f@;
                    let w = g@;
                    lemma_env_fields(env, v, w, v.len(), z);
                    if arm_assigns(a, z) {
                        if fields_bind(v, v.len(), z) {
                            lemma_fields_bind(v, v.len(), z);
                        }
                        let y = alike::renamed(inner, z);
                        lemma_env_fields(env, v, w, v.len(), y);
                        lemma_outer_left(
                            env,
                            inner,
                            z,
                            fields_bind(w, v.len(), z),
                            fields_bind(v, v.len(), y),
                            fields_bind(w, v.len(), y),
                        );
                    }
                    if arm_assigns(b, z) {
                        if fields_bind(w, w.len(), z) {
                            lemma_fields_bind(w, w.len(), z);
                        }
                        let y = unrenamed(inner, z);
                        lemma_env_fields(env, v, w, v.len(), y);
                        lemma_outer_right(
                            env,
                            inner,
                            z,
                            fields_bind(v, v.len(), z),
                            fields_bind(v, v.len(), y),
                            fields_bind(w, v.len(), y),
                        );
                    }
                },
                _ => {},
            }
        },
        _ => {},
    }
}

proof fn lemma_arms_assign(
    m: Module,
    env: alike::Env,
    v: Seq<Arm>,
    w: Seq<Arm>,
    n: nat,
    z: Seq<char>,
)
    requires
        n <= v.len(),
        alike::same_arms(m, env, v, w),
        alike::tidy_arms(v),
        alike::tidy_arms(w),
    ensures
        assign::arms_assign(v, n, z) ==> alike::same_name(env, z, alike::renamed(env, z))
            && assign::arms_assign(w, n, alike::renamed(env, z)),
        assign::arms_assign(w, n, z) ==> alike::same_name(env, unrenamed(env, z), z)
            && assign::arms_assign(v, n, unrenamed(env, z)),
    decreases v, n,
{
    if n > 0 {
        lemma_arms_assign(m, env, v, w, (n - 1) as nat, z);
        assert(alike::same_arm(m, env, v[n - 1], w[n - 1]));
        assert(alike::tidy_arm(v[n - 1]));
        assert(alike::tidy_arm(w[n - 1]));
        lemma_arm_assigns(m, env, v[n - 1], w[n - 1], z);
    }
}

// ---- what is never assigned -----------------------------------------------------------------------------

proof fn lemma_plain_stmts(
    m: Module,
    env: alike::Env,
    v: Seq<Stmt>,
    w: Seq<Stmt>,
    n: nat,
    z: Seq<char>,
)
    requires
        v.len() == w.len(),
        n <= v.len(),
        alike::same_stmts(m, env, v, w, n),
        alike::hidden(z),
    ensures
        !assign::assigns_s(v, n, z),
        !assign::assigns_s(w, n, z),
    decreases v, n,
{
    if n > 0 {
        let k = (n - 1) as nat;
        lemma_plain_stmts(m, env, v, w, k, z);
        let before = alike::env_after(env, v, w, k);
        assert(alike::same_stmt(m, before, v[n - 1], w[n - 1]));
        match (v[n - 1], w[n - 1]) {
            (Stmt::Assign { target: t, value: _ }, Stmt::Assign { target: u, value: _ }) => {
                lemma_root(m, before, t, u);
            },
            (
                Stmt::While { cond: _, invariants: _, body: b },
                Stmt::While { cond: _, invariants: _, body: c },
            ) => lemma_plain_block(m, before, b, c, z),
            (
                Stmt::For { binder: x, iter: _, body: b },
                Stmt::For { binder: y, iter: _, body: c },
            ) => lemma_plain_block(m, before.push((x@, y@, false)), b, c, z),
            _ => {},
        }
    }
}

/// Blocks that are alike assign no hidden name.
pub proof fn lemma_plain_block(m: Module, env: alike::Env, a: Block, b: Block, z: Seq<char>)
    requires
        alike::same_block(m, env, a, b),
        alike::hidden(z),
    ensures
        !assign::block_assigns(a, z),
        !assign::block_assigns(b, z),
    decreases a, 1nat,
{
    let v = a.stmts@;
    let w = b.stmts@;
    let inner = alike::env_after(env, v, w, v.len());
    lemma_plain_stmts(m, env, v, w, v.len(), z);
    match (a.tail, b.tail) {
        (Some(Tail::If(i)), Some(Tail::If(j))) => lemma_plain_if(m, inner, *i, *j, z),
        (Some(Tail::Match(i)), Some(Tail::Match(j))) => {
            lemma_plain_arms(m, inner, i.arms@, j.arms@, i.arms@.len(), z);
        },
        _ => {},
    }
}

proof fn lemma_plain_if(m: Module, env: alike::Env, a: IfExpr, b: IfExpr, z: Seq<char>)
    requires
        alike::same_if(m, env, a, b),
        alike::hidden(z),
    ensures
        !assign::if_assigns(a, z),
        !assign::if_assigns(b, z),
    decreases a, 0nat,
{
    lemma_plain_block(m, env, a.yes, b.yes, z);
    match (a.no, b.no) {
        (Some(Else::Block(k)), Some(Else::Block(l))) => lemma_plain_block(m, env, k, l, z),
        (Some(Else::If(i)), Some(Else::If(j))) => lemma_plain_if(m, env, *i, *j, z),
        _ => {},
    }
}

proof fn lemma_plain_arms(
    m: Module,
    env: alike::Env,
    v: Seq<Arm>,
    w: Seq<Arm>,
    n: nat,
    z: Seq<char>,
)
    requires
        n <= v.len(),
        alike::same_arms(m, env, v, w),
        alike::hidden(z),
    ensures
        !assign::arms_assign(v, n, z),
        !assign::arms_assign(w, n, z),
    decreases v, n,
{
    if n > 0 {
        lemma_plain_arms(m, env, v, w, (n - 1) as nat, z);
        let a = v[n - 1];
        let b = w[n - 1];
        assert(alike::same_arm(m, env, a, b));
        match (a.body, b.body) {
            (ArmBody::Block(k), ArmBody::Block(l)) => {
                lemma_plain_block(m, alike::env_arm(env, a.pat, b.pat), k, l, z);
            },
            _ => {},
        }
    }
}

// ---- one name for each name -----------------------------------------------------------------------------

/// Whether no two names are renamed to one.
pub open spec fn injective(r: spec_fn(Seq<char>) -> Seq<char>) -> bool {
    forall|x: Seq<char>, y: Seq<char>| #[trigger] r(x) == #[trigger] r(y) ==> x == y
}

/// Whether the right statement declares and assigns what the left one does, with
/// each name `x` written as `r(x)`.
pub open spec fn mapped_stmt(r: spec_fn(Seq<char>) -> Seq<char>, a: Stmt, b: Stmt) -> bool
    decreases a, 0nat,
{
    match (a, b) {
        (
            Stmt::Let { name: x, ty: _, value: _ },
            Stmt::Let { name: y, ty: _, value: _ },
        ) => y@ == r(x@),
        (
            Stmt::Var { name: x, ty: _, value: _ },
            Stmt::Var { name: y, ty: _, value: _ },
        ) => y@ == r(x@),
        (Stmt::Assign { target: t, value: _ }, Stmt::Assign { target: u, value: _ }) => {
            assign::root_view(u) == r(assign::root_view(t))
        },
        (
            Stmt::While { cond: _, invariants: _, body: k },
            Stmt::While { cond: _, invariants: _, body: l },
        ) => mapped_block(r, k, l),
        (
            Stmt::For { binder: x, iter: _, body: k },
            Stmt::For { binder: y, iter: _, body: l },
        ) => y@ == r(x@) && mapped_block(r, k, l),
        _ => false,
    }
}

/// As [`mapped_stmt`], for a block.
pub open spec fn mapped_block(r: spec_fn(Seq<char>) -> Seq<char>, a: Block, b: Block) -> bool
    decreases a, 1nat,
{
    let v = a.stmts@;
    let w = b.stmts@;
    &&& v.len() == w.len()
    &&& forall|i: int| 0 <= i < v.len() ==> mapped_stmt(r, #[trigger] v[i], w[i])
    &&& match (a.tail, b.tail) {
        (Some(Tail::If(i)), Some(Tail::If(j))) => mapped_if(r, *i, *j),
        (Some(Tail::Match(i)), Some(Tail::Match(j))) => mapped_arms(r, i.arms@, j.arms@),
        (x, y) => !ends_in_blocks(x) && !ends_in_blocks(y),
    }
}

/// Whether a block ends in further blocks.
pub open spec fn ends_in_blocks(t: Option<Tail>) -> bool {
    match t {
        Some(Tail::If(_)) => true,
        Some(Tail::Match(_)) => true,
        _ => false,
    }
}

/// As [`mapped_stmt`], for a conditional.
pub open spec fn mapped_if(r: spec_fn(Seq<char>) -> Seq<char>, a: IfExpr, b: IfExpr) -> bool
    decreases a, 0nat,
{
    &&& mapped_block(r, a.yes, b.yes)
    &&& match (a.no, b.no) {
        (None, None) => true,
        (Some(Else::Block(k)), Some(Else::Block(l))) => mapped_block(r, k, l),
        (Some(Else::If(i)), Some(Else::If(j))) => mapped_if(r, *i, *j),
        _ => false,
    }
}

/// As [`mapped_stmt`], for arms.
pub open spec fn mapped_arms(r: spec_fn(Seq<char>) -> Seq<char>, v: Seq<Arm>, w: Seq<Arm>) -> bool
    decreases v, 0nat,
{
    &&& v.len() == w.len()
    &&& forall|i: int| 0 <= i < v.len() ==> mapped_arm(r, #[trigger] v[i], w[i])
}

/// As [`mapped_stmt`], for one arm.
pub open spec fn mapped_arm(r: spec_fn(Seq<char>) -> Seq<char>, a: Arm, b: Arm) -> bool
    decreases a, 0nat,
{
    match (a.body, b.body) {
        (ArmBody::Block(k), ArmBody::Block(l)) => mapped_block(r, k, l),
        (ArmBody::Expr(_), ArmBody::Expr(_)) => true,
        _ => false,
    }
}

proof fn lemma_mapped_stmts(
    r: spec_fn(Seq<char>) -> Seq<char>,
    v: Seq<Stmt>,
    w: Seq<Stmt>,
    n: nat,
    z: Seq<char>,
)
    requires
        injective(r),
        v.len() == w.len(),
        n <= v.len(),
        forall|i: int| 0 <= i < v.len() ==> mapped_stmt(r, #[trigger] v[i], w[i]),
    ensures
        assign::declares_s(v, n, z) == assign::declares_s(w, n, r(z)),
        assign::assigns_s(v, n, z) == assign::assigns_s(w, n, r(z)),
    decreases v, n,
{
    if n > 0 {
        lemma_mapped_stmts(r, v, w, (n - 1) as nat, z);
        assert(mapped_stmt(r, v[n - 1], w[n - 1]));
        match (v[n - 1], w[n - 1]) {
            (
                Stmt::While { cond: _, invariants: _, body: k },
                Stmt::While { cond: _, invariants: _, body: l },
            ) => lemma_mapped_block(r, k, l, z),
            (
                Stmt::For { binder: _, iter: _, body: k },
                Stmt::For { binder: _, iter: _, body: l },
            ) => lemma_mapped_block(r, k, l, z),
            _ => {},
        }
    }
}

proof fn lemma_mapped_block(
    r: spec_fn(Seq<char>) -> Seq<char>,
    a: Block,
    b: Block,
    z: Seq<char>,
)
    requires
        injective(r),
        mapped_block(r, a, b),
    ensures
        assign::block_assigns(a, z) == assign::block_assigns(b, r(z)),
    decreases a, 1nat,
{
    lemma_mapped_stmts(r, a.stmts@, b.stmts@, a.stmts@.len(), z);
    match (a.tail, b.tail) {
        (Some(Tail::If(i)), Some(Tail::If(j))) => lemma_mapped_if(r, *i, *j, z),
        (Some(Tail::Match(i)), Some(Tail::Match(j))) => {
            lemma_mapped_arms(r, i.arms@, j.arms@, i.arms@.len(), z);
        },
        _ => {},
    }
}

proof fn lemma_mapped_if(r: spec_fn(Seq<char>) -> Seq<char>, a: IfExpr, b: IfExpr, z: Seq<char>)
    requires
        injective(r),
        mapped_if(r, a, b),
    ensures
        assign::if_assigns(a, z) == assign::if_assigns(b, r(z)),
    decreases a, 0nat,
{
    lemma_mapped_block(r, a.yes, b.yes, z);
    match (a.no, b.no) {
        (Some(Else::Block(k)), Some(Else::Block(l))) => lemma_mapped_block(r, k, l, z),
        (Some(Else::If(i)), Some(Else::If(j))) => lemma_mapped_if(r, *i, *j, z),
        _ => {},
    }
}

proof fn lemma_mapped_arms(
    r: spec_fn(Seq<char>) -> Seq<char>,
    v: Seq<Arm>,
    w: Seq<Arm>,
    n: nat,
    z: Seq<char>,
)
    requires
        injective(r),
        n <= v.len(),
        mapped_arms(r, v, w),
    ensures
        assign::arms_assign(v, n, z) == assign::arms_assign(w, n, r(z)),
    decreases v, n,
{
    if n > 0 {
        lemma_mapped_arms(r, v, w, (n - 1) as nat, z);
        assert(mapped_arm(r, v[n - 1], w[n - 1]));
        match (v[n - 1].body, w[n - 1].body) {
            (ArmBody::Block(k), ArmBody::Block(l)) => lemma_mapped_block(r, k, l, z),
            _ => {},
        }
    }
}

/// Loops carry the same variables where every name is renamed throughout, each to
/// a name of its own, or none is: whatever their bodies declare and assign, and in
/// whatever order.
pub proof fn lemma_loops_renamed_throughout_carry_the_same(
    env: alike::Env,
    r: spec_fn(Seq<char>) -> Seq<char>,
    a: Stmt,
    b: Stmt,
)
    requires
        injective(r),
        mapped_stmt(r, a, b),
        a is While || a is For,
        forall|i: int| 0 <= i < env.len() ==> (#[trigger] env[i]).1 == r(env[i].0),
    ensures
        alike::same_carried(env, alike::stmt_assigns(a), alike::stmt_assigns(b)),
{
    let p = alike::stmt_assigns(a);
    let q = alike::stmt_assigns(b);
    let n = env.len() as int;
    assert forall|i: int| 0 <= i < env.len() && (#[trigger] env[i]).2 implies (alike::left_at(
        env,
        env[i].0,
    ) == Some(i) && p(env[i].0)) == (alike::right_at(env, env[i].1) == Some(i) && q(env[i].1)) by {
        let z = env[i].0;
        let on_left = alike::on_left(env, z);
        let on_right = alike::on_right(env, r(z));
        assert forall|k: int| 0 <= k < n implies #[trigger] on_left(k) == on_right(k) by {
            assert(env[k].1 == r(env[k].0));
        }
        find::lemma_last_below_same(on_left, on_right, n);
        match (a, b) {
            (
                Stmt::While { cond: _, invariants: _, body: k },
                Stmt::While { cond: _, invariants: _, body: l },
            ) => lemma_mapped_block(r, k, l, z),
            (
                Stmt::For { binder: _, iter: _, body: k },
                Stmt::For { binder: _, iter: _, body: l },
            ) => lemma_mapped_block(r, k, l, z),
            _ => {},
        }
    }
}

} // verus!
