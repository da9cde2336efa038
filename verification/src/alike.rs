//! When two pieces of source differ in the names of their locals only.
use vstd::prelude::*;

use crate::assign;
use crate::decls;
use crate::find;
use crate::lower;
use crate::surface;
use crate::syntax;
use crate::syntax::{Arm, ArmBody, Block, Else, Expr, FieldInit, FieldPat, FnDecl, IfExpr, LValue, Module, Pattern, STypeView, Stmt, Tail};
use crate::text;

verus! {

// ---- names ---------------------------------------------------------------------------------------

/// A name that no source can write: it starts with `#`.
pub open spec fn hidden(x: Seq<char>) -> bool {
    x.len() > 0 && x[0] == '#'
}

/// The declarations in scope on both sides, in order: what each is called on the
/// left and on the right, and whether it is a variable that can be assigned.
pub type Env = Seq<(Seq<char>, Seq<char>, bool)>;

pub open spec fn on_left(env: Env, x: Seq<char>) -> spec_fn(int) -> bool {
    |i: int| env[i].0 == x
}

pub open spec fn on_right(env: Env, y: Seq<char>) -> spec_fn(int) -> bool {
    |i: int| env[i].1 == y
}

/// The declaration that a name of the left side denotes.
pub open spec fn left_at(env: Env, x: Seq<char>) -> Option<int> {
    find::last_below(on_left(env, x), env.len() as int)
}

/// The declaration that a name of the right side denotes.
pub open spec fn right_at(env: Env, y: Seq<char>) -> Option<int> {
    find::last_below(on_right(env, y), env.len() as int)
}

/// Whether `x` on the left and `y` on the right denote the same declaration of
/// `env`, or are one name that neither side declares.
pub open spec fn same_name(
    env: Env,
    x: Seq<char>,
    y: Seq<char>,
) -> bool {
    &&& !hidden(x)
    &&& !hidden(y)
    &&& left_at(env, x) == right_at(env, y)
    &&& left_at(env, x) is None ==> x == y
}

/// What the name `x` of the left side is called on the right.
pub open spec fn renamed(env: Env, x: Seq<char>) -> Seq<char> {
    match left_at(env, x) {
        Some(i) => env[i].1,
        None => x,
    }
}

/// Two declarations that stand for each other.
pub open spec fn both_declare(x: Seq<char>, y: Seq<char>) -> bool {
    !hidden(x) && !hidden(y)
}

// ---- expressions -------------------------------------------------------------------------------------

/// The type that the module's function of that name returns.
pub open spec fn ret_of(m: Module, name: Seq<char>) -> Option<STypeView> {
    match decls::fn_named(m, name) {
        Some(d) => syntax::opt_stype_view(d.ret),
        None => None,
    }
}

/// Callees that name functions of the module with the same result type, or none.
pub open spec fn same_result(m: Module, a: Expr, b: Expr) -> bool {
    match (a, b) {
        (Expr::Var(x), Expr::Var(y)) => ret_of(m, x@) == ret_of(m, y@),
        _ => true,
    }
}

/// Whether two expressions differ in the names of locals only.
pub open spec fn same_expr(
    m: Module,
    env: Env,
    a: Expr,
    b: Expr,
) -> bool
    decreases a,
{
    match (a, b) {
        (Expr::Unit, Expr::Unit) => true,
        (Expr::Int(x), Expr::Int(y)) => x == y,
        (Expr::Bool(x), Expr::Bool(y)) => x == y,
        (Expr::Str(x), Expr::Str(y)) => x@ == y@,
        (Expr::Char(x), Expr::Char(y)) => x == y,
        (Expr::Try(x), Expr::Try(y)) => same_expr(m, env, *x, *y),
        (Expr::Cast(x, t), Expr::Cast(y, u)) => t@ == u@ && same_expr(m, env, *x, *y),
        (Expr::Var(x), Expr::Var(y)) => same_name(env, x@, y@),
        (Expr::Binary(l, o, r), Expr::Binary(l2, o2, r2)) => {
            o == o2 && same_expr(m, env, *l, *l2) && same_expr(m, env, *r, *r2)
        },
        (Expr::Unary(o, x), Expr::Unary(o2, y)) => o == o2 && same_expr(m, env, *x, *y),
        (Expr::Field(x, f), Expr::Field(y, g)) => f@ == g@ && same_expr(m, env, *x, *y),
        (Expr::Index(x, i), Expr::Index(y, j)) => {
            same_expr(m, env, *x, *y) && same_expr(m, env, *i, *j)
        },
        (Expr::Struct { path: p, fields: f }, Expr::Struct { path: q, fields: g }) => {
            text::strings_view(p@) == text::strings_view(q@) && same_inits(m, env, f@, g@)
        },
        (Expr::Call(f, xs), Expr::Call(g, ys)) => {
            &&& same_result(m, *f, *g)
            &&& same_expr(m, env, *f, *g)
            &&& same_exprs(m, env, xs@, ys@)
        },
        (Expr::Array(xs), Expr::Array(ys)) => same_exprs(m, env, xs@, ys@),
        _ => false,
    }
}

/// Expressions that are pairwise alike.
pub open spec fn same_exprs(
    m: Module,
    env: Env,
    v: Seq<Expr>,
    w: Seq<Expr>,
) -> bool
    decreases v,
{
    &&& v.len() == w.len()
    &&& forall|i: int| 0 <= i < v.len() ==> same_expr(m, env, #[trigger] v[i], w[i])
}

/// Field initialisers of the same fields, with expressions that are pairwise alike.
pub open spec fn same_inits(
    m: Module,
    env: Env,
    v: Seq<FieldInit>,
    w: Seq<FieldInit>,
) -> bool
    decreases v,
{
    &&& v.len() == w.len()
    &&& forall|i: int|
        0 <= i < v.len() ==> (#[trigger] v[i]).name@ == w[i].name@ && same_expr(
            m,
            env,
            v[i].value,
            w[i].value,
        )
}

/// Whether two targets differ in the names of locals only.
pub open spec fn same_target(
    m: Module,
    env: Env,
    a: LValue,
    b: LValue,
) -> bool
    decreases a,
{
    match (a, b) {
        (LValue::Var(x), LValue::Var(y)) => same_name(env, x@, y@),
        (LValue::Field(x, f), LValue::Field(y, g)) => f@ == g@ && same_target(m, env, *x, *y),
        (LValue::Index(x, i), LValue::Index(y, j)) => {
            same_target(m, env, *x, *y) && same_expr(m, env, *i, *j)
        },
        _ => false,
    }
}

// ---- statements and blocks -----------------------------------------------------------------------------

/// The name that a statement declares.
pub open spec fn declared(s: Stmt) -> Option<Seq<char>> {
    match s {
        Stmt::Let { name, ty, value } => Some(name@),
        Stmt::Var { name, ty, value } => Some(name@),
        _ => None,
    }
}

/// The declarations after a statement.
pub open spec fn env_step(env: Env, a: Stmt, b: Stmt) -> Env {
    match (declared(a), declared(b)) {
        (Some(x), Some(y)) => env.push((x, y, a is Var)),
        _ => env,
    }
}

/// The declarations after the first `n` statements.
pub open spec fn env_after(
    env: Env,
    v: Seq<Stmt>,
    w: Seq<Stmt>,
    n: nat,
) -> Env
    decreases n,
{
    if n == 0 {
        env
    } else {
        env_step(env_after(env, v, w, (n - 1) as nat), v[n - 1], w[n - 1])
    }
}

/// The declarations after the first `n` fields of a pattern.
pub open spec fn env_fields(
    env: Env,
    v: Seq<FieldPat>,
    w: Seq<FieldPat>,
    n: nat,
) -> Env
    decreases n,
{
    if n == 0 {
        env
    } else {
        let before = env_fields(env, v, w, (n - 1) as nat);
        match (v[n - 1], w[n - 1]) {
            (FieldPat::Bind(x), FieldPat::Bind(y)) => before.push((x@, y@, false)),
            _ => before,
        }
    }
}

/// Patterns of the same constructor that bind and skip the same fields.
pub open spec fn same_pattern(a: Pattern, b: Pattern) -> bool {
    match (a, b) {
        (Pattern::Wildcard, Pattern::Wildcard) => true,
        (Pattern::Ctor { path: p, fields: f }, Pattern::Ctor { path: q, fields: g }) => {
            &&& text::strings_view(p@) == text::strings_view(q@)
            &&& f@.len() == g@.len()
            &&& forall|i: int|
                0 <= i < f@.len() ==> match (#[trigger] f@[i], g@[i]) {
                    (FieldPat::Bind(x), FieldPat::Bind(y)) => both_declare(x@, y@),
                    (FieldPat::Wildcard, FieldPat::Wildcard) => true,
                    _ => false,
                }
        },
        _ => false,
    }
}

/// The declarations inside an arm.
pub open spec fn env_arm(env: Env, a: Pattern, b: Pattern) -> Env {
    match (a, b) {
        (Pattern::Ctor { path: p, fields: f }, Pattern::Ctor { path: q, fields: g }) => env_fields(
            env,
            f@,
            g@,
            f@.len(),
        ),
        _ => env,
    }
}

/// Whether a statement assigns the name from outside.
pub open spec fn stmt_assigns(s: Stmt) -> spec_fn(Seq<char>) -> bool {
    |name: Seq<char>|
        match s {
            Stmt::Assign { target, value } => assign::root_view(target) == name,
            Stmt::While { cond, invariants, body } => assign::block_assigns(body, name),
            Stmt::For { binder, iter, body } => binder@ != name && assign::block_assigns(
                body,
                name,
            ),
            _ => false,
        }
}

/// Whether two loops carry the same variables, given which names each assigns: of
/// the variables in scope that can be assigned, each one is visible and assigned
/// on the left if and only if it is visible and assigned on the right.
pub open spec fn same_carried(
    env: Env,
    p: spec_fn(Seq<char>) -> bool,
    q: spec_fn(Seq<char>) -> bool,
) -> bool {
    forall|i: int|
        0 <= i < env.len() && (#[trigger] env[i]).2 ==> (left_at(env, env[i].0) == Some(i) && p(
            env[i].0,
        )) == (right_at(env, env[i].1) == Some(i) && q(env[i].1))
}

/// Whether two statements differ in the names of locals only. Loops carry the
/// same variables, and `len` means the same in a `for`.
pub open spec fn same_stmt(
    m: Module,
    env: Env,
    a: Stmt,
    b: Stmt,
) -> bool
    decreases a, 0nat,
{
    match (a, b) {
        (Stmt::Let { name: x, ty: t, value: e }, Stmt::Let { name: y, ty: u, value: g }) => {
            &&& both_declare(x@, y@)
            &&& syntax::opt_stype_view(t) == syntax::opt_stype_view(u)
            &&& same_expr(m, env, e, g)
        },
        (Stmt::Var { name: x, ty: t, value: e }, Stmt::Var { name: y, ty: u, value: g }) => {
            &&& both_declare(x@, y@)
            &&& syntax::opt_stype_view(t) == syntax::opt_stype_view(u)
            &&& same_expr(m, env, e, g)
        },
        (Stmt::Assign { target: t, value: e }, Stmt::Assign { target: u, value: g }) => {
            same_target(m, env, t, u) && same_expr(m, env, e, g)
        },
        (
            Stmt::While { cond: c, invariants: i, body: k },
            Stmt::While { cond: d, invariants: j, body: l },
        ) => {
            &&& same_expr(m, env, c, d)
            &&& same_exprs(m, env, i@, j@)
            &&& same_block(m, env, k, l)
            &&& same_carried(env, stmt_assigns(a), stmt_assigns(b))
        },
        (
            Stmt::For { binder: x, iter: e, body: k },
            Stmt::For { binder: y, iter: g, body: l },
        ) => {
            &&& both_declare(x@, y@)
            &&& same_name(env, "len"@, "len"@)
            &&& same_expr(m, env, e, g)
            &&& same_block(m, env.push((x@, y@, false)), k, l)
            &&& same_carried(env, stmt_assigns(a), stmt_assigns(b))
        },
        _ => false,
    }
}

/// Whether the first `n` statements differ in the names of locals only.
pub open spec fn same_stmts(
    m: Module,
    env: Env,
    v: Seq<Stmt>,
    w: Seq<Stmt>,
    n: nat,
) -> bool
    decreases v, n,
{
    if n == 0 || n > v.len() {
        true
    } else {
        &&& same_stmts(m, env, v, w, (n - 1) as nat)
        &&& same_stmt(m, env_after(env, v, w, (n - 1) as nat), v[n - 1], w[n - 1])
    }
}

/// Whether two blocks differ in the names of locals only.
pub open spec fn same_block(
    m: Module,
    env: Env,
    a: Block,
    b: Block,
) -> bool
    decreases a, 1nat,
{
    let inner = env_after(env, a.stmts@, b.stmts@, a.stmts@.len());
    &&& a.stmts@.len() == b.stmts@.len()
    &&& same_stmts(m, env, a.stmts@, b.stmts@, a.stmts@.len())
    &&& match (a.tail, b.tail) {
        (None, None) => true,
        (Some(t), Some(u)) => same_tail(m, inner, t, u),
        _ => false,
    }
}

/// Whether the ends of two blocks differ in the names of locals only.
pub open spec fn same_tail(
    m: Module,
    env: Env,
    a: Tail,
    b: Tail,
) -> bool
    decreases a, 0nat,
{
    match (a, b) {
        (Tail::Expr(x), Tail::Expr(y)) => same_expr(m, env, x, y),
        (Tail::Return(None), Tail::Return(None)) => true,
        (Tail::Return(Some(x)), Tail::Return(Some(y))) => same_expr(m, env, x, y),
        (Tail::If(i), Tail::If(j)) => same_if(m, env, *i, *j),
        (Tail::Match(i), Tail::Match(j)) => {
            same_expr(m, env, i.scrutinee, j.scrutinee) && same_arms(m, env, i.arms@, j.arms@)
        },
        _ => false,
    }
}

/// Whether two conditionals differ in the names of locals only.
pub open spec fn same_if(
    m: Module,
    env: Env,
    a: IfExpr,
    b: IfExpr,
) -> bool
    decreases a, 0nat,
{
    &&& same_expr(m, env, a.cond, b.cond)
    &&& same_block(m, env, a.yes, b.yes)
    &&& match (a.no, b.no) {
        (None, None) => true,
        (Some(Else::Block(k)), Some(Else::Block(l))) => same_block(m, env, k, l),
        (Some(Else::If(i)), Some(Else::If(j))) => same_if(m, env, *i, *j),
        _ => false,
    }
}

/// Arms that differ pairwise in the names of locals only.
pub open spec fn same_arms(
    m: Module,
    env: Env,
    v: Seq<Arm>,
    w: Seq<Arm>,
) -> bool
    decreases v, 0nat,
{
    &&& v.len() == w.len()
    &&& forall|i: int| 0 <= i < v.len() ==> same_arm(m, env, #[trigger] v[i], w[i])
}

/// Whether two arms differ in the names of locals only.
pub open spec fn same_arm(
    m: Module,
    env: Env,
    a: Arm,
    b: Arm,
) -> bool
    decreases a, 0nat,
{
    &&& same_pattern(a.pat, b.pat)
    &&& match (a.body, b.body) {
        (ArmBody::Expr(x), ArmBody::Expr(y)) => same_expr(m, env_arm(env, a.pat, b.pat), x, y),
        (ArmBody::Block(k), ArmBody::Block(l)) => same_block(
            m,
            env_arm(env, a.pat, b.pat),
            k,
            l,
        ),
        _ => false,
    }
}

// ---- tidy blocks ---------------------------------------------------------------------------------------

/// Whether no block inside declares a name after it assigned that name from
/// outside, and no arm assigns what its pattern binds.
pub open spec fn tidy_block(b: Block) -> bool
    decreases b, 1nat,
{
    &&& tidy_stmts(b.stmts@, b.stmts@.len())
    &&& match b.tail {
        Some(Tail::If(i)) => tidy_if(*i),
        Some(Tail::Match(m)) => tidy_arms(m.arms@),
        _ => true,
    }
}

/// As [`tidy_block`], for the first `n` statements.
pub open spec fn tidy_stmts(v: Seq<Stmt>, n: nat) -> bool
    decreases v, n,
{
    if n == 0 || n > v.len() {
        true
    } else {
        &&& tidy_stmts(v, (n - 1) as nat)
        &&& match v[n - 1] {
            Stmt::Let { name, ty, value } => !assign::assigns_s(v, (n - 1) as nat, name@),
            Stmt::Var { name, ty, value } => !assign::assigns_s(v, (n - 1) as nat, name@),
            Stmt::Assign { target, value } => true,
            Stmt::While { cond, invariants, body } => tidy_block(body),
            Stmt::For { binder, iter, body } => tidy_block(body),
        }
    }
}

/// As [`tidy_block`], for a conditional.
pub open spec fn tidy_if(i: IfExpr) -> bool
    decreases i, 0nat,
{
    &&& tidy_block(i.yes)
    &&& match i.no {
        Some(Else::Block(b)) => tidy_block(b),
        Some(Else::If(inner)) => tidy_if(*inner),
        None => true,
    }
}

/// As [`tidy_block`], for arms.
pub open spec fn tidy_arms(v: Seq<Arm>) -> bool
    decreases v, 0nat,
{
    forall|i: int| 0 <= i < v.len() ==> tidy_arm(#[trigger] v[i])
}

/// As [`tidy_block`], for one arm.
pub open spec fn tidy_arm(a: Arm) -> bool
    decreases a, 0nat,
{
    match a.body {
        ArmBody::Expr(_) => true,
        ArmBody::Block(b) => tidy_block(b) && match a.pat {
            Pattern::Ctor { path, fields } => forall|i: int|
                0 <= i < fields@.len() ==> match #[trigger] fields@[i] {
                    FieldPat::Bind(x) => !assign::block_assigns(b, x@),
                    FieldPat::Wildcard => true,
                },
            Pattern::Wildcard => true,
        },
    }
}

// ---- functions -----------------------------------------------------------------------------------------

/// Whether `x` and `y` denote the same parameter in a contract, or both the
/// result.
pub open spec fn same_param(
    p: Seq<Seq<char>>,
    q: Seq<Seq<char>>,
    x: Seq<char>,
    y: Seq<char>,
) -> bool {
    &&& (x == "result"@) == (y == "result"@)
    &&& text::first_index(p, x) == text::first_index(q, y)
}

/// Whether an expression has a form that a contract clause can have.
pub open spec fn clause_form(e: Expr) -> bool {
    match e {
        Expr::Int(_) => true,
        Expr::Bool(_) => true,
        Expr::Var(_) => true,
        Expr::Binary(_, _, _) => true,
        Expr::Unary(_, _) => true,
        _ => false,
    }
}

/// Whether two contract clauses differ in the names of parameters only. What no
/// clause can be is refused, whatever it is.
pub open spec fn same_clause(p: Seq<Seq<char>>, q: Seq<Seq<char>>, a: Expr, b: Expr) -> bool
    decreases a,
{
    match (a, b) {
        (Expr::Int(x), Expr::Int(y)) => x == y,
        (Expr::Bool(x), Expr::Bool(y)) => x == y,
        (Expr::Var(x), Expr::Var(y)) => same_param(p, q, x@, y@),
        (Expr::Binary(l, o, r), Expr::Binary(l2, o2, r2)) => {
            o == o2 && same_clause(p, q, *l, *l2) && same_clause(p, q, *r, *r2)
        },
        (Expr::Unary(o, x), Expr::Unary(o2, y)) => o == o2 && same_clause(p, q, *x, *y),
        _ => !clause_form(a) && !clause_form(b),
    }
}

/// The parameters of two functions, pair by pair.
pub open spec fn param_env(a: FnDecl, b: FnDecl) -> Env {
    Seq::new(a.params@.len(), |i: int| (a.params@[i].name@, b.params@[i].name@, false))
}

/// Whether two functions differ in their own names, their docs and the names of
/// their parameters and locals only.
pub open spec fn same_fn(m: Module, a: FnDecl, b: FnDecl) -> bool {
    let p = lower::param_names(a.params@);
    let q = lower::param_names(b.params@);
    &&& surface::generic_names_view(a.generics@) == surface::generic_names_view(b.generics@)
    &&& a.is_unsafe == b.is_unsafe
    &&& syntax::opt_stype_view(a.ret) == syntax::opt_stype_view(b.ret)
    &&& a.params@.len() == b.params@.len()
    &&& forall|i: int|
        0 <= i < a.params@.len() ==> (#[trigger] a.params@[i]).ty@ == b.params@[i].ty@
            && both_declare(a.params@[i].name@, b.params@[i].name@)
    &&& a.pre@.len() == b.pre@.len()
    &&& forall|i: int| 0 <= i < a.pre@.len() ==> same_clause(p, q, #[trigger] a.pre@[i], b.pre@[i])
    &&& a.post@.len() == b.post@.len()
    &&& forall|i: int|
        0 <= i < a.post@.len() ==> same_clause(p, q, #[trigger] a.post@[i], b.post@[i])
    &&& match (a.body, b.body) {
        (None, None) => true,
        (Some(k), Some(l)) => same_block(m, param_env(a, b), k, l),
        _ => false,
    }
}

} // verus!
