//! What contract clauses and loop invariants mean, and that lowering keeps it: a
//! predicate holds where its clause does.
use vstd::prelude::*;

use crate::contract;
use crate::contract::NamesView;
use crate::core_meaning;
use crate::core_meaning::Value;
use crate::ir::{ArithOp, CExprView, CmpOp, PredView};
use crate::lower;
use crate::lower_sound;
use crate::scope::{LowererView, PendView, ScopeView};
use crate::source_meaning;
use crate::source_meaning::Names;
use crate::syntax::{BinOp, Expr, FnDecl, UnOp};
use crate::text;

verus! {

// ---- clauses ----------------------------------------------------------------------------------------

/// The value of an operand of a comparison.
pub open spec fn operand_value(e: Expr, names: Names) -> Option<Value> {
    match e {
        Expr::Int(n) => Some(Value::Int(n as int)),
        Expr::Bool(b) => Some(Value::Bool(b)),
        Expr::Var(x) => names(x@),
        _ => None,
    }
}

/// Whether two values compare as an operator says.
pub open spec fn comparison_truth(op: BinOp, x: Value, y: Value) -> Option<bool> {
    if source_meaning::alike(x, y) {
        source_meaning::ordered(op, source_meaning::rank(x)->0, source_meaning::rank(y)->0)
    } else {
        None
    }
}

/// Whether a clause holds, where names have the given values.
pub open spec fn clause_truth(e: Expr, names: Names) -> Option<bool>
    decreases e,
{
    match e {
        Expr::Bool(b) => Some(b),
        Expr::Binary(l, BinOp::And, r) => match (clause_truth(*l, names), clause_truth(*r, names)) {
            (Some(a), Some(b)) => Some(a && b),
            _ => None,
        },
        Expr::Binary(l, BinOp::Or, r) => match (clause_truth(*l, names), clause_truth(*r, names)) {
            (Some(a), Some(b)) => Some(a || b),
            _ => None,
        },
        Expr::Binary(l, op, r) => match (operand_value(*l, names), operand_value(*r, names)) {
            (Some(x), Some(y)) => comparison_truth(op, x, y),
            _ => None,
        },
        Expr::Unary(UnOp::Not, x) => match clause_truth(*x, names) {
            Some(a) => Some(!a),
            None => None,
        },
        _ => None,
    }
}

// ---- predicates -------------------------------------------------------------------------------------

/// The value of an expression of a predicate, where variable `i` is `env[i]`.
pub open spec fn cexpr_value(x: CExprView, env: Seq<Value>) -> Option<Value>
    decreases x,
{
    match x {
        CExprView::Atom(a) => core_meaning::atom_value(a, env, true),
        CExprView::Bin(op, l, r) => match (cexpr_value(*l, env), cexpr_value(*r, env)) {
            (Some(Value::Int(a)), Some(Value::Int(b))) => match op {
                ArithOp::Add => Some(Value::Int(core_meaning::wrap(a + b))),
                ArithOp::Sub => Some(Value::Int(core_meaning::wrap(a - b))),
                ArithOp::Mul => Some(Value::Int(core_meaning::wrap(a * b))),
                ArithOp::Div => if core_meaning::divides(a, b) {
                    Some(Value::Int(core_meaning::quotient(a, b)))
                } else {
                    None
                },
                ArithOp::Rem => if core_meaning::divides(a, b) {
                    Some(Value::Int(core_meaning::remainder(a, b)))
                } else {
                    None
                },
            },
            _ => None,
        },
        CExprView::Neg(e) => match cexpr_value(*e, env) {
            Some(Value::Int(a)) => Some(Value::Int(core_meaning::wrap(-a))),
            _ => None,
        },
        CExprView::Len(e) => match cexpr_value(*e, env) {
            Some(v) => match core_meaning::members(v) {
                Some(s) => Some(Value::Int(s.len() as int)),
                None => None,
            },
            None => None,
        },
        CExprView::Index(b, i) => match (cexpr_value(*b, env), cexpr_value(*i, env)) {
            (Some(v), Some(Value::Int(k))) => match core_meaning::members(v) {
                Some(s) => if 0 <= k < s.len() {
                    Some(s[k])
                } else {
                    None
                },
                None => None,
            },
            _ => None,
        },
        CExprView::Proj(b, k) => match cexpr_value(*b, env) {
            Some(Value::Data { ty, tag, fields }) => if k < fields.len() {
                Some(fields[k as int])
            } else {
                None
            },
            _ => None,
        },
    }
}

/// Whether two words compare as a predicate says.
pub open spec fn words_compare(op: CmpOp, a: int, b: int) -> bool {
    match op {
        CmpOp::Eq => a == b,
        CmpOp::Ne => a != b,
        CmpOp::Lt => a < b,
        CmpOp::Le => a <= b,
        CmpOp::Gt => a > b,
        CmpOp::Ge => a >= b,
    }
}

/// Whether a predicate without quantifiers holds, where variable `i` is `env[i]`.
pub open spec fn pred_truth(p: PredView, env: Seq<Value>) -> Option<bool>
    decreases p,
{
    match p {
        PredView::True => Some(true),
        PredView::False => Some(false),
        PredView::Cmp(op, l, r) => match (cexpr_value(l, env), cexpr_value(r, env)) {
            (Some(Value::Int(a)), Some(Value::Int(b))) => Some(words_compare(op, a, b)),
            (Some(Value::Char(a)), Some(Value::Char(b))) => Some(
                words_compare(op, a as int, b as int),
            ),
            (Some(Value::Bool(a)), Some(Value::Bool(b))) => Some(
                words_compare(
                    op,
                    core_meaning::word_of(Value::Bool(a))->0,
                    core_meaning::word_of(Value::Bool(b))->0,
                ),
            ),
            _ => None,
        },
        PredView::And(l, r) => match (pred_truth(*l, env), pred_truth(*r, env)) {
            (Some(a), Some(b)) => Some(a && b),
            _ => None,
        },
        PredView::Or(l, r) => match (pred_truth(*l, env), pred_truth(*r, env)) {
            (Some(a), Some(b)) => Some(a || b),
            _ => None,
        },
        PredView::Not(q) => match pred_truth(*q, env) {
            Some(a) => Some(!a),
            None => None,
        },
        _ => None,
    }
}

// ---- lowering ---------------------------------------------------------------------------------------

/// Whether the names of a contract have the values of the arguments: the first parameter
/// of a name is what the name means, and `result` comes behind the arguments.
pub open spec fn arguments(params: Seq<Seq<char>>, with_result: bool, env: Seq<Value>, names: Names) -> bool {
    &&& env.len() == params.len() + if with_result {
        1int
    } else {
        0
    }
    &&& env.len() <= u32::MAX
    &&& with_result ==> names("result"@) == Some(env[params.len() as int])
    &&& forall|i: int|
        0 <= i < params.len() && params[i] != "result"@ && (forall|j: int|
            0 <= j < i ==> #[trigger] params[j] != params[i]) ==> names(#[trigger] params[i]) == Some(
            env[i],
        )
}

/// Whether the names that a clause can use have the values of their atoms.
pub open spec fn means(names: NamesView, env: Seq<Value>, vals: Names) -> bool {
    match names {
        NamesView::Flat { params, with_result } => arguments(params, with_result, env, vals),
        NamesView::Local(sc) => lower_sound::links(sc, env, vals),
    }
}

proof fn lemma_first_index(v: Seq<Seq<char>>, x: Seq<char>)
    ensures
        match text::first_index(v, x) {
            Some(i) => 0 <= i < v.len() && v[i] == x && forall|j: int| 0 <= j < i ==> v[j] != x,
            None => forall|j: int| 0 <= j < v.len() ==> v[j] != x,
        },
    decreases v.len(),
{
    if v.len() > 0 {
        lemma_first_index(v.drop_last(), x);
        assert forall|j: int| 0 <= j < v.len() - 1 implies v[j] == v.drop_last()[j] by {}
    }
}

proof fn lemma_operand(e: Expr, names: NamesView, env: Seq<Value>, vals: Names)
    requires
        means(names, env, vals),
    ensures
        contract::operand_s(e, names) matches Ok(a) ==> core_meaning::atom_value(a, env, true)
            == operand_value(e, vals) && operand_value(e, vals) is Some,
{
    match (e, names) {
        (Expr::Var(x), NamesView::Flat { params, with_result }) => {
            if x@ != "result"@ {
                lemma_first_index(params, x@);
            }
        },
        (Expr::Var(x), NamesView::Local(sc)) => {
            let v = vals(x@);
        },
        _ => {},
    }
}

/// A predicate holds exactly where the clause that it comes from does.
pub proof fn lemma_a_predicate_holds_where_its_clause_does(
    e: Expr,
    names: NamesView,
    env: Seq<Value>,
    vals: Names,
)
    requires
        means(names, env, vals),
    ensures
        contract::pred_s(e, names) matches Ok(p) ==> pred_truth(p, env) == clause_truth(e, vals),
    decreases e,
{
    match e {
        Expr::Binary(l, op, r) => {
            lemma_a_predicate_holds_where_its_clause_does(*l, names, env, vals);
            lemma_a_predicate_holds_where_its_clause_does(*r, names, env, vals);
            lemma_operand(*l, names, env, vals);
            lemma_operand(*r, names, env, vals);
        },
        Expr::Unary(op, x) => lemma_a_predicate_holds_where_its_clause_does(*x, names, env, vals),
        _ => {},
    }
}

proof fn lemma_clauses(v: Seq<Expr>, n: nat, names: NamesView, env: Seq<Value>, vals: Names)
    requires
        means(names, env, vals),
        n <= v.len(),
    ensures
        contract::clauses_s(v, n, names) matches Ok(out) ==> out.len() == n && forall|i: int|
            0 <= i < n ==> pred_truth(#[trigger] out[i], env) == clause_truth(v[i], vals),
    decreases n,
{
    if n > 0 {
        lemma_clauses(v, (n - 1) as nat, names, env, vals);
        lemma_a_predicate_holds_where_its_clause_does(v[n - 1], names, env, vals);
    }
}

/// The contract of a function is that of its source: whatever the arguments are, each
/// precondition holds of them where its `requires` clause does, and each postcondition
/// of them and the result where its `ensures` clause does.
pub proof fn lemma_a_contract_is_that_of_the_source(
    lw: LowererView,
    f: FnDecl,
    pend: PendView,
    args: Seq<Value>,
    result: Value,
    before: Names,
    after: Names,
)
    requires
        arguments(lower::param_names(f.params@), false, args, before),
        arguments(lower::param_names(f.params@), true, args.push(result), after),
    ensures
        lower::fn_s(lw, f, pend) matches Ok((d, _)) ==> {
            &&& d.pre.len() == f.pre@.len()
            &&& d.post.len() == f.post@.len()
            &&& forall|i: int|
                0 <= i < d.pre.len() ==> pred_truth(#[trigger] d.pre[i], args) == clause_truth(
                    f.pre@[i],
                    before,
                )
            &&& forall|i: int|
                0 <= i < d.post.len() ==> pred_truth(#[trigger] d.post[i], args.push(result))
                    == clause_truth(f.post@[i], after)
        },
{
    let params = lower::param_names(f.params@);
    lemma_clauses(
        f.pre@,
        f.pre@.len(),
        NamesView::Flat { params, with_result: false },
        args,
        before,
    );
    lemma_clauses(
        f.post@,
        f.post@.len(),
        NamesView::Flat { params, with_result: true },
        args.push(result),
        after,
    );
}

/// Whether the first `n` clauses hold.
pub open spec fn all_hold(v: Seq<Expr>, n: nat, vals: Names) -> Option<bool>
    decreases n,
{
    if n == 0 {
        Some(true)
    } else {
        match (all_hold(v, (n - 1) as nat, vals), clause_truth(v[n - 1], vals)) {
            (Some(a), Some(b)) => Some(a && b),
            _ => None,
        }
    }
}

/// The invariant of a loop holds exactly where all its clauses do.
pub proof fn lemma_an_invariant_holds_where_its_clauses_do(
    v: Seq<Expr>,
    n: nat,
    sc: ScopeView,
    env: Seq<Value>,
    vals: Names,
)
    requires
        lower_sound::links(sc, env, vals),
        n <= v.len(),
    ensures
        contract::invariant_s(v, n, sc) matches Ok(p) ==> match p {
            Some(p) => n > 0 && pred_truth(p, env) == all_hold(v, n, vals),
            None => n == 0,
        },
    decreases n,
{
    if n > 0 {
        lemma_an_invariant_holds_where_its_clauses_do(v, (n - 1) as nat, sc, env, vals);
        lemma_a_predicate_holds_where_its_clause_does(v[n - 1], NamesView::Local(sc), env, vals);
    }
}

} // verus!
