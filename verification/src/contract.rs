//! Contract clauses and loop invariants, as predicates.
use vstd::prelude::*;

use crate::ir;
use crate::ir::{Atom, AtomView, CExpr, CExprView, CmpOp, Literal, LiteralView, Pred, PredView};
use crate::lower_error::{LowerError, LowerErrorView};
use crate::scope;
use crate::scope::{Scope, ScopeView};
use crate::syntax::{BinOp, Expr, UnOp};
use crate::text;
use crate::text::{position, str_eq};

verus! {

/// How the names of a clause are resolved.
pub enum Names<'a> {
    /// In a contract: a parameter is its position, and `result`, where it is
    /// allowed, the number of parameters.
    Flat { params: &'a Vec<String>, with_result: bool },
    /// In a loop invariant: by the bindings in scope.
    Local(&'a Scope),
}

/// The mathematical counterpart of [`Names`].
pub enum NamesView {
    Flat { params: Seq<Seq<char>>, with_result: bool },
    Local(ScopeView),
}

impl<'a> View for Names<'a> {
    type V = NamesView;

    open spec fn view(&self) -> NamesView {
        match self {
            Names::Flat { params, with_result } => NamesView::Flat {
                params: text::strings_view(params@),
                with_result: *with_result,
            },
            Names::Local(sc) => NamesView::Local(sc@),
        }
    }
}

/// The comparison of a binary operator.
pub open spec fn comparison(op: BinOp) -> Option<CmpOp> {
    match op {
        BinOp::Eq => Some(CmpOp::Eq),
        BinOp::Ne => Some(CmpOp::Ne),
        BinOp::Lt => Some(CmpOp::Lt),
        BinOp::Le => Some(CmpOp::Le),
        BinOp::Gt => Some(CmpOp::Gt),
        BinOp::Ge => Some(CmpOp::Ge),
        _ => None,
    }
}

/// The comparison of a binary operator.
pub fn comparison_op(op: BinOp) -> (r: Option<CmpOp>)
    ensures
        r == comparison(op),
{
    match op {
        BinOp::Eq => Some(CmpOp::Eq),
        BinOp::Ne => Some(CmpOp::Ne),
        BinOp::Lt => Some(CmpOp::Lt),
        BinOp::Le => Some(CmpOp::Le),
        BinOp::Gt => Some(CmpOp::Gt),
        BinOp::Ge => Some(CmpOp::Ge),
        _ => None,
    }
}

/// An operand of a comparison: a name or a literal.
pub open spec fn operand_s(e: Expr, names: NamesView) -> Result<AtomView, LowerErrorView> {
    match e {
        Expr::Int(n) => Ok(AtomView::Lit(LiteralView::Int(n))),
        Expr::Bool(b) => Ok(AtomView::Lit(LiteralView::Bool(b))),
        Expr::Var(name) => match names {
            NamesView::Flat { params, with_result } => if name@ == "result"@ {
                if with_result {
                    Ok(AtomView::Var((params.len() as usize) as u32))
                } else {
                    Err(LowerErrorView::ResultInRequires)
                }
            } else {
                match text::first_index(params, name@) {
                    Some(i) => Ok(AtomView::Var((i as usize) as u32)),
                    None => Err(LowerErrorView::UnknownContractVar { name: name@ }),
                }
            },
            NamesView::Local(sc) => match scope::local(sc, name@) {
                Some(b) => Ok(b.atom),
                None => Err(LowerErrorView::UnknownContractVar { name: name@ }),
            },
        },
        _ => Err(LowerErrorView::ContractOperandNotAtomic),
    }
}

/// A clause as a predicate: comparisons of atoms joined by `and` and `or`, and
/// in a contract also negated.
pub open spec fn pred_s(e: Expr, names: NamesView) -> Result<PredView, LowerErrorView>
    decreases e,
{
    match e {
        Expr::Bool(b) => Ok(
            if b {
                PredView::True
            } else {
                PredView::False
            },
        ),
        Expr::Binary(l, op, r) => match op {
            BinOp::And => match pred_s(*l, names) {
                Ok(p) => match pred_s(*r, names) {
                    Ok(q) => Ok(PredView::And(Box::new(p), Box::new(q))),
                    Err(x) => Err(x),
                },
                Err(x) => Err(x),
            },
            BinOp::Or => match pred_s(*l, names) {
                Ok(p) => match pred_s(*r, names) {
                    Ok(q) => Ok(PredView::Or(Box::new(p), Box::new(q))),
                    Err(x) => Err(x),
                },
                Err(x) => Err(x),
            },
            _ => match comparison(op) {
                None => Err(LowerErrorView::ContractNotPredicate),
                Some(c) => match operand_s(*l, names) {
                    Ok(a) => match operand_s(*r, names) {
                        Ok(b) => Ok(PredView::Cmp(c, CExprView::Atom(a), CExprView::Atom(b))),
                        Err(x) => Err(x),
                    },
                    Err(x) => Err(x),
                },
            },
        },
        Expr::Unary(op, inner) => if op == UnOp::Not && names is Flat {
            match pred_s(*inner, names) {
                Ok(p) => Ok(PredView::Not(Box::new(p))),
                Err(x) => Err(x),
            }
        } else {
            Err(LowerErrorView::ContractNotPredicate)
        },
        _ => Err(LowerErrorView::ContractNotPredicate),
    }
}

/// The first `n` clauses.
pub open spec fn clauses_s(v: Seq<Expr>, n: nat, names: NamesView) -> Result<
    Seq<PredView>,
    LowerErrorView,
>
    decreases n,
{
    if n == 0 {
        Ok(Seq::empty())
    } else {
        match clauses_s(v, (n - 1) as nat, names) {
            Ok(out) => match pred_s(v[n - 1], names) {
                Ok(p) => Ok(out.push(p)),
                Err(x) => Err(x),
            },
            Err(x) => Err(x),
        }
    }
}

/// The first `n` invariants of a loop, as one conjunction.
pub open spec fn invariant_s(v: Seq<Expr>, n: nat, sc: ScopeView) -> Result<
    Option<PredView>,
    LowerErrorView,
>
    decreases n,
{
    if n == 0 {
        Ok(None)
    } else {
        match invariant_s(v, (n - 1) as nat, sc) {
            Ok(acc) => match pred_s(v[n - 1], NamesView::Local(sc)) {
                Ok(p) => Ok(
                    Some(
                        match acc {
                            None => p,
                            Some(q) => PredView::And(Box::new(q), Box::new(p)),
                        },
                    ),
                ),
                Err(x) => Err(x),
            },
            Err(x) => Err(x),
        }
    }
}

fn lower_operand(e: &Expr, names: &Names) -> (r: Result<Atom, LowerError>)
    ensures
        match operand_s(*e, names@) {
            Ok(a) => r is Ok && r->Ok_0@ == a,
            Err(x) => r is Err && r->Err_0@ == x,
        },
{
    match e {
        Expr::Int(n) => Ok(Atom::Lit(Literal::Int(*n))),
        Expr::Bool(b) => Ok(Atom::Lit(Literal::Bool(*b))),
        Expr::Var(name) => match names {
            Names::Flat { params, with_result } => {
                if str_eq(name.as_str(), "result") {
                    if *with_result {
                        assert(text::strings_view(params@).len() == params@.len());
                        Ok(Atom::Var(params.len() as u32))
                    } else {
                        Err(LowerError::ResultInRequires)
                    }
                } else {
                    match position(params, name.as_str()) {
                        Some(i) => Ok(Atom::Var(i as u32)),
                        None => Err(LowerError::UnknownContractVar { name: name.clone() }),
                    }
                }
            },
            Names::Local(sc) => match sc.resolve_local(name.as_str()) {
                Some(a) => Ok(a),
                None => Err(LowerError::UnknownContractVar { name: name.clone() }),
            },
        },
        _ => Err(LowerError::ContractOperandNotAtomic),
    }
}

/// A clause as a predicate.
pub fn lower_pred(e: &Expr, names: &Names) -> (r: Result<Pred, LowerError>)
    ensures
        match pred_s(*e, names@) {
            Ok(p) => r is Ok && r->Ok_0@ == p,
            Err(x) => r is Err && r->Err_0@ == x,
        },
    decreases e,
{
    match e {
        Expr::Bool(b) => {
            if *b {
                Ok(Pred::True)
            } else {
                Ok(Pred::False)
            }
        },
        Expr::Binary(l, op, r) => match op {
            BinOp::And => {
                let p = match lower_pred(l, names) {
                    Ok(v) => v,
                    Err(e) => {
                        return Err(e);
                    },
                };
                let q = match lower_pred(r, names) {
                    Ok(v) => v,
                    Err(e) => {
                        return Err(e);
                    },
                };
                Ok(Pred::And(Box::new(p), Box::new(q)))
            },
            BinOp::Or => {
                let p = match lower_pred(l, names) {
                    Ok(v) => v,
                    Err(e) => {
                        return Err(e);
                    },
                };
                let q = match lower_pred(r, names) {
                    Ok(v) => v,
                    Err(e) => {
                        return Err(e);
                    },
                };
                Ok(Pred::Or(Box::new(p), Box::new(q)))
            },
            _ => {
                let c = match comparison_op(*op) {
                    Some(c) => c,
                    None => {
                        return Err(LowerError::ContractNotPredicate);
                    },
                };
                let x = match lower_operand(l, names) {
                    Ok(v) => v,
                    Err(e) => {
                        return Err(e);
                    },
                };
                let y = match lower_operand(r, names) {
                    Ok(v) => v,
                    Err(e) => {
                        return Err(e);
                    },
                };
                Ok(Pred::Cmp(c, CExpr::Atom(x), CExpr::Atom(y)))
            },
        },
        Expr::Unary(op, inner) => {
            let flat = match names {
                Names::Flat { params: _, with_result: _ } => true,
                Names::Local(_) => false,
            };
            if flat && *op == UnOp::Not {
                let p = match lower_pred(inner, names) {
                    Ok(v) => v,
                    Err(e) => {
                        return Err(e);
                    },
                };
                Ok(Pred::Not(Box::new(p)))
            } else {
                Err(LowerError::ContractNotPredicate)
            }
        },
        _ => Err(LowerError::ContractNotPredicate),
    }
}

proof fn lemma_clauses_fail(v: Seq<Expr>, i: nat, n: nat, names: NamesView)
    requires
        i <= n,
        clauses_s(v, i, names) is Err,
    ensures
        clauses_s(v, n, names) == clauses_s(v, i, names),
    decreases n - i,
{
    if i < n {
        assert(clauses_s(v, i + 1, names) == clauses_s(v, i, names));
        lemma_clauses_fail(v, i + 1, n, names);
    }
}

/// The clauses of a contract.
pub fn lower_clauses(v: &Vec<Expr>, names: &Names) -> (r: Result<Vec<Pred>, LowerError>)
    ensures
        match clauses_s(v@, v@.len(), names@) {
            Ok(p) => r is Ok && ir::preds_view(r->Ok_0@) == p,
            Err(x) => r is Err && r->Err_0@ == x,
        },
{
    let mut out: Vec<Pred> = Vec::new();
    let mut i: usize = 0;
    assert(ir::preds_view(out@) =~= Seq::empty());
    while i < v.len()
        invariant
            i <= v@.len(),
            clauses_s(v@, i as nat, names@) == Ok::<Seq<PredView>, LowerErrorView>(
                ir::preds_view(out@),
            ),
        decreases v@.len() - i,
    {
        match lower_pred(&v[i], names) {
            Ok(p) => {
                let ghost before = out@;
                out.push(p);
                assert(ir::preds_view(out@) =~= ir::preds_view(before).push(p@));
            },
            Err(e) => {
                proof {
                    lemma_clauses_fail(v@, (i + 1) as nat, v@.len(), names@);
                }
                return Err(e);
            },
        }
        i = i + 1;
    }
    Ok(out)
}

proof fn lemma_invariant_fails(v: Seq<Expr>, i: nat, n: nat, sc: ScopeView)
    requires
        i <= n,
        invariant_s(v, i, sc) is Err,
    ensures
        invariant_s(v, n, sc) == invariant_s(v, i, sc),
    decreases n - i,
{
    if i < n {
        assert(invariant_s(v, i + 1, sc) == invariant_s(v, i, sc));
        lemma_invariant_fails(v, i + 1, n, sc);
    }
}

/// The invariants of a loop, as one conjunction.
pub fn lower_invariants(v: &Vec<Expr>, sc: &Scope) -> (r: Result<Option<Box<Pred>>, LowerError>)
    ensures
        match invariant_s(v@, v@.len(), sc@) {
            Ok(p) => r is Ok && ir::inv_view(r->Ok_0) == p,
            Err(x) => r is Err && r->Err_0@ == x,
        },
{
    let names = Names::Local(sc);
    let mut acc: Option<Box<Pred>> = None;
    let mut i: usize = 0;
    while i < v.len()
        invariant
            i <= v@.len(),
            names@ == NamesView::Local(sc@),
            invariant_s(v@, i as nat, sc@) == Ok::<Option<PredView>, LowerErrorView>(
                ir::inv_view(acc),
            ),
        decreases v@.len() - i,
    {
        match lower_pred(&v[i], &names) {
            Ok(p) => {
                acc = match acc {
                    None => Some(Box::new(p)),
                    Some(q) => Some(Box::new(Pred::And(q, Box::new(p)))),
                };
            },
            Err(e) => {
                proof {
                    lemma_invariant_fails(v@, (i + 1) as nat, v@.len(), sc@);
                }
                return Err(e);
            },
        }
        i = i + 1;
    }
    Ok(acc)
}

} // verus!
