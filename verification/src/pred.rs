//! Readable text of contract predicates.
//!
//! A predicate carries no names: a variable is an index, in one of two
//! conventions ([`PredVars`]). The caller maps each index that is not a binder
//! to a name, so a diagnostic reads like the source. Binders are named by their
//! nesting: `i` for the outermost, then `i1`, `i2`, ...
use vstd::prelude::*;
use vstd::string::*;

use crate::ir::{ArithOp, Atom, AtomView, CExpr, CExprView, CNode, CmpOp, Literal, LiteralView, Pred, PredView};
use crate::ops;
use crate::text;
use crate::text::{push_decimal, push_decimal_int};

verus! {

/// How a predicate counts its variables.
#[derive(Debug, Clone, Copy, PartialEq, Eq, Structural)]
pub enum PredVars {
    /// Contracts: `Var(k)` is parameter k, `Var(arity)` is `result`, and
    /// `Var(arity + 1 + j)` is the j-th enclosing binder.
    Flat { arity: u32 },
    /// Loop invariants: de Bruijn indices; each quantifier binds index 0.
    DeBruijn,
}

/// What `format!("{:?}", s)` gives for a string.
pub uninterp spec fn debug_text(s: Seq<char>) -> Seq<char>;

/// What `format!("{:?}", c)` gives for a character.
pub uninterp spec fn debug_char_text(c: char) -> Seq<char>;

/// Calls the `Debug` formatting of `str`: the text in double quotes with its
/// escapes. The contract says that it depends on the string alone.
#[verifier::external_body]
fn debug_string(s: &str) -> (r: String)
    ensures
        r@ == debug_text(s@),
{
    format!("{:?}", s)
}

/// Calls the `Debug` formatting of `char`: the character in single quotes with
/// its escapes. The contract says that it depends on the character alone.
#[verifier::external_body]
fn debug_char(c: char) -> (r: String)
    ensures
        r@ == debug_char_text(c),
{
    format!("{:?}", c)
}

/// How deeply quantifiers are nested.
pub open spec fn nesting(p: PredView) -> nat
    decreases p,
{
    match p {
        PredView::And(l, r) => if nesting(*l) > nesting(*r) {
            nesting(*l)
        } else {
            nesting(*r)
        },
        PredView::Or(l, r) => if nesting(*l) > nesting(*r) {
            nesting(*l)
        } else {
            nesting(*r)
        },
        PredView::Not(q) => nesting(*q),
        PredView::Forall { lo, hi, body } => nesting(*body) + 1,
        PredView::Exists { lo, hi, body } => nesting(*body) + 1,
        _ => 0,
    }
}

/// How the caller spells what a predicate leaves open: the name of a variable
/// and the text of a float, which is kept as its bits.
pub struct Spelling {
    pub name: spec_fn(u32) -> Seq<char>,
    pub float: spec_fn(u64) -> Seq<char>,
}

/// The name of the binder at nesting depth `j`, the outermost being 0.
pub open spec fn binder_text(j: int) -> Seq<char> {
    if j == 0 {
        "i"@
    } else {
        "i"@ + text::decimal(j as nat)
    }
}

pub open spec fn comparison_text(op: CmpOp) -> Seq<char> {
    match op {
        CmpOp::Eq => "=="@,
        CmpOp::Ne => "!="@,
        CmpOp::Lt => "<"@,
        CmpOp::Le => "<="@,
        CmpOp::Gt => ">"@,
        CmpOp::Ge => ">="@,
    }
}

pub open spec fn arith_text(op: ArithOp) -> Seq<char> {
    match op {
        ArithOp::Add => "+"@,
        ArithOp::Sub => "-"@,
        ArithOp::Mul => "*"@,
        ArithOp::Div => "/"@,
        ArithOp::Rem => "%"@,
    }
}

/// The text of an atom at quantifier depth `depth`.
pub open spec fn atom_text(a: AtomView, sp: Spelling, vars: PredVars, depth: int) -> Seq<char> {
    match a {
        AtomView::Var(i) => match vars {
            PredVars::Flat { arity } => if i > arity && i - arity - 1 < depth {
                binder_text(i - arity - 1)
            } else {
                (sp.name)(i)
            },
            PredVars::DeBruijn => if i < depth {
                binder_text(depth - 1 - i)
            } else {
                (sp.name)((i - depth) as u32)
            },
        },
        AtomView::Global(h) => "global#"@ + ops::hex_view(h).take(8),
        AtomView::Lit(l) => match l {
            LiteralView::Int(n) => text::decimal_int(n as int),
            LiteralView::Bool(b) => if b {
                "true"@
            } else {
                "false"@
            },
            LiteralView::Unit => "()"@,
            LiteralView::Float(bits) => (sp.float)(bits),
            LiteralView::Str(s) => debug_text(s),
            LiteralView::Char(c) => debug_char_text(c),
        },
    }
}

/// The text of a contract expression at quantifier depth `depth`.
pub open spec fn cexpr_text(e: CExprView, sp: Spelling, vars: PredVars, depth: int) -> Seq<char>
    decreases e,
{
    match e {
        CExprView::Atom(a) => atom_text(a, sp, vars, depth),
        CExprView::Bin(op, l, r) => "("@ + cexpr_text(*l, sp, vars, depth) + " "@ + arith_text(op)
            + " "@ + cexpr_text(*r, sp, vars, depth) + ")"@,
        CExprView::Neg(x) => "-"@ + cexpr_text(*x, sp, vars, depth),
        CExprView::Len(x) => "len("@ + cexpr_text(*x, sp, vars, depth) + ")"@,
        CExprView::Index(b, i) => cexpr_text(*b, sp, vars, depth) + "["@ + cexpr_text(
            *i,
            sp,
            vars,
            depth,
        ) + "]"@,
        CExprView::Proj(b, k) => cexpr_text(*b, sp, vars, depth) + "."@ + text::decimal(k as nat),
    }
}

/// The text of a predicate at quantifier depth `depth`.
pub open spec fn pred_text(p: PredView, sp: Spelling, vars: PredVars, depth: int) -> Seq<char>
    decreases p,
{
    match p {
        PredView::True => "true"@,
        PredView::False => "false"@,
        PredView::Cmp(op, a, b) => cexpr_text(a, sp, vars, depth) + " "@ + comparison_text(op) + " "@
            + cexpr_text(b, sp, vars, depth),
        PredView::And(l, r) => "("@ + pred_text(*l, sp, vars, depth) + " and "@ + pred_text(
            *r,
            sp,
            vars,
            depth,
        ) + ")"@,
        PredView::Or(l, r) => "("@ + pred_text(*l, sp, vars, depth) + " or "@ + pred_text(
            *r,
            sp,
            vars,
            depth,
        ) + ")"@,
        PredView::Not(q) => "not "@ + pred_text(*q, sp, vars, depth),
        PredView::Forall { lo, hi, body } => "forall "@ + binder_text(depth) + " in "@ + cexpr_text(
            lo,
            sp,
            vars,
            depth,
        ) + ".."@ + cexpr_text(hi, sp, vars, depth) + ": "@ + pred_text(*body, sp, vars, depth + 1),
        PredView::Exists { lo, hi, body } => "exists "@ + binder_text(depth) + " in "@ + cexpr_text(
            lo,
            sp,
            vars,
            depth,
        ) + ".."@ + cexpr_text(hi, sp, vars, depth) + ": "@ + pred_text(*body, sp, vars, depth + 1),
    }
}

/// Whether the two functions spell as `sp` says.
pub open spec fn spells<F: Fn(u32) -> String, G: Fn(u64) -> String>(
    name: F,
    float: G,
    sp: Spelling,
) -> bool {
    &&& forall|i: u32, s: String| #[trigger] call_ensures(name, (i,), s) ==> s@ == (sp.name)(i)
    &&& forall|b: u64, s: String| #[trigger] call_ensures(float, (b,), s) ==> s@ == (sp.float)(b)
}

/// Whether an atom at quantifier depth `depth` leaves the name of index `i` to the
/// caller.
pub open spec fn free_in_atom(a: AtomView, vars: PredVars, depth: int, i: u32) -> bool {
    match a {
        AtomView::Var(k) => match vars {
            PredVars::Flat { arity } => !(k > arity && k - arity - 1 < depth) && i == k,
            PredVars::DeBruijn => k >= depth && i == k - depth,
        },
        _ => false,
    }
}

/// Whether an expression leaves the name of index `i` to the caller.
pub open spec fn free_in_cexpr(e: CExprView, vars: PredVars, depth: int, i: u32) -> bool
    decreases e,
{
    match e {
        CExprView::Atom(a) => free_in_atom(a, vars, depth, i),
        CExprView::Bin(op, l, r) => free_in_cexpr(*l, vars, depth, i) || free_in_cexpr(
            *r,
            vars,
            depth,
            i,
        ),
        CExprView::Neg(x) => free_in_cexpr(*x, vars, depth, i),
        CExprView::Len(x) => free_in_cexpr(*x, vars, depth, i),
        CExprView::Index(b, x) => free_in_cexpr(*b, vars, depth, i) || free_in_cexpr(
            *x,
            vars,
            depth,
            i,
        ),
        CExprView::Proj(b, k) => free_in_cexpr(*b, vars, depth, i),
    }
}

/// Whether a predicate leaves the name of index `i` to the caller: a variable of
/// it that no quantifier binds has that index.
pub open spec fn free_in(p: PredView, vars: PredVars, depth: int, i: u32) -> bool
    decreases p,
{
    match p {
        PredView::True => false,
        PredView::False => false,
        PredView::Cmp(op, a, b) => free_in_cexpr(a, vars, depth, i) || free_in_cexpr(
            b,
            vars,
            depth,
            i,
        ),
        PredView::And(l, r) => free_in(*l, vars, depth, i) || free_in(*r, vars, depth, i),
        PredView::Or(l, r) => free_in(*l, vars, depth, i) || free_in(*r, vars, depth, i),
        PredView::Not(q) => free_in(*q, vars, depth, i),
        PredView::Forall { lo, hi, body } => free_in_cexpr(lo, vars, depth, i) || free_in_cexpr(
            hi,
            vars,
            depth,
            i,
        ) || free_in(*body, vars, depth + 1, i),
        PredView::Exists { lo, hi, body } => free_in_cexpr(lo, vars, depth, i) || free_in_cexpr(
            hi,
            vars,
            depth,
            i,
        ) || free_in(*body, vars, depth + 1, i),
    }
}

/// Whether an expression holds the float of these bits.
pub open spec fn float_in_cexpr(e: CExprView, bits: u64) -> bool
    decreases e,
{
    match e {
        CExprView::Atom(a) => a == AtomView::Lit(LiteralView::Float(bits)),
        CExprView::Bin(op, l, r) => float_in_cexpr(*l, bits) || float_in_cexpr(*r, bits),
        CExprView::Neg(x) => float_in_cexpr(*x, bits),
        CExprView::Len(x) => float_in_cexpr(*x, bits),
        CExprView::Index(b, x) => float_in_cexpr(*b, bits) || float_in_cexpr(*x, bits),
        CExprView::Proj(b, k) => float_in_cexpr(*b, bits),
    }
}

/// Whether a predicate holds the float of these bits.
pub open spec fn float_in(p: PredView, bits: u64) -> bool
    decreases p,
{
    match p {
        PredView::True => false,
        PredView::False => false,
        PredView::Cmp(op, a, b) => float_in_cexpr(a, bits) || float_in_cexpr(b, bits),
        PredView::And(l, r) => float_in(*l, bits) || float_in(*r, bits),
        PredView::Or(l, r) => float_in(*l, bits) || float_in(*r, bits),
        PredView::Not(q) => float_in(*q, bits),
        PredView::Forall { lo, hi, body } => float_in_cexpr(lo, bits) || float_in_cexpr(hi, bits)
            || float_in(*body, bits),
        PredView::Exists { lo, hi, body } => float_in_cexpr(lo, bits) || float_in_cexpr(hi, bits)
            || float_in(*body, bits),
    }
}

/// The text of a contract predicate without quantifiers: `name` gives the name
/// of each index that occurs, `float` the text of each float that occurs, from its
/// bits.
pub fn render_pred<F: Fn(u32) -> String, G: Fn(u64) -> String>(p: &Pred, name: &F, float: &G) -> (r:
    String)
    requires
        forall|i: u32|
            free_in(p@, PredVars::Flat { arity: u32::MAX }, 0, i) ==> #[trigger] call_requires(
                *name,
                (i,),
            ),
        forall|b: u64| float_in(p@, b) ==> #[trigger] call_requires(*float, (b,)),
        nesting(p@) <= u32::MAX,
    ensures
        forall|sp: Spelling| #[trigger]
            spells(*name, *float, sp) ==> r@ == pred_text(
                p@,
                sp,
                PredVars::Flat { arity: u32::MAX },
                0,
            ),
{
    render(p, name, float, PredVars::Flat { arity: u32::MAX }, 0)
}

/// The text of a predicate under an explicit convention. `name` maps the
/// indices that occur and are not binders; `float` gives the text of each float
/// that occurs, from its bits.
pub fn render_pred_with<F: Fn(u32) -> String, G: Fn(u64) -> String>(
    p: &Pred,
    name: &F,
    float: &G,
    vars: PredVars,
) -> (r: String)
    requires
        forall|i: u32| free_in(p@, vars, 0, i) ==> #[trigger] call_requires(*name, (i,)),
        forall|b: u64| float_in(p@, b) ==> #[trigger] call_requires(*float, (b,)),
        nesting(p@) <= u32::MAX,
    ensures
        forall|sp: Spelling| #[trigger]
            spells(*name, *float, sp) ==> r@ == pred_text(p@, sp, vars, 0),
{
    render(p, name, float, vars, 0)
}

/// The name of the binder at nesting depth `j`.
fn binder_name(j: u32) -> (r: String)
    ensures
        r@ == binder_text(j as int),
{
    let mut s = "i".to_owned();
    if j > 0 {
        push_decimal(&mut s, j as u64);
    }
    s
}

fn render<F: Fn(u32) -> String, G: Fn(u64) -> String>(
    p: &Pred,
    name: &F,
    float: &G,
    vars: PredVars,
    depth: u32,
) -> (r: String)
    requires
        forall|i: u32| free_in(p@, vars, depth as int, i) ==> #[trigger] call_requires(*name, (i,)),
        forall|b: u64| float_in(p@, b) ==> #[trigger] call_requires(*float, (b,)),
        depth + nesting(p@) <= u32::MAX,
    ensures
        forall|sp: Spelling| #[trigger]
            spells(*name, *float, sp) ==> r@ == pred_text(p@, sp, vars, depth as int),
    decreases p,
{
    match p {
        Pred::True => "true".to_owned(),
        Pred::False => "false".to_owned(),
        Pred::Cmp(op, a, b) => {
            let mut s = render_cexpr(a, name, float, vars, depth);
            s.append(" ");
            s.append(comparison_str(*op));
            s.append(" ");
            s.append(render_cexpr(b, name, float, vars, depth).as_str());
            s
        },
        Pred::And(l, r) => {
            let mut s = "(".to_owned();
            s.append(render(l, name, float, vars, depth).as_str());
            s.append(" and ");
            s.append(render(r, name, float, vars, depth).as_str());
            s.append(")");
            s
        },
        Pred::Or(l, r) => {
            let mut s = "(".to_owned();
            s.append(render(l, name, float, vars, depth).as_str());
            s.append(" or ");
            s.append(render(r, name, float, vars, depth).as_str());
            s.append(")");
            s
        },
        Pred::Not(inner) => {
            let mut s = "not ".to_owned();
            s.append(render(inner, name, float, vars, depth).as_str());
            s
        },
        Pred::Forall { domain, body } => {
            let mut s = "forall ".to_owned();
            s.append(binder_name(depth).as_str());
            s.append(" in ");
            s.append(render_cexpr(&domain.0, name, float, vars, depth).as_str());
            s.append("..");
            s.append(render_cexpr(&domain.1, name, float, vars, depth).as_str());
            s.append(": ");
            s.append(render(body, name, float, vars, depth + 1).as_str());
            s
        },
        Pred::Exists { domain, body } => {
            let mut s = "exists ".to_owned();
            s.append(binder_name(depth).as_str());
            s.append(" in ");
            s.append(render_cexpr(&domain.0, name, float, vars, depth).as_str());
            s.append("..");
            s.append(render_cexpr(&domain.1, name, float, vars, depth).as_str());
            s.append(": ");
            s.append(render(body, name, float, vars, depth + 1).as_str());
            s
        },
    }
}

fn render_cexpr<F: Fn(u32) -> String, G: Fn(u64) -> String>(
    e: &CExpr,
    name: &F,
    float: &G,
    vars: PredVars,
    depth: u32,
) -> (r: String)
    requires
        forall|i: u32| free_in_cexpr(e@, vars, depth as int, i) ==> #[trigger] call_requires(*name, (i,)),
        forall|b: u64| float_in_cexpr(e@, b) ==> #[trigger] call_requires(*float, (b,)),
    ensures
        forall|sp: Spelling| #[trigger]
            spells(*name, *float, sp) ==> r@ == cexpr_text(e@, sp, vars, depth as int),
    decreases e,
{
    match e {
        CExpr::Atom(a) => render_var_atom(a, name, float, vars, depth),
        CExpr::Node(n) => render_cnode(n, name, float, vars, depth),
    }
}

fn render_cnode<F: Fn(u32) -> String, G: Fn(u64) -> String>(
    n: &CNode,
    name: &F,
    float: &G,
    vars: PredVars,
    depth: u32,
) -> (r: String)
    requires
        forall|i: u32| free_in_cexpr(n@, vars, depth as int, i) ==> #[trigger] call_requires(*name, (i,)),
        forall|b: u64| float_in_cexpr(n@, b) ==> #[trigger] call_requires(*float, (b,)),
    ensures
        forall|sp: Spelling| #[trigger]
            spells(*name, *float, sp) ==> r@ == cexpr_text(n@, sp, vars, depth as int),
    decreases n,
{
    match n {
        CNode::Bin(op, l, r) => {
            let mut s = "(".to_owned();
            s.append(render_cexpr(l, name, float, vars, depth).as_str());
            s.append(" ");
            s.append(arith_str(*op));
            s.append(" ");
            s.append(render_cexpr(r, name, float, vars, depth).as_str());
            s.append(")");
            s
        },
        CNode::Neg(inner) => {
            let mut s = "-".to_owned();
            s.append(render_cexpr(inner, name, float, vars, depth).as_str());
            s
        },
        CNode::Len(inner) => {
            let mut s = "len(".to_owned();
            s.append(render_cexpr(inner, name, float, vars, depth).as_str());
            s.append(")");
            s
        },
        CNode::Index(base, index) => {
            let mut s = render_cexpr(base, name, float, vars, depth);
            s.append("[");
            s.append(render_cexpr(index, name, float, vars, depth).as_str());
            s.append("]");
            s
        },
        CNode::Proj(base, idx) => {
            let mut s = render_cexpr(base, name, float, vars, depth);
            s.append(".");
            push_decimal(&mut s, *idx as u64);
            s
        },
    }
}

/// The text of an atom; a variable is named under the convention at hand.
fn render_var_atom<F: Fn(u32) -> String, G: Fn(u64) -> String>(
    a: &Atom,
    name: &F,
    float: &G,
    vars: PredVars,
    depth: u32,
) -> (r: String)
    requires
        forall|i: u32| free_in_atom(a@, vars, depth as int, i) ==> #[trigger] call_requires(*name, (i,)),
        forall|b: u64| a@ == AtomView::Lit(LiteralView::Float(b)) ==> #[trigger] call_requires(*float, (b,)),
    ensures
        forall|sp: Spelling| #[trigger]
            spells(*name, *float, sp) ==> r@ == atom_text(a@, sp, vars, depth as int),
{
    match a {
        Atom::Var(i) => match vars {
            PredVars::Flat { arity } => {
                if *i > arity && *i - arity - 1 < depth {
                    binder_name(*i - arity - 1)
                } else {
                    name(*i)
                }
            },
            PredVars::DeBruijn => {
                if *i < depth {
                    binder_name(depth - 1 - *i)
                } else {
                    name(*i - depth)
                }
            },
        },
        _ => render_atom(a, float),
    }
}

/// The text of a literal or a global.
fn render_atom<G: Fn(u64) -> String>(a: &Atom, float: &G) -> (r: String)
    requires
        a !is Var,
        forall|b: u64|
            a@ == AtomView::Lit(LiteralView::Float(b)) ==> #[trigger] call_requires(*float, (b,)),
    ensures
        forall|sp: Spelling, vars: PredVars, depth: int|
            (forall|b: u64, s: String|
                #[trigger] call_ensures(*float, (b,), s) ==> s@ == (sp.float)(b)) ==> r@
                == #[trigger] atom_text(a@, sp, vars, depth),
{
    match a {
        Atom::Var(i) => {
            let mut s = "v".to_owned();
            push_decimal(&mut s, *i as u64);
            s
        },
        Atom::Lit(Literal::Int(n)) => {
            let mut s = String::new();
            push_decimal_int(&mut s, *n);
            assert(s@ =~= text::decimal_int(*n as int));
            s
        },
        Atom::Lit(Literal::Bool(b)) => if *b {
            "true".to_owned()
        } else {
            "false".to_owned()
        },
        Atom::Lit(Literal::Unit) => "()".to_owned(),
        Atom::Lit(Literal::Float(bits)) => float(*bits),
        Atom::Lit(Literal::Str(s)) => debug_string(s.as_str()),
        Atom::Lit(Literal::Char(c)) => debug_char(*c),
        Atom::Global(h) => {
            let mut s = "global#".to_owned();
            let hex = h.to_hex();
            s.append(hex.as_str().substring_char(0, 8));
            assert(ops::hex_view(h@).subrange(0, 8) =~= ops::hex_view(h@).take(8));
            s
        },
    }
}

fn comparison_str(op: CmpOp) -> (r: &'static str)
    ensures
        r@ == comparison_text(op),
{
    match op {
        CmpOp::Eq => "==",
        CmpOp::Ne => "!=",
        CmpOp::Lt => "<",
        CmpOp::Le => "<=",
        CmpOp::Gt => ">",
        CmpOp::Ge => ">=",
    }
}

fn arith_str(op: ArithOp) -> (r: &'static str)
    ensures
        r@ == arith_text(op),
{
    match op {
        ArithOp::Add => "+",
        ArithOp::Sub => "-",
        ArithOp::Mul => "*",
        ArithOp::Div => "/",
        ArithOp::Rem => "%",
    }
}

} // verus!
