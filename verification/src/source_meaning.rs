//! What source expressions mean: the values that they have, given the values of the
//! names in scope.
use vstd::prelude::*;

use crate::core_meaning;
use crate::core_meaning::{Outcome, Outside, Value};
use crate::decls;
use crate::decls::CtorRef;
use crate::emit;
use crate::hash;
use crate::ir::AtomView;
use crate::resolve;
use crate::scope::{LowererView, PendView, ScopeView};
use crate::syntax::{BinOp, Expr, Field, FieldInit, UnOp};
use crate::text;

verus! {

/// The values of the names in scope.
pub type Names = spec_fn(Seq<char>) -> Option<Value>;

// ---- operators --------------------------------------------------------------------------------------

/// Whether an order between two numbers holds.
pub open spec fn ordered(op: BinOp, a: int, b: int) -> Option<bool> {
    match op {
        BinOp::Eq => Some(a == b),
        BinOp::Ne => Some(a != b),
        BinOp::Lt => Some(a < b),
        BinOp::Le => Some(a <= b),
        BinOp::Gt => Some(a > b),
        BinOp::Ge => Some(a >= b),
        _ => None,
    }
}

/// The number that a truth value or a character counts as where it is compared.
pub open spec fn rank(v: Value) -> Option<int> {
    match v {
        Value::Bool(b) => Some(
            if b {
                1
            } else {
                0
            },
        ),
        Value::Int(n) => Some(n),
        Value::Char(c) => Some(c as int),
        _ => None,
    }
}

/// Values that can be compared.
pub open spec fn alike(x: Value, y: Value) -> bool {
    ||| x is Bool && y is Bool
    ||| x is Int && y is Int
    ||| x is Char && y is Char
}

/// The value of a binary operator. Numbers are 64-bit words: sums, differences and
/// products are cut to one, a quotient is cut towards zero, and a division by zero
/// stops. Strings are joined by `+`. Both operands of `and` and `or` are computed.
pub open spec fn op_value(op: BinOp, x: Value, y: Value) -> Outcome {
    match op {
        BinOp::Add => match (x, y) {
            (Value::Int(a), Value::Int(b)) => Outcome::Value(Value::Int(core_meaning::wrap(a + b))),
            (Value::Str(s), Value::Str(t)) => Outcome::Value(Value::Str(s + t)),
            _ => Outcome::Stop,
        },
        BinOp::Sub => match (x, y) {
            (Value::Int(a), Value::Int(b)) => Outcome::Value(Value::Int(core_meaning::wrap(a - b))),
            _ => Outcome::Stop,
        },
        BinOp::Mul => match (x, y) {
            (Value::Int(a), Value::Int(b)) => Outcome::Value(Value::Int(core_meaning::wrap(a * b))),
            _ => Outcome::Stop,
        },
        BinOp::Div => match (x, y) {
            (Value::Int(a), Value::Int(b)) => if core_meaning::divides(a, b) {
                Outcome::Value(Value::Int(core_meaning::quotient(a, b)))
            } else {
                Outcome::Stop
            },
            _ => Outcome::Stop,
        },
        BinOp::Rem => match (x, y) {
            (Value::Int(a), Value::Int(b)) => if core_meaning::divides(a, b) {
                Outcome::Value(Value::Int(core_meaning::remainder(a, b)))
            } else {
                Outcome::Stop
            },
            _ => Outcome::Stop,
        },
        BinOp::And => match (x, y) {
            (Value::Bool(a), Value::Bool(b)) => Outcome::Value(Value::Bool(a && b)),
            _ => Outcome::Stop,
        },
        BinOp::Or => match (x, y) {
            (Value::Bool(a), Value::Bool(b)) => Outcome::Value(Value::Bool(a || b)),
            _ => Outcome::Stop,
        },
        _ => if alike(x, y) {
            Outcome::Value(Value::Bool(ordered(op, rank(x)->0, rank(y)->0)->0))
        } else {
            Outcome::Stop
        },
    }
}

/// The value of a prefix operator. A reference is what it refers to.
pub open spec fn prefix_value(op: UnOp, x: Value) -> Outcome {
    match (op, x) {
        (UnOp::Neg, Value::Int(a)) => Outcome::Value(Value::Int(core_meaning::wrap(-a))),
        (UnOp::Neg, _) => Outcome::Stop,
        (UnOp::Not, Value::Bool(a)) => Outcome::Value(Value::Bool(!a)),
        (UnOp::Not, _) => Outcome::Stop,
        (UnOp::Ref, _) => Outcome::Value(x),
        (UnOp::RefMut, _) => Outcome::Value(x),
    }
}

/// The member at a position.
pub open spec fn member_value(x: Value, i: Value) -> Outcome {
    match (core_meaning::members(x), i) {
        (Some(v), Value::Int(i)) => if 0 <= i < v.len() {
            Outcome::Value(v[i])
        } else {
            Outcome::Stop
        },
        _ => Outcome::Stop,
    }
}

/// The number of members.
pub open spec fn length_value(x: Value) -> Outcome {
    match core_meaning::members(x) {
        Some(v) => Outcome::Value(Value::Int(v.len() as int)),
        None => Outcome::Stop,
    }
}

/// What a constructor makes: a variant of its enum, or an error that is raised.
pub open spec fn made(lw: LowererView, c: CtorRef, fields: Seq<Value>) -> Outcome {
    let ty = hash::symbol_id(decls::ctor_enum(lw.ms, c));
    if c.is_error {
        Outcome::Raise(ty, fields)
    } else {
        Outcome::Value(Value::Data { ty, tag: c.tag, fields })
    }
}

/// What stands for a definition.
pub open spec fn denoted(a: AtomView) -> Outcome {
    match a {
        AtomView::Global(h) => Outcome::Value(Value::Function(h)),
        _ => Outcome::Stop,
    }
}

/// The function of that name of the standard library.
pub open spec fn library(name: Seq<char>) -> Value {
    Value::Function(hash::symbol_id(name))
}

/// What comes of a function that is given two arguments.
pub open spec fn apply2(w: Outside, f: Value, x: Value, y: Value) -> Outcome {
    match (w.apply)(f, x) {
        Outcome::Value(g) => (w.apply)(g, y),
        other => other,
    }
}

pub open spec fn no_requests() -> PendView {
    PendView { queue: Seq::empty(), seen: Seq::empty() }
}

// ---- expressions ------------------------------------------------------------------------------------

/// What comes of an expression where the names in scope have the given values. `sc`
/// says which names these are, and of what types.
pub open spec fn expr_value(w: Outside, lw: LowererView, e: Expr, sc: ScopeView, names: Names) -> Outcome
    decreases e, 3nat, 0nat,
{
    match e {
        Expr::Unit => Outcome::Value(Value::Unit),
        Expr::Int(n) => Outcome::Value(Value::Int(n as int)),
        Expr::Bool(b) => Outcome::Value(Value::Bool(b)),
        Expr::Str(t) => Outcome::Value(Value::Str(t@)),
        Expr::Char(c) => Outcome::Value(Value::Char(c)),
        Expr::Try(inner) => expr_value(w, lw, *inner, sc, names),
        Expr::Var(name) => name_value(lw, name@, sc, names),
        Expr::Cast(inner, ty) => match expr_value(w, lw, *inner, sc, names) {
            Outcome::Value(v) => core_meaning::cast_value(
                v,
                resolve::ty_s(lw, ty@, Seq::empty()),
            ),
            other => other,
        },
        Expr::Binary(l, op, r) => match expr_value(w, lw, *l, sc, names) {
            Outcome::Value(x) => match expr_value(w, lw, *r, sc, names) {
                Outcome::Value(y) => op_value(op, x, y),
                other => other,
            },
            other => other,
        },
        Expr::Unary(op, operand) => match expr_value(w, lw, *operand, sc, names) {
            Outcome::Value(x) => prefix_value(op, x),
            other => other,
        },
        Expr::Index(base, index) => match expr_value(w, lw, *base, sc, names) {
            Outcome::Value(x) => match expr_value(w, lw, *index, sc, names) {
                Outcome::Value(i) => member_value(x, i),
                other => other,
            },
            other => other,
        },
        Expr::Field(base, field) => match emit::nullary(emit::path_ctor(lw, *base, field@, sc)) {
            Some(c) => made(lw, c, Seq::empty()),
            None => match expr_value(w, lw, *base, sc, names) {
                Outcome::Value(x) => field_value(lw, *base, field@, sc, x),
                other => other,
            },
        },
        Expr::Struct { path, fields } => if emit::is_collection(lw, text::strings_view(path@)) {
            collection_value(w, lw, path@[0]@, fields@, sc, names)
        } else {
            struct_value(w, lw, text::join_view(text::strings_view(path@), "."@), fields@, sc, names)
        },
        Expr::Array(items) => match values_of(w, lw, items@, items@.len(), sc, names) {
            Ok(v) => Outcome::Value(Value::Array(v)),
            Err(o) => o,
        },
        Expr::Call(callee, args) => call_value(w, lw, e, sc, names),
    }
}

/// What a name means: a local, a constructor without fields, or a definition.
pub open spec fn name_value(lw: LowererView, name: Seq<char>, sc: ScopeView, names: Names) -> Outcome {
    match names(name) {
        Some(v) => Outcome::Value(v),
        None => match emit::nullary(decls::ctor_view(lw.reg, name)) {
            Some(c) => made(lw, c, Seq::empty()),
            None => match resolve::global_ref(lw, sc, name) {
                Ok(a) => denoted(a),
                Err(_) => Outcome::Stop,
            },
        },
    }
}

/// The field of that name, of the struct that the type of `base` is.
pub open spec fn field_value(lw: LowererView, base: Expr, field: Seq<char>, sc: ScopeView, x: Value) -> Outcome {
    match (resolve::projection(lw, resolve::expr_type(lw, base, sc), field), x) {
        (Ok((_, i)), Value::Data { ty, tag, fields }) => if ((i as usize) as u32) < fields.len() {
            Outcome::Value(fields[((i as usize) as u32) as int])
        } else {
            Outcome::Stop
        },
        _ => Outcome::Stop,
    }
}

/// The values of the first `n` expressions, in their order, or what comes of the first
/// that has none.
pub open spec fn values_of(
    w: Outside,
    lw: LowererView,
    v: Seq<Expr>,
    n: nat,
    sc: ScopeView,
    names: Names,
) -> Result<Seq<Value>, Outcome>
    decreases v, 0nat, n,
{
    if n == 0 || n > v.len() {
        Ok(Seq::empty())
    } else {
        match values_of(w, lw, v, (n - 1) as nat, sc, names) {
            Ok(out) => match expr_value(w, lw, v[n - 1], sc, names) {
                Outcome::Value(x) => Ok(out.push(x)),
                other => Err(other),
            },
            Err(o) => Err(o),
        }
    }
}

/// A struct: each declared field has the value that is given under its name.
pub open spec fn struct_value(
    w: Outside,
    lw: LowererView,
    name: Seq<char>,
    inits: Seq<FieldInit>,
    sc: ScopeView,
    names: Names,
) -> Outcome
    decreases inits, 1nat, 0nat,
{
    match decls::struct_named(lw.m, name) {
        None => Outcome::Stop,
        Some(d) => match fields_of(w, lw, d.fields@, d.fields@.len(), inits, sc, names) {
            Ok(fields) => Outcome::Value(
                Value::Data { ty: hash::symbol_id(resolve::struct_qual(lw, name)), tag: 0, fields },
            ),
            Err(o) => o,
        },
    }
}

/// The values of the first `n` declared fields.
pub open spec fn fields_of(
    w: Outside,
    lw: LowererView,
    fields: Seq<Field>,
    n: nat,
    inits: Seq<FieldInit>,
    sc: ScopeView,
    names: Names,
) -> Result<Seq<Value>, Outcome>
    decreases inits, 0nat, n,
{
    if n == 0 || n > fields.len() {
        Ok(Seq::empty())
    } else {
        match fields_of(w, lw, fields, (n - 1) as nat, inits, sc, names) {
            Ok(out) => match emit::init_index(inits, fields[n - 1].name@) {
                Some(i) => if 0 <= i < inits.len() {
                    match expr_value(w, lw, inits[i].value, sc, names) {
                        Outcome::Value(x) => Ok(out.push(x)),
                        other => Err(other),
                    }
                } else {
                    Ok(out)
                },
                None => Err(Outcome::Stop),
            },
            Err(o) => Err(o),
        }
    }
}

/// A call: a length, a constructor, a method of its receiver, or a function.
pub open spec fn call_value(w: Outside, lw: LowererView, e: Expr, sc: ScopeView, names: Names) -> Outcome
    decreases e, 1nat, 0nat,
{
    match e {
        Expr::Call(callee, args) => if emit::is_len(*callee, args@, sc) {
            match expr_value(w, lw, args@[0], sc, names) {
                Outcome::Value(x) => length_value(x),
                other => other,
            }
        } else {
            match emit::callee_ctor_view(lw, *callee, sc) {
                Some(c) => match values_of(w, lw, args@, args@.len(), sc, names) {
                    Ok(v) => made(lw, c, v),
                    Err(o) => o,
                },
                None => match *callee {
                    Expr::Field(recv, method) => match emit::method_ref(lw, sc, method@) {
                        Ok(a) => match (denoted(a), expr_value(w, lw, *recv, sc, names)) {
                            (Outcome::Value(f), Outcome::Value(x)) => match (w.apply)(f, x) {
                                Outcome::Value(g) => applied_value(w, lw, args@, args@.len(), g, sc, names),
                                other => other,
                            },
                            (_, other) => other,
                        },
                        Err(_) => Outcome::Stop,
                    },
                    _ => match callee_value(w, lw, e, sc, names) {
                        Outcome::Value(f) => if args@.len() == 0 {
                            (w.apply)(f, Value::Unit)
                        } else {
                            applied_value(w, lw, args@, args@.len(), f, sc, names)
                        },
                        other => other,
                    },
                },
            }
        },
        _ => Outcome::Stop,
    }
}

/// What is called: an implementation, an instance of a generic function, or the value of
/// the callee.
pub open spec fn callee_value(w: Outside, lw: LowererView, e: Expr, sc: ScopeView, names: Names) -> Outcome
    decreases e, 0nat, 0nat,
{
    match e {
        Expr::Call(callee, args) => match emit::free_name(*callee, sc) {
            Some(name) => match resolve::dispatch(lw, name) {
                Some(a) => denoted(a),
                None => match resolve::generic_call(lw, name, args@, sc, no_requests()) {
                    Some((a, _)) => denoted(a),
                    None => expr_value(w, lw, *callee, sc, names),
                },
            },
            None => expr_value(w, lw, *callee, sc, names),
        },
        _ => Outcome::Stop,
    }
}

/// What comes of a function that is given the first `n` arguments, one after the other.
pub open spec fn applied_value(
    w: Outside,
    lw: LowererView,
    args: Seq<Expr>,
    n: nat,
    f: Value,
    sc: ScopeView,
    names: Names,
) -> Outcome
    decreases args, 0nat, n,
{
    if n == 0 || n > args.len() {
        Outcome::Value(f)
    } else {
        match applied_value(w, lw, args, (n - 1) as nat, f, sc, names) {
            Outcome::Value(g) => match expr_value(w, lw, args[n - 1], sc, names) {
                Outcome::Value(x) => (w.apply)(g, x),
                other => other,
            },
            other => other,
        }
    }
}

// ---- collections ------------------------------------------------------------------------------------

/// The value given under a name.
pub open spec fn init_value(
    w: Outside,
    lw: LowererView,
    inits: Seq<FieldInit>,
    name: Seq<char>,
    sc: ScopeView,
    names: Names,
) -> Outcome
    decreases inits, 0nat, 0nat,
{
    match emit::init_index(inits, name) {
        Some(i) => if 0 <= i < inits.len() {
            expr_value(w, lw, inits[i].value, sc, names)
        } else {
            Outcome::Stop
        },
        None => Outcome::Stop,
    }
}

/// The list that holds these members, where it could be made.
pub open spec fn list_outcome(ol: Outcome, v: Result<Seq<Value>, Outcome>) -> Outcome {
    match ol {
        Outcome::Value(_) => match v {
            Ok(v) => Outcome::Value(Value::List(v)),
            Err(o) => o,
        },
        other => other,
    }
}

/// The map whose entries are those of a list.
pub open spec fn map_outcome(o: Outcome) -> Outcome {
    match o {
        Outcome::Value(v) => Outcome::Value(
            Value::Data {
                ty: hash::symbol_id("std.collections.Map"@),
                tag: 0,
                fields: seq![v],
            },
        ),
        other => other,
    }
}

/// A list, set or map that is written out: a list holds the members in their order, a
/// set is filled with them one by one, and a map is a list of its entries.
pub open spec fn collection_value(
    w: Outside,
    lw: LowererView,
    kind: Seq<char>,
    inits: Seq<FieldInit>,
    sc: ScopeView,
    names: Names,
) -> Outcome
    decreases inits, 2nat, 0nat,
{
    match init_value(w, lw, inits, "alloc"@, sc, names) {
        Outcome::Value(alloc) => if kind == "Map"@ {
            match (emit::array_part(inits, "keys"@), emit::array_part(inits, "values"@)) {
                (Some(ki), Some(vi)) => map_outcome(
                    list_outcome(
                        Outcome::Value(alloc),
                        entries_value(w, lw, inits, ki, vi, emit::part(inits, ki).len(), sc, names),
                    ),
                ),
                _ => Outcome::Stop,
            }
        } else {
            match emit::array_part(inits, "items"@) {
                Some(ii) => if 0 <= ii < inits.len() {
                    match inits[ii].value {
                        Expr::Array(items) => if kind == "Set"@ {
                            match apply2(
                                w,
                                library("std.collections.set_with_capacity"@),
                                alloc,
                                Value::Int(((items@.len() as usize) as i64) as int),
                            ) {
                                Outcome::Value(set) => filled_value(
                                    w,
                                    lw,
                                    items@,
                                    items@.len(),
                                    alloc,
                                    set,
                                    sc,
                                    names,
                                ),
                                other => other,
                            }
                        } else {
                            match values_of(w, lw, items@, items@.len(), sc, names) {
                                Ok(v) => Outcome::Value(Value::List(v)),
                                Err(o) => o,
                            }
                        },
                        _ => Outcome::Stop,
                    }
                } else {
                    Outcome::Stop
                },
                None => Outcome::Stop,
            }
        },
        other => other,
    }
}

/// A set with the first `n` members put in.
pub open spec fn filled_value(
    w: Outside,
    lw: LowererView,
    items: Seq<Expr>,
    n: nat,
    alloc: Value,
    set: Value,
    sc: ScopeView,
    names: Names,
) -> Outcome
    decreases items, 0nat, n,
{
    if n == 0 || n > items.len() {
        Outcome::Value(set)
    } else {
        match filled_value(w, lw, items, (n - 1) as nat, alloc, set, sc, names) {
            Outcome::Value(s) => match expr_value(w, lw, items[n - 1], sc, names) {
                Outcome::Value(x) => match apply2(w, library("std.collections.set_insert"@), alloc, s) {
                    Outcome::Value(f) => (w.apply)(f, x),
                    other => other,
                },
                other => other,
            },
            other => other,
        }
    }
}

/// An entry of a map: whether it is taken (0), its key and its value.
pub open spec fn entry(key: Value, value: Value) -> Value {
    Value::Data {
        ty: hash::symbol_id("std.collections.Entry"@),
        tag: 0,
        fields: seq![Value::Int(0), key, value],
    }
}

/// The first `n` entries of a map: each key with its value.
#[verifier::opaque]
pub open spec fn entries_value(
    w: Outside,
    lw: LowererView,
    inits: Seq<FieldInit>,
    ki: int,
    vi: int,
    n: nat,
    sc: ScopeView,
    names: Names,
) -> Result<Seq<Value>, Outcome>
    decreases inits, 1nat, n,
{
    let keys = emit::part(inits, ki);
    let values = emit::part(inits, vi);
    if n == 0 || n > keys.len() || n > values.len() || !(0 <= ki < inits.len()) || !(0 <= vi
        < inits.len()) {
        Ok(Seq::empty())
    } else {
        match entries_value(w, lw, inits, ki, vi, (n - 1) as nat, sc, names) {
            Ok(out) => match expr_value(w, lw, keys[n - 1], sc, names) {
                Outcome::Value(k) => match expr_value(w, lw, values[n - 1], sc, names) {
                    Outcome::Value(v) => Ok(out.push(entry(k, v))),
                    other => Err(other),
                },
                other => Err(other),
            },
            Err(o) => Err(o),
        }
    }
}

} // verus!
