//! What terms of the core calculus mean: the values that they have.
use vstd::prelude::*;

use crate::ir::{AtomView, CoreView, IntTy, LiteralView, PrimOp, TypeView};

verus! {

// ---- words ------------------------------------------------------------------------------------------

/// The 64-bit word, read as a signed number, that a number is cut to.
pub open spec fn wrap(n: int) -> int {
    let m = n % 0x1_0000_0000_0000_0000;
    if m >= 0x8000_0000_0000_0000 {
        m - 0x1_0000_0000_0000_0000
    } else {
        m
    }
}

/// The 64 bits of a word, read as an unsigned number.
pub open spec fn unsigned(n: int) -> int {
    n % 0x1_0000_0000_0000_0000
}

/// Whether a number is a signed word.
pub open spec fn is_word(n: int) -> bool {
    -0x8000_0000_0000_0000 <= n < 0x8000_0000_0000_0000
}

pub open spec fn size(n: int) -> int {
    if n < 0 {
        -n
    } else {
        n
    }
}

/// The quotient that is cut towards zero.
pub open spec fn quotient(a: int, b: int) -> int {
    if (a < 0) == (b < 0) {
        size(a) / size(b)
    } else {
        -(size(a) / size(b))
    }
}

/// What a division leaves: it has the sign of what is divided.
pub open spec fn remainder(a: int, b: int) -> int {
    if a < 0 {
        -(size(a) % size(b))
    } else {
        size(a) % size(b)
    }
}

/// Whether a division has a word for a result.
pub open spec fn divides(a: int, b: int) -> bool {
    b != 0 && !(a == -0x8000_0000_0000_0000 && b == -1)
}

/// The low 8, 16 or 32 bits, read without a sign.
pub open spec fn low_bits(n: int, bits: IntTy) -> int {
    match bits {
        IntTy::U8 | IntTy::I8 => n % 0x100,
        IntTy::U16 | IntTy::I16 => n % 0x1_0000,
        IntTy::U32 | IntTy::I32 => n % 0x1_0000_0000,
        _ => n,
    }
}

/// A number as one of an integer type: its low bits, read with the type's sign. Of the
/// types of 64 bits it is the word.
pub open spec fn as_int_ty(n: int, t: IntTy) -> int {
    let m = low_bits(n, t);
    match t {
        IntTy::I8 => if m >= 0x80 {
            m - 0x100
        } else {
            m
        },
        IntTy::I16 => if m >= 0x8000 {
            m - 0x1_0000
        } else {
            m
        },
        IntTy::I32 => if m >= 0x8000_0000 {
            m - 0x1_0000_0000
        } else {
            m
        },
        _ => m,
    }
}

// ---- values -----------------------------------------------------------------------------------------

/// What a term can be at run time.
#[verifier::ext_equal]
pub enum Value {
    Unit,
    Bool(bool),
    Int(int),
    Float(u64),
    Char(char),
    Str(Seq<char>),
    /// A struct or a variant: the declared type, the variant and the fields.
    Data { ty: Seq<u8>, tag: u32, fields: Seq<Value> },
    Array(Seq<Value>),
    List(Seq<Value>),
    /// A definition, as a function.
    Function(Seq<u8>),
    /// What is known of only by what comes of it: a capability, or a function that
    /// still lacks arguments.
    Other(int),
}

/// What comes of a term.
#[verifier::ext_equal]
pub enum Outcome {
    Value(Value),
    /// The enclosing function ends with a value.
    Return(Value),
    Raise(Seq<u8>, Seq<Value>),
    /// Nothing: the program is stopped.
    Stop,
    /// No end within the given number of turns.
    Unfinished,
}

/// What is outside a term: what functions give for an argument, and capabilities for an
/// operation.
pub struct Outside {
    pub apply: spec_fn(Value, Value) -> Outcome,
    pub perform: spec_fn(Value, u32, Seq<Value>) -> Outcome,
}

/// The word of a scalar.
pub open spec fn word_of(v: Value) -> Option<int> {
    match v {
        Value::Unit => Some(0),
        Value::Bool(b) => Some(
            if b {
                1
            } else {
                0
            },
        ),
        Value::Int(n) => Some(n),
        Value::Char(c) => Some(c as int),
        _ => None,
    }
}

pub open spec fn some_value(v: Option<Value>) -> Outcome {
    match v {
        Some(v) => Outcome::Value(v),
        None => Outcome::Stop,
    }
}

pub open spec fn int_outcome(n: int) -> Outcome {
    Outcome::Value(Value::Int(n))
}

pub open spec fn bool_outcome(b: bool) -> Outcome {
    Outcome::Value(Value::Bool(b))
}

/// A character of a string.
pub open spec fn letter(t: Seq<char>, i: int) -> Value {
    Value::Char(t[i])
}

/// The members of what can be indexed.
pub open spec fn members(v: Value) -> Option<Seq<Value>> {
    match v {
        Value::Array(s) => Some(s),
        Value::List(s) => Some(s),
        Value::Str(t) => Some(Seq::new(t.len(), |i: int| letter(t, i))),
        _ => None,
    }
}

/// The members of a string are its characters.
pub proof fn lemma_members_of_a_string(t: Seq<char>)
    ensures
        members(Value::Str(t)) matches Some(v) && v.len() == t.len() && forall|i: int|
            0 <= i < t.len() ==> #[trigger] v[i] == Value::Char(t[i]),
{
    let v = Seq::new(t.len(), |i: int| letter(t, i));
    assert(v.len() == t.len());
    assert(members(Value::Str(t)) == Some(v));
}

/// The characters that a list holds, if it holds characters only.
pub open spec fn characters(v: Seq<Value>) -> Option<Seq<char>> {
    if forall|i: int| 0 <= i < v.len() ==> #[trigger] v[i] is Char {
        Some(Seq::new(v.len(), |i: int| v[i]->Char_0))
    } else {
        None
    }
}

/// Arithmetic on words.
pub open spec fn arithmetic(op: PrimOp, a: int, b: int) -> Outcome {
    match op {
        PrimOp::Add => int_outcome(wrap(a + b)),
        PrimOp::Sub => int_outcome(wrap(a - b)),
        PrimOp::Mul => int_outcome(wrap(a * b)),
        PrimOp::Div => if divides(a, b) {
            int_outcome(quotient(a, b))
        } else {
            Outcome::Stop
        },
        PrimOp::Rem => if divides(a, b) {
            int_outcome(remainder(a, b))
        } else {
            Outcome::Stop
        },
        _ => Outcome::Stop,
    }
}

/// How two words compare.
pub open spec fn compares(op: PrimOp, a: int, b: int) -> Outcome {
    match op {
        PrimOp::Eq => bool_outcome(a == b),
        PrimOp::Ne => bool_outcome(a != b),
        PrimOp::Lt => bool_outcome(a < b),
        PrimOp::Le => bool_outcome(a <= b),
        PrimOp::Gt => bool_outcome(a > b),
        PrimOp::Ge => bool_outcome(a >= b),
        _ => Outcome::Stop,
    }
}

/// The value of a primitive with two operands.
pub open spec fn binary_value(op: PrimOp, x: Value, y: Value) -> Outcome {
    match (op, x, y) {
        (PrimOp::Add, Value::Str(s), Value::Str(t)) => Outcome::Value(Value::Str(s + t)),
        (PrimOp::And, Value::Bool(a), Value::Bool(b)) => bool_outcome(a && b),
        (PrimOp::Or, Value::Bool(a), Value::Bool(b)) => bool_outcome(a || b),
        (PrimOp::Index, x, Value::Int(i)) => match members(x) {
            Some(v) => if 0 <= i < v.len() {
                Outcome::Value(v[i])
            } else {
                Outcome::Stop
            },
            None => Outcome::Stop,
        },
        (PrimOp::FromChars, _, Value::List(v)) => match characters(v) {
            Some(t) => Outcome::Value(Value::Str(t)),
            None => Outcome::Stop,
        },
        (op, Value::Int(a), Value::Int(b)) => match op {
            PrimOp::Add | PrimOp::Sub | PrimOp::Mul | PrimOp::Div | PrimOp::Rem => arithmetic(
                op,
                a,
                b,
            ),
            _ => compares(op, a, b),
        },
        (op, Value::Bool(a), Value::Bool(b)) => compares(
            op,
            word_of(x)->0,
            word_of(y)->0,
        ),
        (op, Value::Char(a), Value::Char(b)) => compares(op, a as int, b as int),
        _ => Outcome::Stop,
    }
}

/// The value of a primitive with one operand.
pub open spec fn unary_value(op: PrimOp, x: Value) -> Outcome {
    match (op, x) {
        (PrimOp::Not, Value::Bool(a)) => bool_outcome(!a),
        (PrimOp::Neg, Value::Int(a)) => int_outcome(wrap(-a)),
        (PrimOp::Len, x) => match members(x) {
            Some(v) => int_outcome(v.len() as int),
            None => Outcome::Stop,
        },
        _ => Outcome::Stop,
    }
}

/// The value of a primitive.
pub open spec fn prim_value(op: PrimOp, v: Seq<Value>) -> Outcome {
    if v.len() == 1 {
        unary_value(op, v[0])
    } else if v.len() == 2 {
        binary_value(op, v[0], v[1])
    } else if v.len() == 3 {
        match (op, v[0], v[1], v[2]) {
            (PrimOp::Slice, Value::Str(t), Value::Int(lo), Value::Int(hi)) => if 0 <= lo <= hi
                <= t.len() {
                Outcome::Value(Value::Str(t.subrange(lo, hi)))
            } else {
                Outcome::Stop
            },
            _ => Outcome::Stop,
        }
    } else {
        Outcome::Stop
    }
}

/// A scalar as one of another type.
pub open spec fn cast_value(v: Value, to: TypeView) -> Outcome {
    match (word_of(v), to) {
        (Some(n), TypeView::Int(t)) => int_outcome(as_int_ty(n, t)),
        (Some(n), TypeView::Bool) => bool_outcome(n != 0),
        (Some(n), TypeView::Char) => if 0 <= n < 0xd800 || 0xe000 <= n < 0x11_0000 {
            Outcome::Value(Value::Char(n as char))
        } else {
            Outcome::Stop
        },
        _ => Outcome::Stop,
    }
}

// ---- terms ------------------------------------------------------------------------------------------

pub open spec fn literal_value(l: LiteralView) -> Value {
    match l {
        LiteralView::Unit => Value::Unit,
        LiteralView::Bool(b) => Value::Bool(b),
        LiteralView::Int(n) => Value::Int(n as int),
        LiteralView::Float(x) => Value::Float(x),
        LiteralView::Str(t) => Value::Str(t),
        LiteralView::Char(c) => Value::Char(c),
    }
}

/// What variable `i` is, of the variables bound so far: counted from the first one
/// (`levels`), or from the last one.
pub open spec fn var_value(i: u32, env: Seq<Value>, levels: bool) -> Option<Value> {
    if i >= env.len() {
        None
    } else if levels {
        Some(env[i as int])
    } else {
        Some(env[env.len() - 1 - i])
    }
}

pub open spec fn atom_value(a: AtomView, env: Seq<Value>, levels: bool) -> Option<Value> {
    match a {
        AtomView::Var(i) => var_value(i, env, levels),
        AtomView::Global(h) => Some(Value::Function(h)),
        AtomView::Lit(l) => Some(literal_value(l)),
    }
}

/// The values of the first `n` atoms, if they all have one.
pub open spec fn atom_values(v: Seq<AtomView>, n: nat, env: Seq<Value>, levels: bool) -> Option<
    Seq<Value>,
>
    decreases n,
{
    if n == 0 {
        Some(Seq::empty())
    } else {
        match (atom_values(v, (n - 1) as nat, env, levels), atom_value(v[n - 1], env, levels)) {
            (Some(out), Some(x)) => Some(out.push(x)),
            _ => None,
        }
    }
}

/// What comes of a term that computes one thing from atoms. Of any other term it is a
/// stop.
pub open spec fn simple_outcome(w: Outside, c: CoreView, env: Seq<Value>, levels: bool) -> Outcome {
    match c {
        CoreView::Atom(a) => some_value(atom_value(a, env, levels)),
        CoreView::App { func, arg } => match (
            atom_value(func, env, levels),
            atom_value(arg, env, levels),
        ) {
            (Some(f), Some(x)) => (w.apply)(f, x),
            _ => Outcome::Stop,
        },
        CoreView::Ctor { ty, tag, fields } => match atom_values(fields, fields.len(), env, levels) {
            Some(v) => Outcome::Value(Value::Data { ty, tag, fields: v }),
            None => Outcome::Stop,
        },
        CoreView::Array { elem, items } => match atom_values(items, items.len(), env, levels) {
            Some(v) => Outcome::Value(Value::Array(v)),
            None => Outcome::Stop,
        },
        CoreView::IndexSet { base, index, value } => match (
            atom_value(base, env, levels),
            atom_value(index, env, levels),
            atom_value(value, env, levels),
        ) {
            (Some(Value::Array(s)), Some(Value::Int(i)), Some(x)) => if 0 <= i < s.len() {
                Outcome::Value(Value::Array(s.update(i, x)))
            } else {
                Outcome::Stop
            },
            _ => Outcome::Stop,
        },
        CoreView::Proj { base, idx } => match atom_value(base, env, levels) {
            Some(Value::Data { ty, tag, fields }) => if idx < fields.len() {
                Outcome::Value(fields[idx as int])
            } else {
                Outcome::Stop
            },
            _ => Outcome::Stop,
        },
        CoreView::Prim { op, args } => match atom_values(args, args.len(), env, levels) {
            Some(v) => prim_value(op, v),
            None => Outcome::Stop,
        },
        CoreView::Cast { value, to } => match atom_value(value, env, levels) {
            Some(v) => cast_value(v, to),
            None => Outcome::Stop,
        },
        CoreView::Ref { mutable, of } => some_value(atom_value(of, env, levels)),
        CoreView::Perform { cap, op, args } => match (
            atom_value(cap, env, levels),
            atom_values(args, args.len(), env, levels),
        ) {
            (Some(c), Some(v)) => (w.perform)(c, op, v),
            _ => Outcome::Stop,
        },
        CoreView::Raise { error, args } => match atom_values(args, args.len(), env, levels) {
            Some(v) => Outcome::Raise(error, v),
            None => Outcome::Stop,
        },
        CoreView::ListNew { elem, alloc, capacity } => Outcome::Value(Value::List(Seq::empty())),
        CoreView::ListPush { alloc, list, value } => match (
            atom_value(list, env, levels),
            atom_value(value, env, levels),
        ) {
            (Some(Value::List(s)), Some(x)) => Outcome::Value(Value::List(s.push(x))),
            _ => Outcome::Stop,
        },
        CoreView::ListPop { list } => match atom_value(list, env, levels) {
            Some(Value::List(s)) => if s.len() > 0 {
                Outcome::Value(Value::List(s.drop_last()))
            } else {
                Outcome::Stop
            },
            _ => Outcome::Stop,
        },
        CoreView::ListSet { list, index, value } => match (
            atom_value(list, env, levels),
            atom_value(index, env, levels),
            atom_value(value, env, levels),
        ) {
            (Some(Value::List(s)), Some(Value::Int(i)), Some(x)) => if 0 <= i < s.len() {
                Outcome::Value(Value::List(s.update(i, x)))
            } else {
                Outcome::Stop
            },
            _ => Outcome::Stop,
        },
        CoreView::Return { value } => match atom_value(value, env, levels) {
            Some(v) => Outcome::Return(v),
            None => Outcome::Stop,
        },
        _ => Outcome::Stop,
    }
}

/// The branch that a value takes, and what it binds there: by the truth of a truth
/// value (0 for false), or by the variant, whose fields are bound.
pub open spec fn chosen(v: Value) -> Option<(int, Seq<Value>)> {
    match v {
        Value::Bool(b) => Some(
            (
                if b {
                    1
                } else {
                    0
                },
                Seq::empty(),
            ),
        ),
        Value::Data { ty, tag, fields } => Some((tag as int, fields)),
        _ => None,
    }
}

/// What comes of a term.
pub open spec fn eval(w: Outside, c: CoreView, env: Seq<Value>, levels: bool, fuel: nat) -> Outcome
    decreases fuel, c, 1nat,
{
    match c {
        CoreView::Let { value, body } => match eval(w, *value, env, levels, fuel) {
            Outcome::Value(v) => eval(w, *body, env.push(v), levels, fuel),
            other => other,
        },
        CoreView::Match { scrutinee, branches } => match atom_value(scrutinee, env, levels) {
            Some(v) => match chosen(v) {
                Some((i, bound)) => if i < branches.len() && bound.len() == branches[i].binds {
                    eval(w, branches[i].body, env + bound, levels, fuel)
                } else {
                    Outcome::Stop
                },
                None => Outcome::Stop,
            },
            None => Outcome::Stop,
        },
        CoreView::Loop { state, inv, cond, body } => match atom_values(
            state,
            state.len(),
            env,
            levels,
        ) {
            Some(v) => turns(w, c, env, v, levels, fuel),
            None => Outcome::Stop,
        },
        _ => simple_outcome(w, c, env, levels),
    }
}

/// What comes of a loop whose carried variables have these values.
pub open spec fn turns(
    w: Outside,
    c: CoreView,
    env: Seq<Value>,
    state: Seq<Value>,
    levels: bool,
    fuel: nat,
) -> Outcome
    decreases fuel, c, 0nat,
{
    match c {
        CoreView::Loop { state: _, inv, cond, body } => match eval(
            w,
            *cond,
            env + state,
            levels,
            fuel,
        ) {
            Outcome::Value(Value::Bool(true)) => match eval(w, *body, env + state, levels, fuel) {
                Outcome::Value(Value::Data { ty, tag, fields }) => if fields.len() == state.len() {
                    if fuel == 0 {
                        Outcome::Unfinished
                    } else {
                        turns(w, c, env, fields, levels, (fuel - 1) as nat)
                    }
                } else {
                    Outcome::Stop
                },
                Outcome::Value(_) => Outcome::Stop,
                other => other,
            },
            Outcome::Value(Value::Bool(false)) => Outcome::Value(
                Value::Data { ty: Seq::empty(), tag: 0, fields: state },
            ),
            Outcome::Value(_) => Outcome::Stop,
            other => other,
        },
        _ => Outcome::Stop,
    }
}

} // verus!
