//! What the steps of native code do, and that the steps of an operation compute the
//! value that the operation has.
use vstd::prelude::*;
use vstd::arithmetic::power2::{lemma2_to64, lemma2_to64_rest, pow2};

use crate::cl_code;
use crate::cl_code::{Binary, ClSt, CodegenErrorView, RegValue, Relation, StepView, WithImm};
use crate::cl_eval;
use crate::cl_eval::ClCxView;
use crate::core_meaning;
use crate::core_meaning::{Outcome, Value};
use crate::indices;
use crate::ir::{AtomView, IntTy, LiteralView, PrimOp, TypeView};
use crate::memory;
use crate::memory::Memory;
use crate::wasm_trans;

verus! {

// ---- steps ------------------------------------------------------------------------------------------

/// What a run holds: the values made so far, how many there are, the memory, and where
/// memory is still free.
pub struct Machine {
    pub held: Map<u32, int>,
    pub made: u32,
    pub mem: Memory,
    pub free: int,
}

/// The word that two words give.
pub open spec fn binary_word(op: Binary, x: int, y: int) -> Option<int> {
    match op {
        Binary::Add => Some(core_meaning::wrap(x + y)),
        Binary::Sub => Some(core_meaning::wrap(x - y)),
        Binary::Mul => Some(core_meaning::wrap(x * y)),
        Binary::Div => if core_meaning::divides(x, y) {
            Some(core_meaning::quotient(x, y))
        } else {
            None
        },
        Binary::Rem => if core_meaning::divides(x, y) {
            Some(core_meaning::remainder(x, y))
        } else {
            None
        },
        Binary::And => Some(((x as i64) & (y as i64)) as int),
        Binary::Or => Some(((x as i64) | (y as i64)) as int),
    }
}

/// The word that a word and a constant give. Shifts are by less than 64 bits.
pub open spec fn imm_word(op: WithImm, x: int, n: i64) -> Option<int> {
    match op {
        WithImm::Add => Some(core_meaning::wrap(x + n)),
        WithImm::Mul => Some(core_meaning::wrap(x * n)),
        WithImm::Xor => Some(((x as i64) ^ n) as int),
        WithImm::Shl => if 0 <= n < 64 {
            Some(core_meaning::wrap(x * pow2(n as nat) as int))
        } else {
            None
        },
        WithImm::ShrSigned => if 0 <= n < 64 {
            Some(x / pow2(n as nat) as int)
        } else {
            None
        },
        WithImm::ShrUnsigned => if 0 <= n < 64 {
            Some(core_meaning::wrap(core_meaning::unsigned(x) / pow2(n as nat) as int))
        } else {
            None
        },
    }
}

/// Whether two words stand in a relation.
pub open spec fn related(r: Relation, x: int, y: int) -> bool {
    match r {
        Relation::Equal => x == y,
        Relation::NotEqual => x != y,
        Relation::SignedLess => x < y,
        Relation::SignedLessOrEqual => x <= y,
        Relation::SignedGreater => x > y,
        Relation::SignedGreaterOrEqual => x >= y,
        Relation::UnsignedLess => core_meaning::unsigned(x) < core_meaning::unsigned(y),
    }
}

/// A machine with one more value.
pub open spec fn makes(m: Machine, w: int) -> Machine {
    Machine { held: m.held.insert(m.made, w), made: indices::add32(m.made, 1), ..m }
}

pub open spec fn some_machine(m: Machine, w: Option<int>) -> Option<Machine> {
    match w {
        Some(w) => Some(makes(m, w)),
        None => None,
    }
}

/// What a step does that neither calls nor jumps. Of any other step it is nothing.
pub open spec fn effect(x: StepView, m: Machine) -> Option<Machine> {
    match x {
        StepView::Const(n) => Some(makes(m, n as int)),
        StepView::Binary(op, a, b) => some_machine(m, binary_word(op, m.held[a], m.held[b])),
        StepView::WithImm(op, a, n) => some_machine(m, imm_word(op, m.held[a], n)),
        StepView::Negate(a) => Some(makes(m, core_meaning::wrap(-m.held[a]))),
        StepView::Compare(r, a, b) => Some(
            makes(
                m,
                if related(r, m.held[a], m.held[b]) {
                    1
                } else {
                    0
                },
            ),
        ),
        StepView::Widen(a) => Some(makes(m, m.held[a])),
        StepView::Narrow(a) => Some(makes(m, m.held[a] % 0x1_0000_0000)),
        StepView::Load(a, off) => Some(makes(m, m.mem[m.held[a] + off])),
        StepView::Store(v, a, off) => Some(
            Machine { mem: m.mem.insert(m.held[a] + off, m.held[v]), ..m },
        ),
        StepView::Alloc(n) => Some(
            Machine { free: m.free + 8 * m.held[n], ..makes(m, m.free) },
        ),
        _ => None,
    }
}

/// What the steps from one position up to another do.
pub open spec fn run(steps: Seq<StepView>, from: nat, to: nat, m: Machine) -> Option<Machine>
    decreases to,
{
    if to <= from {
        Some(m)
    } else {
        match run(steps, from, (to - 1) as nat, m) {
            Some(m1) => effect(steps[to - 1], m1),
            None => None,
        }
    }
}

/// The steps that a plan has grown by take a machine to another one.
pub open spec fn does(s: ClSt, m: Machine, t: ClSt, n: Machine) -> bool {
    &&& s.steps.len() <= t.steps.len()
    &&& forall|i: int| 0 <= i < s.steps.len() ==> #[trigger] t.steps[i] == s.steps[i]
    &&& m.made == s.values
    &&& n.made == t.values
    &&& run(t.steps, s.steps.len(), t.steps.len(), m) == Some(n)
}

/// What was there before is there still: the values made before, and what memory held
/// below where it was free.
pub open spec fn keeps(m: Machine, n: Machine) -> bool {
    &&& m.made <= n.made
    &&& m.free <= n.free
    &&& forall|i: u32| i < m.made ==> #[trigger] n.held[i] == m.held[i]
    &&& forall|a: int| a < m.free ==> #[trigger] n.mem[a] == m.mem[a]
}

proof fn lemma_run_same(a: Seq<StepView>, b: Seq<StepView>, from: nat, to: nat, m: Machine)
    requires
        to <= a.len(),
        to <= b.len(),
        forall|i: int| from <= i < to ==> #[trigger] a[i] == b[i],
    ensures
        run(a, from, to, m) == run(b, from, to, m),
    decreases to,
{
    if to > from {
        lemma_run_same(a, b, from, (to - 1) as nat, m);
        assert(a[to - 1] == b[to - 1]);
    }
}

proof fn lemma_run_then(a: Seq<StepView>, i: nat, j: nat, k: nat, m: Machine)
    requires
        i <= j <= k,
    ensures
        run(a, i, k, m) == match run(a, i, j, m) {
            Some(m1) => run(a, j, k, m1),
            None => None,
        },
    decreases k,
{
    if k > j {
        lemma_run_then(a, i, j, (k - 1) as nat, m);
    }
}

pub proof fn lemma_does_nothing(s: ClSt, m: Machine)
    requires
        m.made == s.values,
    ensures
        does(s, m, s, m),
        keeps(m, m),
{
}

pub proof fn lemma_does_then(s: ClSt, m: Machine, t: ClSt, n: Machine, u: ClSt, o: Machine)
    requires
        does(s, m, t, n),
        does(t, n, u, o),
    ensures
        does(s, m, u, o),
{
    assert forall|i: int| 0 <= i < s.steps.len() implies #[trigger] u.steps[i] == s.steps[i] by {
        assert(t.steps[i] == s.steps[i]);
    }
    lemma_run_same(t.steps, u.steps, s.steps.len(), t.steps.len(), m);
    lemma_run_then(u.steps, s.steps.len(), t.steps.len(), u.steps.len(), m);
}

pub proof fn lemma_keeps_then(m: Machine, n: Machine, o: Machine)
    requires
        keeps(m, n),
        keeps(n, o),
    ensures
        keeps(m, o),
{
    assert forall|i: u32| i < m.made implies #[trigger] o.held[i] == m.held[i] by {
        assert(n.held[i] == m.held[i]);
    }
    assert forall|a: int| a < m.free implies #[trigger] o.mem[a] == m.mem[a] by {
        assert(n.mem[a] == m.mem[a]);
    }
}

/// A step that makes a value.
pub proof fn lemma_gain(s: ClSt, m: Machine, x: StepView)
    requires
        m.made == s.values,
        s.values < u32::MAX,
        effect(x, m) is Some,
        (effect(x, m)->0).made == s.values + 1,
        !(x is Alloc),
        !(x is Store),
    ensures
        ({
            let (t, s1) = cl_code::gain(s, x);
            let m1 = effect(x, m)->0;
            does(s, m, s1, m1) && keeps(m, m1) && t == s.values && m1.free == m.free && m1.mem
                == m.mem
        }),
{
    let (t, s1) = cl_code::gain(s, x);
    assert(s1.steps[s.steps.len() as int] == x);
    lemma_run_same(s.steps, s1.steps, s.steps.len(), s.steps.len(), m);
    assert(run(s1.steps, s.steps.len(), s.steps.len(), m) == Some(m));
}

// ---- operations -------------------------------------------------------------------------------------

/// Bitwise operations on truth values.
pub proof fn lemma_bits(x: i64, y: i64)
    requires
        x == 0 || x == 1,
        y == 0 || y == 1,
    ensures
        (x & y) == (if x == 1 && y == 1 {
            1i64
        } else {
            0i64
        }),
        (x | y) == (if x == 1 || y == 1 {
            1i64
        } else {
            0i64
        }),
        (x ^ 1) == (if x == 1 {
            0i64
        } else {
            1i64
        }),
{
    assert((x & y) == (if x == 1 && y == 1 {
        1i64
    } else {
        0i64
    })) by (bit_vector)
        requires
            x == 0 || x == 1,
            y == 0 || y == 1,
    ;
    assert((x | y) == (if x == 1 || y == 1 {
        1i64
    } else {
        0i64
    })) by (bit_vector)
        requires
            x == 0 || x == 1,
            y == 0 || y == 1,
    ;
    assert((x ^ 1) == (if x == 1 {
        0i64
    } else {
        1i64
    })) by (bit_vector)
        requires
            x == 0 || x == 1,
    ;
}

/// Whether a value is a scalar, and a word where it is a number.
pub open spec fn scalar(v: Value) -> bool {
    &&& core_meaning::word_of(v) is Some
    &&& core_meaning::is_word(core_meaning::word_of(v)->0)
}

/// The steps of a primitive on two scalars leave the word of the value that the primitive
/// has, and nothing else changes.
#[verifier::rlimit(40)]
pub proof fn lemma_steps_of_two_words(
    checks: bool,
    op: PrimOp,
    v: Seq<u32>,
    s: ClSt,
    m: Machine,
    x: Value,
    y: Value,
    z: Value,
) -> (n: Machine)
    requires
        v.len() == 2,
        scalar(x),
        scalar(y),
        m.made == s.values,
        s.values + 2 <= u32::MAX,
        core_meaning::word_of(x) == Some(m.held[v[0]]),
        core_meaning::word_of(y) == Some(m.held[v[1]]),
        core_meaning::prim_value(op, seq![x, y]) == Outcome::Value(z),
    ensures
        cl_eval::word_op_s(checks, op, v, s) matches Ok((t, s1)) && does(s, m, s1, n) && keeps(
            m,
            n,
        ) && t < s1.values && s1.values <= s.values + 2 && core_meaning::word_of(z) == Some(n.held[t])
            && n.mem == m.mem && n.free == m.free,
{
    let vs = seq![x, y];
    assert(vs.len() == 2 && vs[0] == x && vs[1] == y);
    let a = v[0];
    let b = v[1];
    match cl_eval::binary_of(op) {
        Some(k) => {
            let step = StepView::Binary(k, a, b);
            if op == PrimOp::And || op == PrimOp::Or {
                lemma_bits(m.held[a] as i64, m.held[b] as i64);
            }
            lemma_gain(s, m, step);
            effect(step, m)->0
        },
        None => match cl_eval::relation_of(op) {
            Some(r) => {
                let step = StepView::Compare(r, a, b);
                lemma_gain(s, m, step);
                let m1 = effect(step, m)->0;
                let (c, s1) = cl_code::gain(s, step);
                let wide = StepView::Widen(c);
                lemma_gain(s1, m1, wide);
                let m2 = effect(wide, m1)->0;
                let s2 = cl_code::gain(s1, wide).1;
                lemma_does_then(s, m, s1, m1, s2, m2);
                lemma_keeps_then(m, m1, m2);
                m2
            },
            None => {
                assert(false);
                m
            },
        },
    }
}

/// The steps of a primitive on one scalar.
pub proof fn lemma_steps_of_one_word(
    checks: bool,
    op: PrimOp,
    v: Seq<u32>,
    s: ClSt,
    m: Machine,
    x: Value,
    z: Value,
) -> (n: Machine)
    requires
        v.len() == 1,
        scalar(x),
        m.made == s.values,
        s.values < u32::MAX,
        core_meaning::word_of(x) == Some(m.held[v[0]]),
        core_meaning::prim_value(op, seq![x]) == Outcome::Value(z),
    ensures
        cl_eval::word_op_s(checks, op, v, s) matches Ok((t, s1)) && does(s, m, s1, n) && keeps(
            m,
            n,
        ) && t < s1.values && s1.values <= s.values + 2 && core_meaning::word_of(z) == Some(n.held[t])
            && n.mem == m.mem && n.free == m.free,
{
    let vs = seq![x];
    assert(vs.len() == 1 && vs[0] == x);
    let step = match op {
        PrimOp::Not => StepView::WithImm(WithImm::Xor, v[0], 1),
        _ => StepView::Negate(v[0]),
    };
    if op == PrimOp::Not {
        lemma_bits(m.held[v[0]] as i64, 0);
    }
    lemma_gain(s, m, step);
    effect(step, m)->0
}

/// The steps of a length load the first word of the block of what has it.
pub proof fn lemma_steps_of_a_length(checks: bool, v: Seq<u32>, s: ClSt, m: Machine, x: Value, z: Value) -> (n:
    Machine)
    requires
        v.len() == 1,
        m.made == s.values,
        s.values < u32::MAX,
        memory::stored(m.mem, m.free, m.held[v[0]], x),
        core_meaning::prim_value(PrimOp::Len, seq![x]) == Outcome::Value(z),
    ensures
        cl_eval::word_op_s(checks, PrimOp::Len, v, s) matches Ok((t, s1)) && does(s, m, s1, n)
            && keeps(m, n) && t < s1.values && core_meaning::word_of(z) == Some(n.held[t]),
{
    let vs = seq![x];
    assert(vs.len() == 1 && vs[0] == x);
    let step = StepView::Load(v[0], 0);
    lemma_gain(s, m, step);
    match x {
        Value::Str(t) => core_meaning::lemma_members_of_a_string(t),
        _ => {},
    }
    assert(m.held[v[0]] + 0i32 == m.held[v[0]]);
    effect(step, m)->0
}

/// The steps that compute the address of a member.
pub proof fn lemma_steps_of_an_address(ptr: u32, i: u32, s: ClSt, m: Machine) -> (n: Machine)
    requires
        m.made == s.values,
        s.values + 3 <= u32::MAX,
        ptr < m.made,
        i < m.made,
        0 <= m.held[ptr],
        0 <= m.held[i],
        m.held[ptr] + 8 * (m.held[i] + 1) < 0x8000_0000_0000_0000,
    ensures
        ({
            let (t, s1) = cl_eval::element_s(ptr, i, s);
            &&& does(s, m, s1, n)
            &&& keeps(m, n)
            &&& n.mem == m.mem
            &&& n.free == m.free
            &&& s1.values == s.values + 3
            &&& t < s1.values
            &&& n.held[t] == memory::word_at(m.held[ptr], m.held[i] + 1)
        }),
{
    let k = m.held[i];
    let a1 = StepView::WithImm(WithImm::Add, i, 1);
    lemma_gain(s, m, a1);
    let m1 = effect(a1, m)->0;
    let (plus, s1) = cl_code::gain(s, a1);
    assert(m1.held[plus] == k + 1);
    let a2 = StepView::WithImm(WithImm::Mul, plus, 8);
    lemma_gain(s1, m1, a2);
    let m2 = effect(a2, m1)->0;
    let (off, s2) = cl_code::gain(s1, a2);
    assert(m2.held[off] == 8 * (k + 1));
    assert(m1.held[ptr] == m.held[ptr]);
    assert(m2.held[ptr] == m1.held[ptr]);
    let a3 = StepView::Binary(Binary::Add, ptr, off);
    lemma_gain(s2, m2, a3);
    let m3 = effect(a3, m2)->0;
    let s3 = cl_code::gain(s2, a3).1;
    lemma_does_then(s, m, s1, m1, s2, m2);
    lemma_does_then(s, m, s2, m2, s3, m3);
    lemma_keeps_then(m, m1, m2);
    lemma_keeps_then(m, m2, m3);
    m3
}

/// Without the check of the position, the steps of reading a member of an array or a
/// string leave the word of that member.
pub proof fn lemma_steps_of_a_member(v: Seq<u32>, s: ClSt, m: Machine, x: Value, i: int, z: Value) -> (n:
    Machine)
    requires
        v.len() == 2,
        m.made == s.values,
        s.values + 4 <= u32::MAX,
        x is Array || x is Str,
        memory::stored(m.mem, m.free, m.held[v[0]], x),
        m.held[v[1]] == i,
        core_meaning::prim_value(PrimOp::Index, seq![x, Value::Int(i)]) == Outcome::Value(z),
        m.free < 0x8000_0000_0000_0000,
        v[0] < m.made,
        v[1] < m.made,
    ensures
        cl_eval::word_op_s(false, PrimOp::Index, v, s) matches Ok((t, s1)) && does(s, m, s1, n)
            && keeps(m, n) && t < s1.values && memory::stored(n.mem, n.free, n.held[t], z),
{
    let vs = seq![x, Value::Int(i)];
    assert(vs.len() == 2 && vs[0] == x && vs[1] == Value::Int(i));
    memory::lemma_member(m.mem, m.free, m.held[v[0]], x, core_meaning::members(x)->0, i);
    let m3 = lemma_steps_of_an_address(v[0], v[1], s, m);
    let (addr, s3) = cl_eval::element_s(v[0], v[1], s);
    let a4 = StepView::Load(addr, 0);
    lemma_gain(s3, m3, a4);
    let m4 = effect(a4, m3)->0;
    let s4 = cl_code::gain(s3, a4).1;
    lemma_does_then(s, m, s3, m3, s4, m4);
    lemma_keeps_then(m, m3, m4);
    assert(m3.held[addr] + 0i32 == memory::word_at(m.held[v[0]], i + 1));
    m4
}

// ---- casts ------------------------------------------------------------------------------------------

/// The bits above an integer type of fewer than 64 bits.
pub open spec fn spare_bits(t: IntTy) -> i64 {
    match t {
        IntTy::I8 | IntTy::U8 => 56,
        IntTy::I16 | IntTy::U16 => 48,
        IntTy::I32 | IntTy::U32 => 32,
        _ => 0,
    }
}

/// Whether an integer type has a sign.
pub open spec fn is_signed(t: IntTy) -> bool {
    match t {
        IntTy::I8 | IntTy::I16 | IntTy::I32 | IntTy::I64 | IntTy::Isize => true,
        _ => false,
    }
}

/// Shifting a word up and down again leaves its low bits.
pub proof fn lemma_shifts(x: int, t: IntTy)
    requires
        core_meaning::is_word(x),
        spare_bits(t) > 0,
    ensures
        ({
            let p = pow2(spare_bits(t) as nat) as int;
            let up = core_meaning::wrap(x * p);
            &&& core_meaning::is_word(up)
            &&& is_signed(t) ==> up / p == core_meaning::as_int_ty(x, t)
            &&& !is_signed(t) ==> core_meaning::wrap(core_meaning::unsigned(up) / p)
                == core_meaning::as_int_ty(x, t)
        }),
{
    lemma2_to64();
    lemma2_to64_rest();
    match t {
        IntTy::I8 | IntTy::U8 => lemma_shift_by(x, 0x100_0000_0000_0000, 0x100),
        IntTy::I16 | IntTy::U16 => lemma_shift_by(x, 0x1_0000_0000_0000, 0x1_0000),
        _ => lemma_shift_by(x, 0x1_0000_0000, 0x1_0000_0000),
    }
}

proof fn lemma_shift_by(x: int, p: int, q: int)
    requires
        (p == 0x100_0000_0000_0000 && q == 0x100) || (p == 0x1_0000_0000_0000 && q == 0x1_0000) || (p
            == 0x1_0000_0000 && q == 0x1_0000_0000),
    ensures
        ({
            let m = x % q;
            let up = core_meaning::wrap(x * p);
            &&& core_meaning::is_word(up)
            &&& core_meaning::unsigned(up) / p == m
            &&& up / p == if m >= q / 2 {
                m - q
            } else {
                m
            }
            &&& core_meaning::wrap(m) == m
        }),
{
    let d = x / q;
    let m = x % q;
    assert(x == q * d + m) by (nonlinear_arith)
        requires
            d == x / q,
            m == x % q,
            q > 0,
    ;
    assert(p * q == 0x1_0000_0000_0000_0000);
    assert(x * p == 0x1_0000_0000_0000_0000 * d + m * p) by (nonlinear_arith)
        requires
            x == q * d + m,
            p * q == 0x1_0000_0000_0000_0000,
    ;
    assert(0 <= m * p < 0x1_0000_0000_0000_0000) by (nonlinear_arith)
        requires
            0 <= m < q,
            p > 0,
            p * q == 0x1_0000_0000_0000_0000,
    ;
    assert((x * p) % 0x1_0000_0000_0000_0000 == m * p);
    assert((m * p) / p == m) by (nonlinear_arith)
        requires
            p > 0,
    ;
    assert(m * p >= 0x8000_0000_0000_0000 <==> m >= q / 2);
    assert((m * p - 0x1_0000_0000_0000_0000) / p == m - q) by (nonlinear_arith)
        requires
            p > 0,
            p * q == 0x1_0000_0000_0000_0000,
    ;
    if m >= q / 2 {
        assert((m * p - 0x1_0000_0000_0000_0000) % 0x1_0000_0000_0000_0000 == m * p);
    }
}

// ---- registers --------------------------------------------------------------------------------------

/// Whether what a plan holds for a term stands for a value: a value of the run that
/// stands for it in memory, nothing, a function, or an aggregate part by part.
pub open spec fn reg_means(x: RegValue, v: Value, m: Machine) -> bool
    decreases x,
{
    match x {
        RegValue::Val(r) => r < m.made && memory::stored(m.mem, m.free, m.held[r], v),
        RegValue::Unit => v == Value::Unit,
        RegValue::Partial { func, got } => got.len() == 0 && v == Value::Function(func),
        RegValue::Tuple { tag, fields } => match v {
            Value::Data { ty, tag: t, fields: fs } => {
                &&& t == tag
                &&& fs.len() == fields.len()
                &&& forall|i: int|
                    0 <= i < fields.len() ==> reg_means(#[trigger] fields[i], fs[i], m)
            },
            Value::Array(items) => {
                &&& tag == items.len()
                &&& items.len() == fields.len()
                &&& forall|i: int|
                    0 <= i < fields.len() ==> reg_means(#[trigger] fields[i], items[i], m)
            },
            _ => false,
        },
    }
}

/// The variables in scope stand for these values.
pub open spec fn env_means(env: Seq<RegValue>, vals: Seq<Value>, m: Machine) -> bool {
    &&& env.len() == vals.len()
    &&& forall|i: int| 0 <= i < env.len() ==> reg_means(#[trigger] env[i], vals[i], m)
}

proof fn lemma_reg_kept(x: RegValue, v: Value, m: Machine, n: Machine)
    requires
        reg_means(x, v, m),
        keeps(m, n),
    ensures
        reg_means(x, v, n),
    decreases x,
{
    match x {
        RegValue::Val(r) => {
            assert(n.held[r] == m.held[r]);
            memory::lemma_stored_kept(m.mem, m.free, n.mem, n.free, m.held[r], v);
        },
        RegValue::Tuple { tag, fields } => match v {
            Value::Data { ty, tag: t, fields: fs } => {
                assert forall|i: int| 0 <= i < fields.len() implies reg_means(
                    #[trigger] fields[i],
                    fs[i],
                    n,
                ) by {
                    lemma_reg_kept(fields[i], fs[i], m, n);
                }
            },
            Value::Array(items) => {
                assert forall|i: int| 0 <= i < fields.len() implies reg_means(
                    #[trigger] fields[i],
                    items[i],
                    n,
                ) by {
                    lemma_reg_kept(fields[i], items[i], m, n);
                }
            },
            _ => {},
        },
        _ => {},
    }
}

pub proof fn lemma_env_kept(env: Seq<RegValue>, vals: Seq<Value>, m: Machine, n: Machine)
    requires
        env_means(env, vals, m),
        keeps(m, n),
    ensures
        env_means(env, vals, n),
{
    assert forall|i: int| 0 <= i < env.len() implies reg_means(#[trigger] env[i], vals[i], n) by {
        lemma_reg_kept(env[i], vals[i], m, n);
    }
}

/// What is held of a value that is no aggregate is made a word that stands for it.
pub proof fn lemma_steps_of_a_word(x: RegValue, v: Value, s: ClSt, m: Machine) -> (n: Machine)
    requires
        reg_means(x, v, m),
        m.made == s.values,
        s.values < u32::MAX,
        !(x is Tuple),
        !(x is Partial),
    ensures
        cl_code::reg_word_s(x, s) matches Ok((r, s1)) && does(s, m, s1, n) && keeps(m, n) && r < n.made
            && memory::stored(n.mem, n.free, n.held[r], v) && s1.env == s.env && s1.values
            <= s.values + 1 && n.mem == m.mem && n.free == m.free,
{
    lemma_does_nothing(s, m);
    match x {
        RegValue::Unit => {
            lemma_gain(s, m, StepView::Const(0));
            effect(StepView::Const(0), m)->0
        },
        _ => m,
    }
}

// ---- atoms ------------------------------------------------------------------------------------------

/// Whether an atom is a literal or a variable that is no aggregate in parts.
pub open spec fn is_plain(a: AtomView, env: Seq<RegValue>) -> bool {
    match a {
        AtomView::Lit(LiteralView::Str(_)) => false,
        AtomView::Lit(LiteralView::Float(_)) => false,
        AtomView::Lit(_) => true,
        AtomView::Var(i) => i < env.len() && (env[env.len() - 1 - i] is Val || env[env.len() - 1
            - i] is Unit),
        AtomView::Global(_) => false,
    }
}

/// The steps of an atom leave a word that stands for its value.
pub proof fn lemma_steps_of_an_atom(
    cx: ClCxView,
    a: AtomView,
    s: ClSt,
    m: Machine,
    vals: Seq<Value>,
    v: Value,
) -> (n: Machine)
    requires
        env_means(s.env, vals, m),
        m.made == s.values,
        s.values + 1 <= u32::MAX,
        is_plain(a, s.env),
        core_meaning::atom_value(a, vals, false) == Some(v),
    ensures
        cl_eval::atom_word_s(cx, a, s) matches Ok((r, s1)) && does(s, m, s1, n) && keeps(m, n) && r
            < n.made && memory::stored(n.mem, n.free, n.held[r], v) && s1.env == s.env && s1.values
            <= s.values + 1 && n.mem == m.mem && n.free == m.free,
{
    reveal(cl_eval::atom_word_s);
    lemma_does_nothing(s, m);
    match a {
        AtomView::Lit(LiteralView::Unit) => lemma_steps_of_a_word(RegValue::Unit, v, s, m),
        AtomView::Lit(LiteralView::Bool(b)) => {
            let step = StepView::Const(wasm_trans::truth(b));
            lemma_gain(s, m, step);
            effect(step, m)->0
        },
        AtomView::Lit(LiteralView::Int(k)) => {
            let step = StepView::Const(k);
            lemma_gain(s, m, step);
            effect(step, m)->0
        },
        AtomView::Lit(LiteralView::Char(c)) => {
            let step = StepView::Const(wasm_trans::code_point(c));
            lemma_gain(s, m, step);
            effect(step, m)->0
        },
        AtomView::Var(i) => {
            let x = s.env[s.env.len() - 1 - i];
            assert(reg_means(x, vals[vals.len() - 1 - i], m));
            lemma_steps_of_a_word(x, v, s, m)
        },
        _ => m,
    }
}

/// The steps of a primitive on one or two scalars compute its value: what native code
/// leaves is the word of what the core calculus says the primitive has for a value.
#[verifier::rlimit(60)]
pub proof fn lemma_steps_of_a_primitive(
    cx: ClCxView,
    op: PrimOp,
    args: Seq<AtomView>,
    s: ClSt,
    m: Machine,
    vals: Seq<Value>,
    vs: Seq<Value>,
    z: Value,
) -> (n: Machine)
    requires
        env_means(s.env, vals, m),
        m.made == s.values,
        s.values + 4 <= u32::MAX,
        args.len() == 1 || args.len() == 2,
        vs.len() == args.len(),
        forall|i: int|
            0 <= i < args.len() ==> is_plain(#[trigger] args[i], s.env) && core_meaning::atom_value(
                args[i],
                vals,
                false,
            ) == Some(vs[i]) && scalar(vs[i]),
        core_meaning::prim_value(op, vs) == Outcome::Value(z),
    ensures
        cl_eval::reg_prim_s(cx, op, args, s) matches Ok((RegValue::Val(t), s1)) && does(s, m, s1, n)
            && keeps(m, n) && t < n.made && core_meaning::word_of(z) == Some(n.held[t]) && n.mem
            == m.mem,
{
    reveal(cl_eval::reg_prim_s);
    reveal_with_fuel(cl_eval::atom_words_s, 3);
    let m1 = lemma_steps_of_an_atom(cx, args[0], s, m, vals, vs[0]);
    let (r0, s1) = cl_eval::atom_word_s(cx, args[0], s)->Ok_0;
    memory::lemma_scalar(m1.mem, m1.free, m1.held[r0], vs[0]);
    if args.len() == 1 {
        let v = Seq::<u32>::empty().push(r0);
        assert(cl_eval::atom_words_s(cx, args, 1, s) == Ok::<(Seq<u32>, ClSt), CodegenErrorView>(
            (v, s1),
        ));
        assert(vs =~= seq![vs[0]]);
        let n = lemma_steps_of_one_word(cx.checks, op, v, s1, m1, vs[0], z);
        let s2 = cl_eval::word_op_s(cx.checks, op, v, s1)->Ok_0.1;
        lemma_does_then(s, m, s1, m1, s2, n);
        lemma_keeps_then(m, m1, n);
        n
    } else {
        lemma_env_kept(s.env, vals, m, m1);
        let m2 = lemma_steps_of_an_atom(cx, args[1], s1, m1, vals, vs[1]);
        let (r1, s2) = cl_eval::atom_word_s(cx, args[1], s1)->Ok_0;
        memory::lemma_scalar(m2.mem, m2.free, m2.held[r1], vs[1]);
        let v = Seq::<u32>::empty().push(r0).push(r1);
        assert(cl_eval::atom_words_s(cx, args, 2, s) == Ok::<(Seq<u32>, ClSt), CodegenErrorView>(
            (v, s2),
        ));
        assert(m2.held[r0] == m1.held[r0]);
        assert(vs =~= seq![vs[0], vs[1]]);
        let n = lemma_steps_of_two_words(cx.checks, op, v, s2, m2, vs[0], vs[1], z);
        let s3 = cl_eval::word_op_s(cx.checks, op, v, s2)->Ok_0.1;
        lemma_does_then(s, m, s1, m1, s2, m2);
        lemma_does_then(s, m, s2, m2, s3, n);
        lemma_keeps_then(m, m1, m2);
        lemma_keeps_then(m, m2, n);
        n
    }
}

/// The steps of a cast leave the word of the cast value.
#[verifier::rlimit(60)]
pub proof fn lemma_steps_of_a_cast(
    cx: ClCxView,
    a: AtomView,
    to: TypeView,
    s: ClSt,
    m: Machine,
    vals: Seq<Value>,
    x: Value,
    z: Value,
) -> (n: Machine)
    requires
        env_means(s.env, vals, m),
        m.made == s.values,
        s.values + 4 <= u32::MAX,
        is_plain(a, s.env),
        core_meaning::atom_value(a, vals, false) == Some(x),
        scalar(x),
        core_meaning::cast_value(x, to) == Outcome::Value(z),
    ensures
        cl_eval::reg_cast_s(cx, a, to, s) matches Ok((RegValue::Val(t), s1)) && does(s, m, s1, n)
            && keeps(m, n) && t < n.made && core_meaning::word_of(z) == Some(n.held[t]),
{
    reveal(cl_eval::reg_cast_s);
    let m0 = lemma_steps_of_an_atom(cx, a, s, m, vals, x);
    let (v, s0) = cl_eval::atom_word_s(cx, a, s)->Ok_0;
    memory::lemma_scalar(m0.mem, m0.free, m0.held[v], x);
    match to {
        TypeView::Int(t) => if spare_bits(t) > 0 {
            lemma_shifts(m0.held[v], t);
            let k = spare_bits(t);
            let up = StepView::WithImm(WithImm::Shl, v, k);
            lemma_gain(s0, m0, up);
            let m1 = effect(up, m0)->0;
            let (u, s1) = cl_code::gain(s0, up);
            let down = StepView::WithImm(
                if is_signed(t) {
                    WithImm::ShrSigned
                } else {
                    WithImm::ShrUnsigned
                },
                u,
                k,
            );
            lemma_gain(s1, m1, down);
            let m2 = effect(down, m1)->0;
            let s2 = cl_code::gain(s1, down).1;
            lemma_does_then(s, m, s0, m0, s1, m1);
            lemma_does_then(s, m, s1, m1, s2, m2);
            lemma_keeps_then(m, m0, m1);
            lemma_keeps_then(m, m1, m2);
            m2
        } else {
            m0
        },
        TypeView::Bool => {
            let zero = StepView::Const(0);
            lemma_gain(s0, m0, zero);
            let m1 = effect(zero, m0)->0;
            let (z0, s1) = cl_code::gain(s0, zero);
            let differ = StepView::Compare(Relation::NotEqual, v, z0);
            assert(m1.held[v] == m0.held[v]);
            lemma_gain(s1, m1, differ);
            let m2 = effect(differ, m1)->0;
            let (c, s2) = cl_code::gain(s1, differ);
            let wide = StepView::Widen(c);
            lemma_gain(s2, m2, wide);
            let m3 = effect(wide, m2)->0;
            let s3 = cl_code::gain(s2, wide).1;
            lemma_does_then(s, m, s0, m0, s1, m1);
            lemma_does_then(s, m, s1, m1, s2, m2);
            lemma_does_then(s, m, s2, m2, s3, m3);
            lemma_keeps_then(m, m0, m1);
            lemma_keeps_then(m, m1, m2);
            lemma_keeps_then(m, m2, m3);
            m3
        },
        _ => m0,
    }
}

/// A field of a struct or a variant: what is held stands for that field.
pub proof fn lemma_steps_of_a_field(
    cx: ClCxView,
    base: AtomView,
    idx: u32,
    s: ClSt,
    m: Machine,
    vals: Seq<Value>,
    ty: Seq<u8>,
    tag: u32,
    fields: Seq<Value>,
) -> (n: Machine)
    requires
        env_means(s.env, vals, m),
        m.made == s.values,
        s.values < u32::MAX,
        base is Var,
        core_meaning::atom_value(base, vals, false) == Some(Value::Data { ty, tag, fields }),
        idx < fields.len(),
        idx < 0x0fff_ffff,
    ensures
        cl_eval::reg_proj_s(cx, base, idx, s) matches Ok((x, s1)) && does(s, m, s1, n) && keeps(m, n)
            && reg_means(x, fields[idx as int], n),
{
    reveal(cl_eval::reg_proj_s);
    lemma_does_nothing(s, m);
    let i = base->Var_0;
    let x = s.env[s.env.len() - 1 - i];
    assert(reg_means(x, vals[vals.len() - 1 - i], m));
    match x {
        RegValue::Val(ptr) => {
            let off = cl_code::field_at_offset(idx as nat);
            assert(off == 8 * (idx + 1));
            let step = StepView::Load(ptr, off);
            lemma_gain(s, m, step);
            let w = m.held[ptr];
            assert(w + off == memory::word_at(w, idx + 1));
            assert(memory::stored(m.mem, m.free, m.mem[memory::word_at(w, idx + 1)], fields[idx as int]));
            effect(step, m)->0
        },
        RegValue::Tuple { tag: t, fields: fs } => {
            assert(reg_means(fs[idx as int], fields[idx as int], m));
            m
        },
        _ => m,
    }
}

} // verus!
