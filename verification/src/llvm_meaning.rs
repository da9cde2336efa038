//! What the lines of LLVM text do, and that the lines of an operation compute the value
//! that the operation has.
use vstd::prelude::*;

use crate::cl_meaning;
use crate::core_meaning;
use crate::core_meaning::{Outcome, Value};
use crate::ir::{AtomView, IntTy, LiteralView, PrimOp, TypeView};
use crate::llvm_eval;
use crate::llvm_eval::LlCxView;
use crate::llvm_text;
use crate::llvm_text::{LlSt, PieceView};
use crate::memory;
use crate::memory::Memory;
use crate::text;

verus! {

// ---- numerals ---------------------------------------------------------------------------------------

/// The number that decimal digits spell.
pub open spec fn digits_value(t: Seq<char>) -> int
    decreases t.len(),
{
    if t.len() == 0 {
        0
    } else {
        10 * digits_value(t.drop_last()) + (t.last() as int - '0' as int)
    }
}

/// The number that a numeral spells.
pub open spec fn numeral_value(t: Seq<char>) -> int {
    if t.len() > 0 && t[0] == '-' {
        -digits_value(t.drop_first())
    } else {
        digits_value(t)
    }
}

proof fn lemma_digit(d: int)
    requires
        0 <= d < 10,
    ensures
        text::digit_char(d) as int - '0' as int == d,
{
}

proof fn lemma_decimal(n: nat)
    ensures
        digits_value(text::decimal(n)) == n,
        text::decimal(n).len() > 0,
        text::decimal(n)[0] as int >= '0' as int,
        text::decimal(n)[0] as int <= '9' as int,
    decreases n,
{
    if n < 10 {
        lemma_digit(n as int);
        let t = text::decimal(n);
        assert(t.drop_last() =~= Seq::empty());
        assert(digits_value(t.drop_last()) == 0);
    } else {
        lemma_decimal(n / 10);
        lemma_digit((n % 10) as int);
        assert(text::decimal(n).drop_last() =~= text::decimal(n / 10));
    }
}

/// The spelling of a number is that of no other.
pub proof fn lemma_numeral(n: int)
    ensures
        numeral_value(text::decimal_int(n)) == n,
        text::decimal_int(n).len() > 0,
        text::decimal_int(n)[0] != '%',
{
    if n < 0 {
        lemma_decimal((-n) as nat);
        assert(text::decimal_int(n).drop_first() =~= text::decimal((-n) as nat));
    } else {
        lemma_decimal(n as nat);
    }
}

// ---- lines ------------------------------------------------------------------------------------------

/// An instruction that makes a value or stores one: its result, and its operands as they
/// are written.
pub enum Ins {
    /// `dst = op i64 a, b`.
    Bin { dst: Seq<char>, op: Seq<char>, a: Seq<char>, b: Seq<char> },
    /// `dst = icmp pred i64 a, b`.
    Relate { dst: Seq<char>, pred: Seq<char>, a: Seq<char>, b: Seq<char> },
    /// `dst = zext i1 a to i64`.
    Widen { dst: Seq<char>, a: Seq<char> },
    /// `dst = trunc i64 a to iN`.
    Trunc { dst: Seq<char>, a: Seq<char>, bits: nat },
    /// `dst = sext iN a to i64`.
    Sext { dst: Seq<char>, a: Seq<char>, bits: nat },
    /// `dst = zext iN a to i64`.
    Zext { dst: Seq<char>, a: Seq<char>, bits: nat },
    /// `dst = inttoptr i64 a to ptr`.
    ToPtr { dst: Seq<char>, a: Seq<char> },
    /// `dst = getelementptr i64, ptr a, i64 b`.
    Element { dst: Seq<char>, a: Seq<char>, b: Seq<char> },
    /// `dst = load i64, ptr a`.
    Load { dst: Seq<char>, a: Seq<char> },
}

/// How an instruction is written.
pub open spec fn ins_text(x: Ins) -> Seq<char> {
    match x {
        Ins::Bin { dst, op, a, b } => dst + (" = "@ + op + " i64 "@ + a + ", "@ + b),
        Ins::Relate { dst, pred, a, b } => dst + (" = icmp "@ + pred + " i64 "@ + a + ", "@ + b),
        Ins::Widen { dst, a } => dst + (" = zext i1 "@ + a + " to i64"@),
        Ins::Trunc { dst, a, bits } => dst + (" = trunc i64 "@ + a + " to i"@ + text::decimal(bits)),
        Ins::Sext { dst, a, bits } => dst + (" = sext i"@ + text::decimal(bits) + " "@ + a
            + " to i64"@),
        Ins::Zext { dst, a, bits } => dst + (" = zext i"@ + text::decimal(bits) + " "@ + a
            + " to i64"@),
        Ins::ToPtr { dst, a } => dst + (" = inttoptr i64 "@ + a + " to ptr"@),
        Ins::Element { dst, a, b } => dst + (" = getelementptr i64, ptr "@ + a + ", i64 "@ + b),
        Ins::Load { dst, a } => dst + (" = load i64, ptr "@ + a),
    }
}

/// What a run holds: the values made so far, by their names, and the memory.
pub struct Frame {
    pub regs: Map<Seq<char>, int>,
    pub mem: Memory,
    pub top: int,
}

/// The word of an operand: a value by its name, or a number.
pub open spec fn operand(m: Frame, t: Seq<char>) -> int {
    if t.len() > 0 && t[0] == '%' {
        m.regs[t]
    } else {
        numeral_value(t)
    }
}

/// What the name of a binary instruction says.
pub open spec fn bin_word(op: Seq<char>, x: int, y: int) -> Option<int> {
    if op == "add"@ {
        Some(core_meaning::wrap(x + y))
    } else if op == "sub"@ {
        Some(core_meaning::wrap(x - y))
    } else if op == "mul"@ {
        Some(core_meaning::wrap(x * y))
    } else if op == "sdiv"@ {
        if core_meaning::divides(x, y) {
            Some(core_meaning::quotient(x, y))
        } else {
            None
        }
    } else if op == "srem"@ {
        if core_meaning::divides(x, y) {
            Some(core_meaning::remainder(x, y))
        } else {
            None
        }
    } else if op == "and"@ {
        Some(((x as i64) & (y as i64)) as int)
    } else if op == "or"@ {
        Some(((x as i64) | (y as i64)) as int)
    } else if op == "xor"@ {
        Some(((x as i64) ^ (y as i64)) as int)
    } else {
        None
    }
}

/// What the name of a comparison says.
pub open spec fn pred_word(pred: Seq<char>, x: int, y: int) -> Option<bool> {
    if pred == "eq"@ {
        Some(x == y)
    } else if pred == "ne"@ {
        Some(x != y)
    } else if pred == "slt"@ {
        Some(x < y)
    } else if pred == "sle"@ {
        Some(x <= y)
    } else if pred == "sgt"@ {
        Some(x > y)
    } else if pred == "sge"@ {
        Some(x >= y)
    } else if pred == "ult"@ {
        Some(core_meaning::unsigned(x) < core_meaning::unsigned(y))
    } else {
        None
    }
}

/// The size of the integers of 8, 16 or 32 bits.
pub open spec fn range_of(bits: nat) -> Option<int> {
    if bits == 8 {
        Some(0x100)
    } else if bits == 16 {
        Some(0x1_0000)
    } else if bits == 32 {
        Some(0x1_0000_0000)
    } else {
        None
    }
}

/// The word that an instruction makes.
pub open spec fn ins_word(x: Ins, m: Frame) -> Option<int> {
    match x {
        Ins::Bin { dst, op, a, b } => bin_word(op, operand(m, a), operand(m, b)),
        Ins::Relate { dst, pred, a, b } => match pred_word(pred, operand(m, a), operand(m, b)) {
            Some(t) => Some(
                if t {
                    1
                } else {
                    0
                },
            ),
            None => None,
        },
        Ins::Widen { dst, a } => Some(operand(m, a)),
        Ins::Trunc { dst, a, bits } => match range_of(bits) {
            Some(q) => Some(operand(m, a) % q),
            None => None,
        },
        Ins::Sext { dst, a, bits } => match range_of(bits) {
            Some(q) => Some(
                if operand(m, a) >= q / 2 {
                    operand(m, a) - q
                } else {
                    operand(m, a)
                },
            ),
            None => None,
        },
        Ins::Zext { dst, a, bits } => match range_of(bits) {
            Some(q) => Some(operand(m, a)),
            None => None,
        },
        Ins::ToPtr { dst, a } => Some(operand(m, a)),
        Ins::Element { dst, a, b } => Some(operand(m, a) + 8 * operand(m, b)),
        Ins::Load { dst, a } => Some(m.mem[operand(m, a)]),
    }
}

pub open spec fn ins_result(x: Ins) -> Seq<char> {
    match x {
        Ins::Bin { dst, op, a, b } => dst,
        Ins::Relate { dst, pred, a, b } => dst,
        Ins::Widen { dst, a } => dst,
        Ins::Trunc { dst, a, bits } => dst,
        Ins::Sext { dst, a, bits } => dst,
        Ins::Zext { dst, a, bits } => dst,
        Ins::ToPtr { dst, a } => dst,
        Ins::Element { dst, a, b } => dst,
        Ins::Load { dst, a } => dst,
    }
}

/// What an instruction does.
pub open spec fn ins_effect(x: Ins, m: Frame) -> Option<Frame> {
    match ins_word(x, m) {
        Some(w) => Some(Frame { regs: m.regs.insert(ins_result(x), w), ..m }),
        None => None,
    }
}

/// What the first `n` instructions do.
pub open spec fn runs(prog: Seq<Ins>, n: nat, m: Frame) -> Option<Frame>
    decreases n,
{
    if n == 0 {
        Some(m)
    } else {
        match runs(prog, (n - 1) as nat, m) {
            Some(m1) => ins_effect(prog[n - 1], m1),
            None => None,
        }
    }
}

/// Whether a text has grown by the lines of these instructions.
pub open spec fn reads(prog: Seq<Ins>, from: Seq<Seq<char>>, to: Seq<Seq<char>>) -> bool {
    to == from + Seq::new(prog.len(), |i: int| "  "@ + ins_text(prog[i]))
}

/// The lines that a text has grown by take a frame to another one.
pub open spec fn does(s: LlSt, m: Frame, t: LlSt, n: Frame) -> bool {
    exists|prog: Seq<Ins>| #[trigger]
        reads(prog, s.lines, t.lines) && runs(prog, prog.len(), m) == Some(n)
}

/// The name of a value.
pub open spec fn reg(k: nat) -> Seq<char> {
    "%t"@ + text::decimal(k)
}

/// Whether an operand was there before value `k` was made.
pub open spec fn before(t: Seq<char>, k: u64) -> bool {
    forall|j: nat| j >= k ==> t != #[trigger] reg(j)
}

/// What was there before is there still.
pub open spec fn keeps(m: Frame, n: Frame, k: u64) -> bool {
    &&& n.mem == m.mem
    &&& n.top == m.top
    &&& forall|t: Seq<char>| #[trigger] before(t, k) ==> operand(n, t) == operand(m, t)
}

proof fn lemma_reg(j: nat, k: nat)
    ensures
        reg(j) == reg(k) ==> j == k,
        reg(j).len() > 0,
        reg(j)[0] == '%',
{
    reveal_strlit("%t");
    lemma_decimal(j);
    lemma_decimal(k);
    if reg(j) == reg(k) {
        assert(reg(j).subrange(2, reg(j).len() as int) =~= text::decimal(j));
        assert(reg(k).subrange(2, reg(k).len() as int) =~= text::decimal(k));
    }
}

/// A value is there before the ones that come after it.
pub proof fn lemma_before(j: nat, k: u64)
    requires
        j < k,
    ensures
        before(reg(j), k),
{
    assert forall|i: nat| i >= k implies reg(j) != #[trigger] reg(i) by {
        lemma_reg(j, i);
    }
}

pub proof fn lemma_before_more(t: Seq<char>, k: u64, l: u64)
    requires
        before(t, k),
        k <= l,
    ensures
        before(t, l),
{
}

/// A numeral is there always.
pub proof fn lemma_number(n: int, k: u64, m: Frame)
    ensures
        before(text::decimal_int(n), k),
        operand(m, text::decimal_int(n)) == n,
{
    lemma_numeral(n);
    assert forall|i: nat| i >= k implies text::decimal_int(n) != #[trigger] reg(i) by {
        lemma_reg(i, i);
    }
}

proof fn lemma_runs_same(a: Seq<Ins>, b: Seq<Ins>, n: nat, m: Frame)
    requires
        n <= a.len(),
        n <= b.len(),
        forall|i: int| 0 <= i < n ==> #[trigger] a[i] == b[i],
    ensures
        runs(a, n, m) == runs(b, n, m),
    decreases n,
{
    if n > 0 {
        lemma_runs_same(a, b, (n - 1) as nat, m);
        assert(a[n - 1] == b[n - 1]);
    }
}

proof fn lemma_runs_then(p: Seq<Ins>, q: Seq<Ins>, k: nat, m: Frame)
    requires
        k <= q.len(),
    ensures
        runs(p + q, p.len() + k, m) == match runs(p, p.len(), m) {
            Some(m1) => runs(q, k, m1),
            None => None,
        },
    decreases k,
{
    if k == 0 {
        lemma_runs_same(p + q, p, p.len(), m);
    } else {
        lemma_runs_then(p, q, (k - 1) as nat, m);
        assert((p + q)[p.len() + k - 1] == q[k - 1]);
    }
}

pub proof fn lemma_does_nothing(s: LlSt, m: Frame)
    ensures
        does(s, m, s, m),
        keeps(m, m, s.tmp),
{
    let none: Seq<Ins> = Seq::empty();
    assert(s.lines =~= s.lines + Seq::new(none.len(), |i: int| "  "@ + ins_text(none[i])));
    assert(reads(none, s.lines, s.lines));
}

pub proof fn lemma_does_then(s: LlSt, m: Frame, t: LlSt, n: Frame, u: LlSt, o: Frame)
    requires
        does(s, m, t, n),
        does(t, n, u, o),
    ensures
        does(s, m, u, o),
{
    let p = choose|prog: Seq<Ins>| #[trigger]
        reads(prog, s.lines, t.lines) && runs(prog, prog.len(), m) == Some(n);
    let q = choose|prog: Seq<Ins>| #[trigger]
        reads(prog, t.lines, u.lines) && runs(prog, prog.len(), n) == Some(o);
    lemma_runs_then(p, q, q.len(), m);
    assert(u.lines =~= s.lines + Seq::new((p + q).len(), |i: int| "  "@ + ins_text((p + q)[i])));
    assert(reads(p + q, s.lines, u.lines));
}

pub proof fn lemma_keeps_then(m: Frame, n: Frame, o: Frame, k: u64, l: u64)
    requires
        keeps(m, n, k),
        keeps(n, o, l),
        k <= l,
    ensures
        keeps(m, o, k),
{
    assert forall|t: Seq<char>| #[trigger] before(t, k) implies operand(o, t) == operand(m, t) by {
        lemma_before_more(t, k, l);
        assert(before(t, l));
    }
}

/// A line that makes a value.
pub proof fn lemma_made(s: LlSt, m: Frame, x: Ins, after: Seq<char>)
    requires
        ins_result(x) == reg(s.tmp as nat),
        ins_text(x) == reg(s.tmp as nat) + after,
        ins_effect(x, m) is Some,
        s.tmp < u64::MAX,
    ensures
        ({
            let (t, s1) = llvm_text::made(after, s);
            let n = ins_effect(x, m)->0;
            &&& t == reg(s.tmp as nat)
            &&& s1.tmp == s.tmp + 1
            &&& s1.env == s.env
            &&& does(s, m, s1, n)
            &&& keeps(m, n, s.tmp)
            &&& operand(n, t) == ins_word(x, m)->0
            &&& before(t, s1.tmp)
        }),
{
    let (t, s1) = llvm_text::made(after, s);
    let n = ins_effect(x, m)->0;
    let prog = seq![x];
    reveal_with_fuel(runs, 2);
    assert(prog[0] == x);
    assert(s1.lines =~= s.lines + Seq::new(prog.len(), |i: int| "  "@ + ins_text(prog[i])));
    assert(reads(prog, s.lines, s1.lines));
    lemma_reg(s.tmp as nat, s.tmp as nat);
    lemma_before(s.tmp as nat, s1.tmp);
    assert forall|u: Seq<char>| #[trigger] before(u, s.tmp) implies operand(n, u) == operand(m, u) by {
        assert(u != reg(s.tmp as nat));
    }
}

// ---- operations -------------------------------------------------------------------------------------

proof fn lemma_names()
    ensures
        "add"@ != "sub"@,
        "add"@ != "mul"@,
        "add"@ != "sdiv"@,
        "add"@ != "srem"@,
        "add"@ != "and"@,
        "add"@ != "or"@,
        "add"@ != "xor"@,
        "sub"@ != "mul"@,
        "sub"@ != "sdiv"@,
        "sub"@ != "srem"@,
        "sub"@ != "and"@,
        "sub"@ != "or"@,
        "sub"@ != "xor"@,
        "mul"@ != "sdiv"@,
        "mul"@ != "srem"@,
        "mul"@ != "and"@,
        "mul"@ != "or"@,
        "mul"@ != "xor"@,
        "sdiv"@ != "srem"@,
        "sdiv"@ != "and"@,
        "sdiv"@ != "or"@,
        "sdiv"@ != "xor"@,
        "srem"@ != "and"@,
        "srem"@ != "or"@,
        "srem"@ != "xor"@,
        "and"@ != "or"@,
        "and"@ != "xor"@,
        "or"@ != "xor"@,
        "eq"@ != "ne"@,
        "eq"@ != "slt"@,
        "eq"@ != "sle"@,
        "eq"@ != "sgt"@,
        "eq"@ != "sge"@,
        "eq"@ != "ult"@,
        "ne"@ != "slt"@,
        "ne"@ != "sle"@,
        "ne"@ != "sgt"@,
        "ne"@ != "sge"@,
        "ne"@ != "ult"@,
        "slt"@ != "sle"@,
        "slt"@ != "sgt"@,
        "slt"@ != "sge"@,
        "slt"@ != "ult"@,
        "sle"@ != "sgt"@,
        "sle"@ != "sge"@,
        "sle"@ != "ult"@,
        "sgt"@ != "sge"@,
        "sgt"@ != "ult"@,
        "sge"@ != "ult"@,
{
    reveal_strlit("add");
    reveal_strlit("sub");
    reveal_strlit("mul");
    reveal_strlit("sdiv");
    reveal_strlit("srem");
    reveal_strlit("and");
    reveal_strlit("or");
    reveal_strlit("xor");
    reveal_strlit("eq");
    reveal_strlit("ne");
    reveal_strlit("slt");
    reveal_strlit("sle");
    reveal_strlit("sgt");
    reveal_strlit("sge");
    reveal_strlit("ult");
    assert("add"@[0] == 'a' && "add"@[1] == 'd' && "sub"@[0] == 's' && "sub"@[1] == 'u');
    assert("mul"@[0] == 'm' && "sdiv"@[0] == 's' && "sdiv"@[1] == 'd' && "srem"@[0] == 's');
    assert("srem"@[1] == 'r' && "and"@[0] == 'a' && "and"@[1] == 'n' && "or"@[0] == 'o');
    assert("xor"@[0] == 'x');
    assert("eq"@[0] == 'e' && "ne"@[0] == 'n' && "slt"@[0] == 's' && "slt"@[1] == 'l');
    assert("slt"@[2] == 't' && "sle"@[1] == 'l' && "sle"@[2] == 'e' && "sgt"@[1] == 'g');
    assert("sgt"@[2] == 't' && "sge"@[1] == 'g' && "sge"@[2] == 'e' && "ult"@[0] == 'u');
    assert("sle"@[0] == 's' && "sgt"@[0] == 's' && "sge"@[0] == 's');
}

/// A binary line.
pub proof fn lemma_line_of_two(op: Seq<char>, a: Seq<char>, b: Seq<char>, s: LlSt, m: Frame) -> (n: Frame)
    requires
        bin_word(op, operand(m, a), operand(m, b)) is Some,
        s.tmp < u64::MAX,
    ensures
        ({
            let (t, s1) = llvm_text::bin_s(op, a, b, s);
            &&& does(s, m, s1, n)
            &&& keeps(m, n, s.tmp)
            &&& operand(n, t) == bin_word(op, operand(m, a), operand(m, b))->0
            &&& s1.tmp == s.tmp + 1
            &&& s1.env == s.env
            &&& before(t, s1.tmp)
        }),
{
    let dst = reg(s.tmp as nat);
    let x = Ins::Bin { dst, op, a, b };
    lemma_made(s, m, x, " = "@ + op + " i64 "@ + a + ", "@ + b);
    ins_effect(x, m)->0
}

/// The lines of a comparison.
pub proof fn lemma_lines_of_a_comparison(pred: Seq<char>, a: Seq<char>, b: Seq<char>, s: LlSt, m: Frame) -> (n:
    Frame)
    requires
        pred_word(pred, operand(m, a), operand(m, b)) is Some,
        s.tmp + 2 <= u64::MAX,
    ensures
        ({
            let (t, s1) = llvm_text::compare_s(pred, a, b, s);
            &&& does(s, m, s1, n)
            &&& keeps(m, n, s.tmp)
            &&& operand(n, t) == if pred_word(pred, operand(m, a), operand(m, b))->0 {
                1int
            } else {
                0
            }
            &&& s1.tmp == s.tmp + 2
            &&& s1.env == s.env
            &&& before(t, s1.tmp)
        }),
{
    let x = Ins::Relate { dst: reg(s.tmp as nat), pred, a, b };
    let after = " = icmp "@ + pred + " i64 "@ + a + ", "@ + b;
    lemma_made(s, m, x, after);
    let m1 = ins_effect(x, m)->0;
    let (c, s1) = llvm_text::made(after, s);
    let y = Ins::Widen { dst: reg(s1.tmp as nat), a: c };
    lemma_made(s1, m1, y, " = zext i1 "@ + c + " to i64"@);
    let m2 = ins_effect(y, m1)->0;
    let s2 = llvm_text::made(" = zext i1 "@ + c + " to i64"@, s1).1;
    lemma_does_then(s, m, s1, m1, s2, m2);
    lemma_keeps_then(m, m1, m2, s.tmp, s1.tmp);
    m2
}

/// The lines that load a word of a block.
pub proof fn lemma_lines_of_a_load(base: Seq<char>, index: Seq<char>, s: LlSt, m: Frame) -> (n: Frame)
    requires
        s.tmp + 3 <= u64::MAX,
        before(index, s.tmp),
    ensures
        ({
            let (t, s1) = llvm_text::load_s(base, index, s);
            &&& does(s, m, s1, n)
            &&& keeps(m, n, s.tmp)
            &&& operand(n, t) == m.mem[memory::word_at(operand(m, base), operand(m, index))]
            &&& s1.tmp == s.tmp + 3
            &&& s1.env == s.env
            &&& before(t, s1.tmp)
        }),
{
    let x = Ins::ToPtr { dst: reg(s.tmp as nat), a: base };
    let tx = " = inttoptr i64 "@ + base + " to ptr"@;
    lemma_made(s, m, x, tx);
    let m1 = ins_effect(x, m)->0;
    let (raw, s1) = llvm_text::made(tx, s);
    let y = Ins::Element { dst: reg(s1.tmp as nat), a: raw, b: index };
    let ty = " = getelementptr i64, ptr "@ + raw + ", i64 "@ + index;
    lemma_made(s1, m1, y, ty);
    let m2 = ins_effect(y, m1)->0;
    let (addr, s2) = llvm_text::made(ty, s1);
    let z = Ins::Load { dst: reg(s2.tmp as nat), a: addr };
    let tz = " = load i64, ptr "@ + addr;
    lemma_made(s2, m2, z, tz);
    let m3 = ins_effect(z, m2)->0;
    let s3 = llvm_text::made(tz, s2).1;
    lemma_does_then(s, m, s1, m1, s2, m2);
    lemma_does_then(s, m, s2, m2, s3, m3);
    lemma_keeps_then(m, m1, m2, s.tmp, s1.tmp);
    lemma_keeps_then(m, m2, m3, s.tmp, s2.tmp);
    m3
}

/// The lines of a primitive on two scalars leave the word of the value that the primitive
/// has.
#[verifier::rlimit(60)]
pub proof fn lemma_lines_of_two_words(
    checks: bool,
    op: PrimOp,
    v: Seq<Seq<char>>,
    s: LlSt,
    m: Frame,
    x: Value,
    y: Value,
    z: Value,
) -> (n: Frame)
    requires
        v.len() == 2,
        cl_meaning::scalar(x),
        cl_meaning::scalar(y),
        s.tmp + 2 <= u64::MAX,
        core_meaning::word_of(x) == Some(operand(m, v[0])),
        core_meaning::word_of(y) == Some(operand(m, v[1])),
        core_meaning::prim_value(op, seq![x, y]) == Outcome::Value(z),
    ensures
        llvm_eval::op_s(checks, op, v, s) matches Ok((t, s1)) && does(s, m, s1, n) && keeps(m, n, s.tmp)
            && core_meaning::word_of(z) == Some(operand(n, t)) && s1.tmp <= s.tmp + 2 && s1.tmp >= s.tmp,
{
    let vs = seq![x, y];
    assert(vs.len() == 2 && vs[0] == x && vs[1] == y);
    lemma_names();
    let a = operand(m, v[0]);
    let b = operand(m, v[1]);
    if op == PrimOp::And || op == PrimOp::Or {
        cl_meaning::lemma_bits(a as i64, b as i64);
    }
    match llvm_eval::form_of(op) {
        llvm_eval::Form::Bin(name) => lemma_line_of_two(name, v[0], v[1], s, m),
        llvm_eval::Form::Relation(name) => lemma_lines_of_a_comparison(name, v[0], v[1], s, m),
        llvm_eval::Form::Other => {
            assert(false);
            m
        },
    }
}

/// The lines of a primitive on one scalar.
#[verifier::rlimit(60)]
pub proof fn lemma_lines_of_one_word(
    checks: bool,
    op: PrimOp,
    v: Seq<Seq<char>>,
    s: LlSt,
    m: Frame,
    x: Value,
    z: Value,
) -> (n: Frame)
    requires
        v.len() == 1,
        cl_meaning::scalar(x),
        s.tmp + 2 <= u64::MAX,
        core_meaning::word_of(x) == Some(operand(m, v[0])),
        core_meaning::prim_value(op, seq![x]) == Outcome::Value(z),
    ensures
        llvm_eval::op_s(checks, op, v, s) matches Ok((t, s1)) && does(s, m, s1, n) && keeps(m, n, s.tmp)
            && core_meaning::word_of(z) == Some(operand(n, t)) && s1.tmp <= s.tmp + 2 && s1.tmp >= s.tmp,
{
    let vs = seq![x];
    assert(vs.len() == 1 && vs[0] == x);
    lemma_names();
    lemma_zero_and_one(s.tmp, m);
    if op == PrimOp::Not {
        cl_meaning::lemma_bits(operand(m, v[0]) as i64, 0);
        lemma_line_of_two("xor"@, v[0], "1"@, s, m)
    } else {
        lemma_line_of_two("sub"@, "0"@, v[0], s, m)
    }
}

proof fn lemma_zero_and_one(k: u64, m: Frame)
    ensures
        operand(m, "0"@) == 0,
        operand(m, "1"@) == 1,
        before("0"@, k),
        before("1"@, k),
{
    reveal_strlit("0");
    reveal_strlit("1");
    assert("0"@ =~= text::decimal_int(0));
    assert("1"@ =~= text::decimal_int(1));
    lemma_number(0, k, m);
    lemma_number(1, k, m);
}

/// The lines of a length load the first word of the block of what has it.
pub proof fn lemma_lines_of_a_length(checks: bool, v: Seq<Seq<char>>, s: LlSt, m: Frame, x: Value, z: Value) -> (n:
    Frame)
    requires
        v.len() == 1,
        s.tmp + 3 <= u64::MAX,
        memory::stored(m.mem, m.top, operand(m, v[0]), x),
        core_meaning::prim_value(PrimOp::Len, seq![x]) == Outcome::Value(z),
    ensures
        llvm_eval::op_s(checks, PrimOp::Len, v, s) matches Ok((t, s1)) && does(s, m, s1, n) && keeps(
            m,
            n,
            s.tmp,
        ) && core_meaning::word_of(z) == Some(operand(n, t)),
{
    let vs = seq![x];
    assert(vs.len() == 1 && vs[0] == x);
    lemma_zero_and_one(s.tmp, m);
    match x {
        Value::Str(t) => core_meaning::lemma_members_of_a_string(t),
        _ => {},
    }
    lemma_lines_of_a_load(v[0], "0"@, s, m)
}

/// Without the check of the position, the lines of reading a member of an array or a
/// string leave the word of that member.
pub proof fn lemma_lines_of_a_member(v: Seq<Seq<char>>, s: LlSt, m: Frame, x: Value, i: int, z: Value) -> (n:
    Frame)
    requires
        v.len() == 2,
        s.tmp + 4 <= u64::MAX,
        x is Array || x is Str,
        before(v[0], s.tmp),
        memory::stored(m.mem, m.top, operand(m, v[0]), x),
        operand(m, v[1]) == i,
        m.top < 0x8000_0000_0000_0000,
        core_meaning::prim_value(PrimOp::Index, seq![x, Value::Int(i)]) == Outcome::Value(z),
    ensures
        llvm_eval::op_s(false, PrimOp::Index, v, s) matches Ok((t, s1)) && does(s, m, s1, n) && keeps(
            m,
            n,
            s.tmp,
        ) && memory::stored(n.mem, n.top, operand(n, t), z),
{
    let vs = seq![x, Value::Int(i)];
    assert(vs.len() == 2 && vs[0] == x && vs[1] == Value::Int(i));
    lemma_names();
    lemma_zero_and_one(s.tmp, m);
    memory::lemma_member(m.mem, m.top, operand(m, v[0]), x, core_meaning::members(x)->0, i);
    let m1 = lemma_line_of_two("add"@, v[1], "1"@, s, m);
    let (slot, s1) = llvm_text::bin_s("add"@, v[1], "1"@, s);
    assert(operand(m1, slot) == i + 1);
    assert(operand(m1, v[0]) == operand(m, v[0]));
    let m2 = lemma_lines_of_a_load(v[0], slot, s1, m1);
    let s2 = llvm_text::load_s(v[0], slot, s1).1;
    lemma_does_then(s, m, s1, m1, s2, m2);
    lemma_keeps_then(m, m1, m2, s.tmp, s1.tmp);
    m2
}

// ---- atoms ------------------------------------------------------------------------------------------

/// Whether what a text holds for a term stands for a value.
pub open spec fn item_means(x: PieceView, v: Value, m: Frame, k: u64) -> bool
    decreases x,
{
    match x {
        PieceView::Val(t) => before(t, k) && memory::stored(m.mem, m.top, operand(m, t), v),
        PieceView::Unit => v == Value::Unit,
        PieceView::Tuple { tag, fields } => match v {
            Value::Data { ty, tag: t, fields: fs } => {
                &&& fs.len() == fields.len()
                &&& forall|i: int|
                    0 <= i < fields.len() ==> item_means(#[trigger] fields[i], fs[i], m, k)
            },
            _ => false,
        },
        _ => false,
    }
}

/// The variables in scope stand for these values.
pub open spec fn env_means(env: Seq<PieceView>, vals: Seq<Value>, m: Frame, k: u64) -> bool {
    &&& env.len() == vals.len()
    &&& forall|i: int| 0 <= i < env.len() ==> item_means(#[trigger] env[i], vals[i], m, k)
}

/// Whether an atom is a literal or a variable that is no aggregate in parts.
pub open spec fn is_plain(a: AtomView, env: Seq<PieceView>) -> bool {
    match a {
        AtomView::Lit(LiteralView::Str(_)) => false,
        AtomView::Lit(LiteralView::Float(_)) => false,
        AtomView::Lit(_) => true,
        AtomView::Var(i) => i < env.len() && (env[env.len() - 1 - i] is Val || env[env.len() - 1
            - i] is Unit),
        AtomView::Global(_) => false,
    }
}

/// An atom is an operand that stands for its value; no line is needed for it.
pub proof fn lemma_operand_of_an_atom(cx: LlCxView, a: AtomView, s: LlSt, m: Frame, vals: Seq<Value>, v: Value)
    requires
        env_means(s.env, vals, m, s.tmp),
        is_plain(a, s.env),
        core_meaning::atom_value(a, vals, false) == Some(v),
    ensures
        llvm_eval::ll_word_s(cx, a, s) matches Ok((t, s1)) && s1 == s && before(t, s.tmp)
            && memory::stored(m.mem, m.top, operand(m, t), v),
{
    reveal(llvm_eval::ll_word_s);
    lemma_zero_and_one(s.tmp, m);
    match a {
        AtomView::Lit(LiteralView::Int(n)) => lemma_number(n as int, s.tmp, m),
        AtomView::Lit(LiteralView::Char(c)) => {
            lemma_number((c as u32) as int, s.tmp, m);
            assert(text::decimal_int((c as u32) as int) == text::decimal((c as u32) as nat));
        },
        AtomView::Var(i) => {
            assert(item_means(s.env[s.env.len() - 1 - i], vals[vals.len() - 1 - i], m, s.tmp));
        },
        _ => {},
    }
}

/// The lines of a primitive on one or two scalars compute its value: what they leave is
/// the word of what the core calculus says the primitive has for a value.
#[verifier::rlimit(60)]
pub proof fn lemma_lines_of_a_primitive(
    cx: LlCxView,
    op: PrimOp,
    args: Seq<AtomView>,
    s: LlSt,
    m: Frame,
    vals: Seq<Value>,
    vs: Seq<Value>,
    z: Value,
) -> (n: Frame)
    requires
        env_means(s.env, vals, m, s.tmp),
        s.tmp + 2 <= u64::MAX,
        args.len() == 1 || args.len() == 2,
        vs.len() == args.len(),
        forall|i: int|
            0 <= i < args.len() ==> is_plain(#[trigger] args[i], s.env) && core_meaning::atom_value(
                args[i],
                vals,
                false,
            ) == Some(vs[i]) && cl_meaning::scalar(vs[i]),
        core_meaning::prim_value(op, vs) == Outcome::Value(z),
    ensures
        llvm_eval::ll_prim_s(cx, op, args, s) matches Ok((PieceView::Val(t), s1)) && does(s, m, s1, n)
            && keeps(m, n, s.tmp) && core_meaning::word_of(z) == Some(operand(n, t)),
{
    reveal(llvm_eval::ll_prim_s);
    reveal_with_fuel(llvm_eval::words_s, 3);
    lemma_operand_of_an_atom(cx, args[0], s, m, vals, vs[0]);
    let t0 = llvm_eval::ll_word_s(cx, args[0], s)->Ok_0.0;
    memory::lemma_scalar(m.mem, m.top, operand(m, t0), vs[0]);
    if args.len() == 1 {
        let v = Seq::<Seq<char>>::empty().push(t0);
        assert(vs =~= seq![vs[0]]);
        lemma_lines_of_one_word(cx.checks, op, v, s, m, vs[0], z)
    } else {
        lemma_operand_of_an_atom(cx, args[1], s, m, vals, vs[1]);
        let t1 = llvm_eval::ll_word_s(cx, args[1], s)->Ok_0.0;
        memory::lemma_scalar(m.mem, m.top, operand(m, t1), vs[1]);
        let v = Seq::<Seq<char>>::empty().push(t0).push(t1);
        assert(vs =~= seq![vs[0], vs[1]]);
        lemma_lines_of_two_words(cx.checks, op, v, s, m, vs[0], vs[1], z)
    }
}

/// The lines of a cast leave the word of the cast value.
#[verifier::rlimit(60)]
pub proof fn lemma_lines_of_a_cast(
    cx: LlCxView,
    a: AtomView,
    to: TypeView,
    s: LlSt,
    m: Frame,
    vals: Seq<Value>,
    x: Value,
    z: Value,
) -> (n: Frame)
    requires
        env_means(s.env, vals, m, s.tmp),
        s.tmp + 2 <= u64::MAX,
        is_plain(a, s.env),
        core_meaning::atom_value(a, vals, false) == Some(x),
        cl_meaning::scalar(x),
        core_meaning::cast_value(x, to) == Outcome::Value(z),
    ensures
        llvm_eval::ll_cast_s(cx, a, to, s) matches Ok((PieceView::Val(t), s1)) && does(s, m, s1, n)
            && keeps(m, n, s.tmp) && core_meaning::word_of(z) == Some(operand(n, t)),
{
    reveal(llvm_eval::ll_cast_s);
    lemma_names();
    lemma_zero_and_one(s.tmp, m);
    lemma_does_nothing(s, m);
    lemma_operand_of_an_atom(cx, a, s, m, vals, x);
    let v = llvm_eval::ll_word_s(cx, a, s)->Ok_0.0;
    memory::lemma_scalar(m.mem, m.top, operand(m, v), x);
    match to {
        TypeView::Bool => lemma_lines_of_a_comparison("ne"@, v, "0"@, s, m),
        TypeView::Int(t) => match t {
            IntTy::I8 => lemma_lines_of_narrowing(v, 8, true, s, m),
            IntTy::I16 => lemma_lines_of_narrowing(v, 16, true, s, m),
            IntTy::I32 => lemma_lines_of_narrowing(v, 32, true, s, m),
            IntTy::U8 => lemma_lines_of_narrowing(v, 8, false, s, m),
            IntTy::U16 => lemma_lines_of_narrowing(v, 16, false, s, m),
            IntTy::U32 => lemma_lines_of_narrowing(v, 32, false, s, m),
            _ => m,
        },
        _ => m,
    }
}

/// The lines that cut a word to fewer bits and widen it again.
proof fn lemma_lines_of_narrowing(v: Seq<char>, bits: u32, signed: bool, s: LlSt, m: Frame) -> (n: Frame)
    requires
        range_of(bits as nat) is Some,
        s.tmp + 2 <= u64::MAX,
    ensures
        ({
            let (t, s1) = llvm_text::narrow_s(v, bits, signed, s);
            let q = range_of(bits as nat)->0;
            let low = operand(m, v) % q;
            &&& does(s, m, s1, n)
            &&& keeps(m, n, s.tmp)
            &&& operand(n, t) == if signed && low >= q / 2 {
                low - q
            } else {
                low
            }
        }),
{
    let x = Ins::Trunc { dst: reg(s.tmp as nat), a: v, bits: bits as nat };
    let tx = " = trunc i64 "@ + v + " to i"@ + text::decimal(bits as nat);
    lemma_made(s, m, x, tx);
    let m1 = ins_effect(x, m)->0;
    let (t, s1) = llvm_text::made(tx, s);
    let (y, ty) = if signed {
        (
            Ins::Sext { dst: reg(s1.tmp as nat), a: t, bits: bits as nat },
            " = sext i"@ + text::decimal(bits as nat) + " "@ + t + " to i64"@,
        )
    } else {
        (
            Ins::Zext { dst: reg(s1.tmp as nat), a: t, bits: bits as nat },
            " = zext i"@ + text::decimal(bits as nat) + " "@ + t + " to i64"@,
        )
    };
    lemma_made(s1, m1, y, ty);
    let m2 = ins_effect(y, m1)->0;
    let s2 = llvm_text::made(ty, s1).1;
    lemma_does_then(s, m, s1, m1, s2, m2);
    lemma_keeps_then(m, m1, m2, s.tmp, s1.tmp);
    m2
}

/// A field of a struct or a variant: what is held stands for that field.
pub proof fn lemma_lines_of_a_field(
    cx: LlCxView,
    base: AtomView,
    idx: u32,
    s: LlSt,
    m: Frame,
    vals: Seq<Value>,
    ty: Seq<u8>,
    tag: u32,
    fields: Seq<Value>,
) -> (n: Frame)
    requires
        env_means(s.env, vals, m, s.tmp),
        s.tmp + 3 <= u64::MAX,
        base is Var,
        core_meaning::atom_value(base, vals, false) == Some(Value::Data { ty, tag, fields }),
        idx < fields.len(),
    ensures
        llvm_eval::ll_proj_s(cx, base, idx, s) matches Ok((x, s1)) && does(s, m, s1, n) && keeps(
            m,
            n,
            s.tmp,
        ) && item_means(x, fields[idx as int], n, s1.tmp),
{
    reveal(llvm_eval::ll_proj_s);
    lemma_does_nothing(s, m);
    let i = base->Var_0;
    let x = s.env[s.env.len() - 1 - i];
    assert(item_means(x, vals[vals.len() - 1 - i], m, s.tmp));
    match x {
        PieceView::Val(ptr) => {
            let at = text::decimal((idx + 1) as nat);
            lemma_number(idx + 1, s.tmp, m);
            assert(text::decimal_int(idx + 1) == at);
            let w = operand(m, ptr);
            assert(memory::stored(
                m.mem,
                m.top,
                m.mem[memory::word_at(w, idx + 1)],
                fields[idx as int],
            ));
            lemma_lines_of_a_load(ptr, at, s, m)
        },
        PieceView::Tuple { tag: t, fields: fs } => {
            assert(item_means(fs[idx as int], fields[idx as int], m, s.tmp));
            m
        },
        _ => m,
    }
}

} // verus!
