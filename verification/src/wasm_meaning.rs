//! What WebAssembly code does to the stack, the locals and the memory, and that the code of
//! an operation leaves the value that the operation has.
use vstd::arithmetic::power2::pow2;
use vstd::prelude::*;

use crate::core_meaning;
use crate::memory;
use crate::memory::Memory;
use crate::wasm_code::{Arith, Indexed, Inst, Plain, Region, Test, MEMORY, WORD_ALIGN};
use crate::wasm_seq;
use crate::wasm_seq::MINUS_ONE_32;
use crate::wasm_trans;
use crate::wasm_trans::TrSt;

verus! {

// ---- the machine ------------------------------------------------------------------------------------

/// The words on the stack.
pub enum Stack {
    Bare,
    On(int, Box<Stack>),
}

/// What a run holds: the stack, the locals, the memory with its size in pages and the
/// most pages that it may have, and the global that says where free memory begins.
pub struct Vm {
    pub stack: Stack,
    pub locals: Map<u32, int>,
    pub mem: Memory,
    pub pages: int,
    pub limit: int,
    pub heap: int,
}

/// How code ends.
pub enum End {
    Next(Vm),
    /// A jump to the block that stands so many blocks further out.
    Jump(u32, Vm),
    Return(Vm),
    Trap,
    /// The run needs more turns, or does what is not described here.
    Unknown,
}

pub open spec fn push(m: Vm, w: int) -> End {
    End::Next(pushed(m, w))
}

/// A machine with one more word on the stack.
pub open spec fn pushed(m: Vm, w: int) -> Vm {
    Vm { stack: Stack::On(w, Box::new(m.stack)), ..m }
}

pub open spec fn flag(b: bool) -> int {
    if b {
        1
    } else {
        0
    }
}

/// What arithmetic on 64-bit words gives, if it does not trap.
pub open spec fn arith_word(op: Arith, x: int, y: int) -> Option<int> {
    match op {
        Arith::Add => Some(core_meaning::wrap(x + y)),
        Arith::Sub => Some(core_meaning::wrap(x - y)),
        Arith::Mul => Some(core_meaning::wrap(x * y)),
        Arith::DivS => if core_meaning::divides(x, y) {
            Some(core_meaning::quotient(x, y))
        } else {
            None
        },
        Arith::DivU => if y != 0 {
            Some(core_meaning::wrap(core_meaning::unsigned(x) / core_meaning::unsigned(y)))
        } else {
            None
        },
        Arith::RemS => if y != 0 {
            Some(core_meaning::remainder(x, y))
        } else {
            None
        },
        Arith::And => Some(((x as i64) & (y as i64)) as int),
        Arith::Or => Some(((x as i64) | (y as i64)) as int),
        Arith::Xor => Some(((x as i64) ^ (y as i64)) as int),
        Arith::Shl => Some(core_meaning::wrap(x * pow2((y % 64) as nat) as int)),
        Arith::ShrS => Some(x / pow2((y % 64) as nat) as int),
        Arith::ShrU => Some(
            core_meaning::wrap(core_meaning::unsigned(x) / pow2((y % 64) as nat) as int),
        ),
    }
}

/// Whether a test of two 64-bit words holds.
pub open spec fn test_holds(op: Test, x: int, y: int) -> bool {
    match op {
        Test::Eq => x == y,
        Test::Ne => x != y,
        Test::LtS => x < y,
        Test::LtU => core_meaning::unsigned(x) < core_meaning::unsigned(y),
        Test::GtS => x > y,
        Test::GtU => core_meaning::unsigned(x) > core_meaning::unsigned(y),
        Test::LeS => x <= y,
        Test::GeS => x >= y,
        Test::GeU => core_meaning::unsigned(x) >= core_meaning::unsigned(y),
        Test::Eqz => y == 0,
    }
}

/// Whether a word of memory can be reached. Words that straddle others are left aside.
pub open spec fn reaches(m: Vm, a: int) -> bool {
    a % 8 == 0 && a + 8 <= m.pages * 65536
}

/// What an instruction does that begins no block and ends none.
#[verifier::opaque]
pub open spec fn step(x: Inst, m: Vm) -> End {
    match x {
        Inst::Indexed(i) => match i {
            Indexed::Const(n) => push(m, n as int),
            Indexed::Const32(n) => push(m, n as int % 0x1_0000_0000),
            Indexed::Get(l) => push(m, m.locals[l]),
            Indexed::MemorySize(_) => push(m, m.pages),
            Indexed::GlobalGet(g) => if g == 0 {
                push(m, m.heap)
            } else {
                End::Unknown
            },
            Indexed::Br(n) => End::Jump(n, m),
            Indexed::Call(_) => End::Unknown,
            _ => match m.stack {
                Stack::Bare => End::Unknown,
                Stack::On(w, rest) => match i {
                    Indexed::Put(l) => End::Next(
                        Vm { stack: *rest, locals: m.locals.insert(l, w), ..m },
                    ),
                    Indexed::Tee(l) => End::Next(Vm { locals: m.locals.insert(l, w), ..m }),
                    Indexed::GlobalSet(g) => if g == 0 {
                        End::Next(Vm { stack: *rest, heap: w, ..m })
                    } else {
                        End::Unknown
                    },
                    Indexed::BrIf(n) => if w != 0 {
                        End::Jump(n, Vm { stack: *rest, ..m })
                    } else {
                        End::Next(Vm { stack: *rest, ..m })
                    },
                    Indexed::MemoryGrow(_) => if m.pages + w <= m.limit {
                        push(Vm { stack: *rest, pages: m.pages + w, ..m }, m.pages)
                    } else {
                        push(Vm { stack: *rest, ..m }, 0xffff_ffff)
                    },
                    _ => End::Unknown,
                },
            },
        },
        Inst::Plain(Plain::Unreachable) => End::Trap,
        Inst::Plain(Plain::Return) => End::Return(m),
        _ => match m.stack {
            Stack::Bare => End::Unknown,
            Stack::On(y, rest) => match x {
                Inst::Plain(Plain::Wrap) => push(Vm { stack: *rest, ..m }, y % 0x1_0000_0000),
                Inst::Plain(Plain::Extend) => End::Next(m),
                Inst::Plain(Plain::Eqz32) => push(Vm { stack: *rest, ..m }, flag(y == 0)),
                Inst::Test(Test::Eqz) => push(Vm { stack: *rest, ..m }, flag(y == 0)),
                Inst::Region(Region::Load(at, _, _)) => if y + at + 8 > m.pages * 65536 {
                    End::Trap
                } else if reaches(m, y + at) {
                    push(Vm { stack: *rest, ..m }, m.mem[y + at])
                } else {
                    End::Unknown
                },
                _ => match *rest {
                    Stack::Bare => End::Unknown,
                    Stack::On(x1, rest1) => match x {
                        Inst::Arith(op) => match arith_word(op, x1, y) {
                            Some(w) => push(Vm { stack: *rest1, ..m }, w),
                            None => End::Trap,
                        },
                        Inst::Test(op) => push(Vm { stack: *rest1, ..m }, flag(test_holds(op, x1, y))),
                        Inst::Plain(Plain::Eq32) => push(Vm { stack: *rest1, ..m }, flag(x1 == y)),
                        Inst::Plain(Plain::Or32) => push(
                            Vm { stack: *rest1, ..m },
                            ((x1 as u32) | (y as u32)) as int,
                        ),
                        Inst::Region(Region::Store(at, _, _)) => if x1 + at + 8 > m.pages * 65536 {
                            End::Trap
                        } else if reaches(m, x1 + at) {
                            End::Next(Vm { stack: *rest1, mem: m.mem.insert(x1 + at, y), ..m })
                        } else {
                            End::Unknown
                        },
                        _ => End::Unknown,
                    },
                },
            },
        },
    }
}

/// What the instructions from one on do.
#[verifier::opaque]
pub open spec fn run_line(v: Seq<Inst>, i: nat, m: Vm) -> End
    decreases v.len() - i,
{
    if i >= v.len() {
        End::Next(m)
    } else {
        match step(v[i as int], m) {
            End::Next(n) => run_line(v, i + 1, n),
            other => other,
        }
    }
}

/// Code with its blocks.
pub enum Code {
    Line(Seq<Inst>),
    Then(Box<Code>, Box<Code>),
    Block(Box<Code>),
    Loop(Box<Code>),
    If(Box<Code>),
    /// A conditional with both of its arms.
    Either(Box<Code>, Box<Code>),
    /// As [`Code::Either`], where each arm leaves a word.
    EitherWord(Box<Code>, Box<Code>),
}

/// The instructions of code, one after the other.
pub open spec fn flat(c: Code) -> Seq<Inst>
    decreases c,
{
    let end = seq![Inst::Plain(Plain::End)];
    let other = seq![Inst::Plain(Plain::Else)];
    match c {
        Code::Line(v) => v,
        Code::Then(a, b) => flat(*a) + flat(*b),
        Code::Block(t) => seq![Inst::Region(Region::Block)] + flat(*t) + end,
        Code::Loop(t) => seq![Inst::Region(Region::Loop)] + flat(*t) + end,
        Code::If(t) => seq![Inst::Region(Region::If)] + flat(*t) + end,
        Code::Either(t, e) => seq![Inst::Region(Region::If)] + flat(*t) + other + flat(*e) + end,
        Code::EitherWord(t, e) => seq![Inst::Region(Region::IfWord)] + flat(*t) + other + flat(*e)
            + end,
    }
}

/// Whether an instruction begins a block or an arm, or ends one.
pub open spec fn is_mark(x: Inst) -> bool {
    match x {
        Inst::Region(Region::Block) | Inst::Region(Region::Loop) | Inst::Region(Region::If)
        | Inst::Region(Region::IfWord) | Inst::Plain(Plain::Else) | Inst::Plain(Plain::End) => true,
        _ => false,
    }
}

pub open spec fn unmarked(v: Seq<Inst>) -> bool {
    forall|i: int| 0 <= i < v.len() ==> !is_mark(#[trigger] v[i])
}

/// Whether the blocks of code are those that its instructions mark.
pub open spec fn proper(c: Code) -> bool
    decreases c,
{
    match c {
        Code::Line(v) => unmarked(v),
        Code::Then(a, b) => proper(*a) && proper(*b),
        Code::Block(t) => proper(*t),
        Code::Loop(t) => proper(*t),
        Code::If(t) => proper(*t),
        Code::Either(t, e) => proper(*t) && proper(*e),
        Code::EitherWord(t, e) => proper(*t) && proper(*e),
    }
}

/// How a block ends whose code ends so.
pub open spec fn leave(e: End, stack: Stack) -> End {
    match e {
        End::Jump(n, m) => if n == 0 {
            End::Next(Vm { stack, ..m })
        } else {
            End::Jump((n - 1) as u32, m)
        },
        other => other,
    }
}

/// How code ends, with so many turns for its loops.
pub open spec fn run(c: Code, m: Vm, turns: nat) -> End
    decreases turns, c,
{
    match c {
        Code::Line(v) => run_line(v, 0, m),
        Code::Then(a, b) => match run(*a, m, turns) {
            End::Next(n) => run(*b, n, turns),
            other => other,
        },
        Code::Block(t) => leave(run(*t, m, turns), m.stack),
        Code::Loop(t) => match run(*t, m, turns) {
            End::Jump(n, m1) => if n > 0 {
                End::Jump((n - 1) as u32, m1)
            } else if turns > 0 {
                run(c, Vm { stack: m.stack, ..m1 }, (turns - 1) as nat)
            } else {
                End::Unknown
            },
            other => other,
        },
        Code::If(t) => match m.stack {
            Stack::Bare => End::Unknown,
            Stack::On(w, rest) => if w != 0 {
                leave(run(*t, Vm { stack: *rest, ..m }, turns), *rest)
            } else {
                End::Next(Vm { stack: *rest, ..m })
            },
        },
        Code::Either(t, e) => match m.stack {
            Stack::Bare => End::Unknown,
            Stack::On(w, rest) => if w != 0 {
                leave(run(*t, Vm { stack: *rest, ..m }, turns), *rest)
            } else {
                leave(run(*e, Vm { stack: *rest, ..m }, turns), *rest)
            },
        },
        Code::EitherWord(t, e) => match m.stack {
            Stack::Bare => End::Unknown,
            Stack::On(w, rest) => {
                let o = if w != 0 {
                    run(*t, Vm { stack: *rest, ..m }, turns)
                } else {
                    run(*e, Vm { stack: *rest, ..m }, turns)
                };
                match o {
                    End::Jump(n, m1) => if n == 0 {
                        End::Unknown
                    } else {
                        End::Jump((n - 1) as u32, m1)
                    },
                    other => other,
                }
            },
        },
    }
}

/// Whether a body has grown by this code.
pub open spec fn reads(c: Code, from: Seq<Inst>, to: Seq<Inst>) -> bool {
    proper(c) && to == from + flat(c)
}

/// The code that a body has grown by takes a machine to another one.
pub open spec fn does(s: TrSt, m: Vm, t: TrSt, n: Vm, turns: nat) -> bool {
    exists|c: Code| #[trigger] reads(c, s.insts, t.insts) && run(c, m, turns) == End::Next(n)
}

/// Whether the free memory begins where it may.
pub open spec fn ok(m: Vm) -> bool {
    &&& 0 <= m.heap <= m.pages * 65536
    &&& m.heap % 8 == 0
    &&& m.pages <= m.limit <= 65536
}

/// What was there before is there still: the locals before one, and the memory that was
/// in use.
pub open spec fn keeps(m: Vm, n: Vm, k: u32) -> bool {
    &&& ok(n)
    &&& m.heap <= n.heap
    &&& m.pages <= n.pages
    &&& n.limit == m.limit
    &&& forall|i: u32| i < k ==> #[trigger] n.locals[i] == m.locals[i]
    &&& forall|a: int| a < m.heap ==> #[trigger] n.mem[a] == m.mem[a]
}

/// Code that computes on the stack alone leaves everything else alone.
pub open spec fn same_but_stack(m: Vm, n: Vm) -> bool {
    n == Vm { stack: n.stack, ..m }
}

/// Instructions that have run to their end begin and end no block.
pub proof fn lemma_unmarked(v: Seq<Inst>, i: nat, m: Vm)
    requires
        run_line(v, i, m) is Next,
    ensures
        forall|j: int| i <= j < v.len() ==> !is_mark(#[trigger] v[j]),
    decreases v.len() - i,
{
    reveal(step);
    reveal_with_fuel(run_line, 2);
    if i < v.len() {
        match step(v[i as int], m) {
            End::Next(n) => lemma_unmarked(v, i + 1, n),
            _ => {},
        }
    }
}

pub proof fn lemma_line(s: TrSt, m: Vm, code: Seq<Inst>, n: Vm, turns: nat)
    requires
        run_line(code, 0, m) == End::Next(n),
    ensures
        does(s, m, wasm_trans::em(s, code), n, turns),
{
    lemma_unmarked(code, 0, m);
    assert(reads(Code::Line(code), s.insts, wasm_trans::em(s, code).insts));
}

pub proof fn lemma_code(s: TrSt, m: Vm, c: Code, code: Seq<Inst>, n: Vm, turns: nat)
    requires
        flat(c) == code,
        proper(c),
        run(c, m, turns) == End::Next(n),
    ensures
        does(s, m, wasm_trans::em(s, code), n, turns),
{
    assert(reads(c, s.insts, wasm_trans::em(s, code).insts));
}

pub proof fn lemma_does_nothing(s: TrSt, m: Vm, turns: nat)
    ensures
        does(s, m, s, m, turns),
        ok(m) ==> keeps(m, m, s.next),
{
    let c = Code::Line(Seq::empty());
    do_end(Seq::empty(), 0, m);
    assert(proper(c));
    assert(s.insts =~= s.insts + flat(c));
    assert(reads(c, s.insts, s.insts));
}

pub proof fn lemma_does_then(s: TrSt, m: Vm, t: TrSt, n: Vm, u: TrSt, o: Vm, turns: nat)
    requires
        does(s, m, t, n, turns),
        does(t, n, u, o, turns),
    ensures
        does(s, m, u, o, turns),
{
    let a = choose|c: Code| #[trigger]
        reads(c, s.insts, t.insts) && run(c, m, turns) == End::Next(n);
    let b = choose|c: Code| #[trigger]
        reads(c, t.insts, u.insts) && run(c, n, turns) == End::Next(o);
    let c = Code::Then(Box::new(a), Box::new(b));
    assert(u.insts =~= s.insts + flat(c));
    assert(reads(c, s.insts, u.insts));
}

/// As [`does`], with what is kept.
pub open spec fn goes(s: TrSt, m: Vm, t: TrSt, n: Vm, turns: nat) -> bool {
    &&& does(s, m, t, n, turns)
    &&& keeps(m, n, s.next)
    &&& s.next <= t.next
}

pub proof fn lemma_goes_then(s: TrSt, m: Vm, t: TrSt, n: Vm, u: TrSt, o: Vm, turns: nat)
    requires
        goes(s, m, t, n, turns),
        goes(t, n, u, o, turns),
    ensures
        goes(s, m, u, o, turns),
{
    lemma_does_then(s, m, t, n, u, o, turns);
}

// ---- single instructions ----------------------------------------------------------------------------

pub proof fn do_const(v: Seq<Inst>, i: nat, n: i64, m: Vm)
    requires
        i < v.len(),
        v[i as int] == Inst::Indexed(Indexed::Const(n)),
    ensures
        run_line(v, i, m) == run_line(v, i + 1, pushed(m, n as int)),
{
    reveal(step);
    reveal_with_fuel(run_line, 2);
}

pub proof fn do_const32(v: Seq<Inst>, i: nat, n: i32, m: Vm)
    requires
        i < v.len(),
        v[i as int] == Inst::Indexed(Indexed::Const32(n)),
    ensures
        run_line(v, i, m) == run_line(v, i + 1, pushed(m, n as int % 0x1_0000_0000)),
{
    reveal(step);
    reveal_with_fuel(run_line, 2);
}

pub proof fn do_get(v: Seq<Inst>, i: nat, l: u32, m: Vm)
    requires
        i < v.len(),
        v[i as int] == Inst::Indexed(Indexed::Get(l)),
    ensures
        run_line(v, i, m) == run_line(v, i + 1, pushed(m, m.locals[l])),
{
    reveal(step);
    reveal_with_fuel(run_line, 2);
}

pub proof fn do_put(v: Seq<Inst>, i: nat, l: u32, w: int, m: Vm)
    requires
        i < v.len(),
        v[i as int] == Inst::Indexed(Indexed::Put(l)),
    ensures
        run_line(v, i, pushed(m, w)) == run_line(v, i + 1, Vm { locals: m.locals.insert(l, w), ..m }),
{
    reveal(step);
    reveal_with_fuel(run_line, 2);
}

pub proof fn do_tee(v: Seq<Inst>, i: nat, l: u32, w: int, m: Vm)
    requires
        i < v.len(),
        v[i as int] == Inst::Indexed(Indexed::Tee(l)),
    ensures
        run_line(v, i, pushed(m, w)) == run_line(v, i + 1, pushed(Vm { locals: m.locals.insert(l, w), ..m }, w)),
{
    reveal(step);
    reveal_with_fuel(run_line, 2);
}

pub proof fn do_arith(v: Seq<Inst>, i: nat, op: Arith, x: int, y: int, w: int, m: Vm)
    requires
        i < v.len(),
        v[i as int] == Inst::Arith(op),
        arith_word(op, x, y) == Some(w),
    ensures
        run_line(v, i, pushed(pushed(m, x), y)) == run_line(v, i + 1, pushed(m, w)),
{
    reveal(step);
    reveal_with_fuel(run_line, 2);
}

pub proof fn do_test(v: Seq<Inst>, i: nat, op: Test, x: int, y: int, m: Vm)
    requires
        i < v.len(),
        v[i as int] == Inst::Test(op),
        op != Test::Eqz,
    ensures
        run_line(v, i, pushed(pushed(m, x), y)) == run_line(v, i + 1, pushed(m, flag(test_holds(op, x, y)))),
{
    reveal(step);
    reveal_with_fuel(run_line, 2);
}

pub proof fn do_wrap(v: Seq<Inst>, i: nat, y: int, m: Vm)
    requires
        i < v.len(),
        v[i as int] == Inst::Plain(Plain::Wrap),
        0 <= y < 0x1_0000_0000,
    ensures
        run_line(v, i, pushed(m, y)) == run_line(v, i + 1, pushed(m, y)),
{
    reveal(step);
    reveal_with_fuel(run_line, 2);
}

pub proof fn do_extend(v: Seq<Inst>, i: nat, y: int, m: Vm)
    requires
        i < v.len(),
        v[i as int] == Inst::Plain(Plain::Extend),
    ensures
        run_line(v, i, pushed(m, y)) == run_line(v, i + 1, pushed(m, y)),
{
    reveal(step);
    reveal_with_fuel(run_line, 2);
}

pub proof fn do_eqz32(v: Seq<Inst>, i: nat, y: int, m: Vm)
    requires
        i < v.len(),
        v[i as int] == Inst::Plain(Plain::Eqz32),
    ensures
        run_line(v, i, pushed(m, y)) == run_line(v, i + 1, pushed(m, flag(y == 0))),
{
    reveal(step);
    reveal_with_fuel(run_line, 2);
}

pub proof fn do_eq32(v: Seq<Inst>, i: nat, x: int, y: int, m: Vm)
    requires
        i < v.len(),
        v[i as int] == Inst::Plain(Plain::Eq32),
    ensures
        run_line(v, i, pushed(pushed(m, x), y)) == run_line(v, i + 1, pushed(m, flag(x == y))),
{
    reveal(step);
    reveal_with_fuel(run_line, 2);
}

pub proof fn do_load(v: Seq<Inst>, i: nat, at: u64, a: u32, b: u32, y: int, m: Vm)
    requires
        i < v.len(),
        v[i as int] == Inst::Region(Region::Load(at, a, b)),
        reaches(m, y + at),
    ensures
        run_line(v, i, pushed(m, y)) == run_line(v, i + 1, pushed(m, m.mem[y + at])),
{
    reveal(step);
    reveal_with_fuel(run_line, 2);
}

pub proof fn do_store(v: Seq<Inst>, i: nat, at: u64, a: u32, b: u32, x: int, y: int, m: Vm)
    requires
        i < v.len(),
        v[i as int] == Inst::Region(Region::Store(at, a, b)),
        reaches(m, x + at),
    ensures
        run_line(v, i, pushed(pushed(m, x), y)) == run_line(v, i + 1, Vm { mem: m.mem.insert(x + at, y), ..m }),
{
    reveal(step);
    reveal_with_fuel(run_line, 2);
}

pub proof fn do_heap(v: Seq<Inst>, i: nat, m: Vm)
    requires
        i < v.len(),
        v[i as int] == Inst::Indexed(Indexed::GlobalGet(0)),
    ensures
        run_line(v, i, m) == run_line(v, i + 1, pushed(m, m.heap)),
{
    reveal(step);
    reveal_with_fuel(run_line, 2);
}

pub proof fn do_set_heap(v: Seq<Inst>, i: nat, w: int, m: Vm)
    requires
        i < v.len(),
        v[i as int] == Inst::Indexed(Indexed::GlobalSet(0)),
    ensures
        run_line(v, i, pushed(m, w)) == run_line(v, i + 1, Vm { heap: w, ..m }),
{
    reveal(step);
    reveal_with_fuel(run_line, 2);
}

pub proof fn do_size(v: Seq<Inst>, i: nat, m: Vm)
    requires
        i < v.len(),
        v[i as int] == Inst::Indexed(Indexed::MemorySize(0)),
    ensures
        run_line(v, i, m) == run_line(v, i + 1, pushed(m, m.pages)),
{
    reveal(step);
    reveal_with_fuel(run_line, 2);
}

pub proof fn do_grow(v: Seq<Inst>, i: nat, w: int, m: Vm)
    requires
        i < v.len(),
        v[i as int] == Inst::Indexed(Indexed::MemoryGrow(0)),
        m.pages + w <= m.limit,
    ensures
        run_line(v, i, pushed(m, w)) == run_line(v, i + 1, pushed(Vm { pages: m.pages + w, ..m }, m.pages)),
{
    reveal(step);
    reveal_with_fuel(run_line, 2);
}

pub proof fn do_stay(v: Seq<Inst>, i: nat, n: u32, m: Vm)
    requires
        i < v.len(),
        v[i as int] == Inst::Indexed(Indexed::BrIf(n)),
    ensures
        run_line(v, i, pushed(m, 0)) == run_line(v, i + 1, m),
{
    reveal(step);
    reveal_with_fuel(run_line, 2);
}

pub proof fn do_leave(v: Seq<Inst>, i: nat, n: u32, m: Vm)
    requires
        i < v.len(),
        v[i as int] == Inst::Indexed(Indexed::BrIf(n)),
    ensures
        run_line(v, i, pushed(m, 1)) == End::Jump(n, m),
{
    reveal(step);
    reveal_with_fuel(run_line, 2);
}

pub proof fn do_jump(v: Seq<Inst>, i: nat, n: u32, m: Vm)
    requires
        i < v.len(),
        v[i as int] == Inst::Indexed(Indexed::Br(n)),
    ensures
        run_line(v, i, m) == End::Jump(n, m),
{
    reveal(step);
    reveal_with_fuel(run_line, 2);
}

pub proof fn do_or_of_none(v: Seq<Inst>, i: nat, m: Vm)
    requires
        i < v.len(),
        v[i as int] == Inst::Plain(Plain::Or32),
    ensures
        run_line(v, i, pushed(pushed(m, 0), 0)) == run_line(v, i + 1, pushed(m, 0)),
{
    reveal(step);
    reveal_with_fuel(run_line, 2);
    assert(0u32 | 0u32 == 0u32) by (bit_vector);
}

pub proof fn do_end(v: Seq<Inst>, i: nat, m: Vm)
    requires
        i == v.len(),
    ensures
        run_line(v, i, m) == End::Next(m),
{
    reveal(run_line);
}

pub proof fn lemma_by_eight(x: int)
    ensures
        arith_word(Arith::Mul, x, 8) == Some(core_meaning::wrap(8 * x)),
{
    assert(x * 8 == 8 * x) by (nonlinear_arith);
}

proof fn lemma_by_a_page(x: int)
    ensures
        arith_word(Arith::Mul, x, 65536) == Some(core_meaning::wrap(65536 * x)),
{
    assert(x * 65536 == 65536 * x) by (nonlinear_arith);
}

// ---- pieces of code ---------------------------------------------------------------------------------

/// The code that loads a word of a block into a local.
pub proof fn lemma_load_word(base: u32, at: u64, s: TrSt, m: Vm, turns: nat) -> (n: Vm)
    requires
        ok(m),
        s.next < u32::MAX,
        0 <= m.locals[base],
        reaches(m, m.locals[base] + at),
    ensures
        ({
            let (r, s1) = wasm_trans::load_word_s(base, at, s);
            &&& goes(s, m, s1, n, turns)
            &&& r == s.next
            &&& s1.next == s.next + 1
            &&& s1.env == s.env
            &&& n == Vm { locals: m.locals.insert(r, m.mem[m.locals[base] + at]), ..m }
        }),
{
    let (r, s1) = wasm_trans::fresh(s);
    reveal(wasm_seq::load_put_code);
    let code = wasm_seq::load_put_code(base, at, r);
    let n = Vm { locals: m.locals.insert(r, m.mem[m.locals[base] + at]), ..m };
    let b = m.locals[base];
    do_get(code, 0, base, m);
    do_wrap(code, 1, b, m);
    do_load(code, 2, at, WORD_ALIGN, MEMORY, b, m);
    do_put(code, 3, r, m.mem[b + at], m);
    do_end(code, 4, n);
    lemma_line(s1, m, code, n, turns);
    assert(does(s, m, wasm_trans::em(s1, code), n, turns));
    n
}

/// The code that puts a constant into a local.
pub proof fn lemma_const_local(c: i64, s: TrSt, m: Vm, turns: nat) -> (n: Vm)
    requires
        ok(m),
        s.next < u32::MAX,
    ensures
        ({
            let (r, s1) = wasm_trans::const_local_s(c, s);
            &&& goes(s, m, s1, n, turns)
            &&& r == s.next
            &&& s1.next == s.next + 1
            &&& s1.env == s.env
            &&& n == Vm { locals: m.locals.insert(r, c as int), ..m }
        }),
{
    let (r, s1) = wasm_trans::fresh(s);
    reveal(wasm_seq::const_put_code);
    let code = wasm_seq::const_put_code(c, r);
    let n = Vm { locals: m.locals.insert(r, c as int), ..m };
    do_const(code, 0, c, m);
    do_put(code, 1, r, c as int, m);
    do_end(code, 2, n);
    lemma_line(s1, m, code, n, turns);
    assert(does(s, m, wasm_trans::em(s1, code), n, turns));
    n
}

/// The code that adds a constant to a local.
pub proof fn lemma_plus(x: u32, c: i64, s: TrSt, m: Vm, turns: nat) -> (n: Vm)
    requires
        ok(m),
        s.next < u32::MAX,
        core_meaning::is_word(m.locals[x] + c),
    ensures
        ({
            let (r, s1) = wasm_trans::plus_s(x, c, s);
            &&& goes(s, m, s1, n, turns)
            &&& r == s.next
            &&& s1.next == s.next + 1
            &&& s1.env == s.env
            &&& n == Vm { locals: m.locals.insert(r, m.locals[x] + c), ..m }
        }),
{
    let (r, s1) = wasm_trans::fresh(s);
    reveal(wasm_seq::plus_code);
    let code = wasm_seq::plus_code(x, c, r);
    let n = Vm { locals: m.locals.insert(r, m.locals[x] + c), ..m };
    do_get(code, 0, x, m);
    do_const(code, 1, c, pushed(m, m.locals[x]));
    do_arith(code, 2, Arith::Add, m.locals[x], c as int, m.locals[x] + c, m);
    do_put(code, 3, r, m.locals[x] + c, m);
    do_end(code, 4, n);
    lemma_line(s1, m, code, n, turns);
    assert(does(s, m, wasm_trans::em(s1, code), n, turns));
    n
}

/// The code that adds two locals.
pub proof fn lemma_sum(x: u32, y: u32, r: u32, m: Vm)
    requires
        core_meaning::is_word(m.locals[x] + m.locals[y]),
    ensures
        run_line(wasm_seq::sum_code(x, y, r), 0, m) == End::Next(
            Vm { locals: m.locals.insert(r, m.locals[x] + m.locals[y]), ..m },
        ),
{
    reveal(wasm_seq::sum_code);
    let code = wasm_seq::sum_code(x, y, r);
    let w = m.locals[x] + m.locals[y];
    do_get(code, 0, x, m);
    do_get(code, 1, y, pushed(m, m.locals[x]));
    do_arith(code, 2, Arith::Add, m.locals[x], m.locals[y], w, m);
    do_put(code, 3, r, w, m);
    do_end(code, 4, Vm { locals: m.locals.insert(r, w), ..m });
}

/// The code that takes a local from another one.
pub proof fn lemma_difference(x: u32, y: u32, r: u32, m: Vm)
    requires
        core_meaning::is_word(m.locals[x] - m.locals[y]),
    ensures
        run_line(wasm_seq::diff_code(x, y, r), 0, m) == End::Next(
            Vm { locals: m.locals.insert(r, m.locals[x] - m.locals[y]), ..m },
        ),
{
    reveal(wasm_seq::diff_code);
    let code = wasm_seq::diff_code(x, y, r);
    let w = m.locals[x] - m.locals[y];
    do_get(code, 0, x, m);
    do_get(code, 1, y, pushed(m, m.locals[x]));
    do_arith(code, 2, Arith::Sub, m.locals[x], m.locals[y], w, m);
    do_put(code, 3, r, w, m);
    do_end(code, 4, Vm { locals: m.locals.insert(r, w), ..m });
}

/// The code that stores a local into a block.
pub proof fn lemma_store_local(base: u32, at: u64, x: u32, m: Vm)
    requires
        0 <= m.locals[base],
        m.locals[base] < 0x1_0000_0000,
        reaches(m, m.locals[base] + at),
    ensures
        run_line(wasm_seq::store_local_code(base, at, x), 0, m) == End::Next(
            Vm { mem: m.mem.insert(m.locals[base] + at, m.locals[x]), ..m },
        ),
{
    reveal(wasm_seq::store_local_code);
    let code = wasm_seq::store_local_code(base, at, x);
    let b = m.locals[base];
    do_get(code, 0, base, m);
    do_wrap(code, 1, b, m);
    do_get(code, 2, x, pushed(m, b));
    do_store(code, 3, at, WORD_ALIGN, MEMORY, b, m.locals[x], m);
    do_end(code, 4, Vm { mem: m.mem.insert(b + at, m.locals[x]), ..m });
}

// ---- allocation -------------------------------------------------------------------------------------

proof fn lemma_heap_test(end: u32, pages: u32, bytes: u32, needed: u32, m: Vm) -> (n: Vm)
    requires
        end < pages < bytes < needed,
        0 <= m.pages <= 65536,
        0 <= m.locals[end] <= 0x1_0000_0000,
    ensures
        run_line(wasm_seq::heap_code(end, pages, bytes, needed).subrange(0, 10), 0, m) == End::Next(
            pushed(n, flag(m.locals[end] > m.pages * 65536)),
        ),
        (n == Vm { locals: m.locals.insert(pages, m.pages).insert(bytes, m.pages * 65536), ..m }),
{
    reveal(wasm_seq::heap_code);
    let v = wasm_seq::heap_code(end, pages, bytes, needed).subrange(0, 10);
    let p = m.pages;
    let e = m.locals[end];
    let m1 = Vm { locals: m.locals.insert(pages, p), ..m };
    let m2 = Vm { locals: m1.locals.insert(bytes, p * 65536), ..m };
    lemma_by_a_page(p);
    do_size(v, 0, m);
    do_extend(v, 1, p, m);
    do_put(v, 2, pages, p, m);
    do_get(v, 3, pages, m1);
    do_const(v, 4, 65536, pushed(m1, p));
    do_arith(v, 5, Arith::Mul, p, 65536, p * 65536, m1);
    do_put(v, 6, bytes, p * 65536, m1);
    do_get(v, 7, end, m2);
    do_get(v, 8, bytes, pushed(m2, e));
    do_test(v, 9, Test::GtU, e, p * 65536, m2);
    do_end(v, 10, pushed(m2, flag(e > p * 65536)));
    m2
}

proof fn lemma_heap_grow(end: u32, pages: u32, bytes: u32, needed: u32, m: Vm) -> (n: Vm)
    requires
        end < pages < bytes < needed,
        m.locals[pages] == m.pages,
        0 <= m.pages <= m.limit <= 65536,
        m.pages * 65536 < m.locals[end] <= m.limit * 65536,
    ensures
        run_line(wasm_seq::heap_code(end, pages, bytes, needed).subrange(11, 24), 0, m)
            == End::Next(pushed(n, 0)),
        (n == Vm {
            locals: m.locals.insert(needed, (m.locals[end] + 65535) / 65536),
            pages: (m.locals[end] + 65535) / 65536,
            ..m
        }),
{
    reveal(wasm_seq::heap_code);
    let v = wasm_seq::heap_code(end, pages, bytes, needed).subrange(11, 24);
    let p = m.pages;
    let e = m.locals[end];
    let need = (e + 65535) / 65536;
    let m1 = Vm { locals: m.locals.insert(needed, need), ..m };
    let n = Vm { pages: need, ..m1 };
    do_get(v, 0, end, m);
    do_const(v, 1, 65535, pushed(m, e));
    do_arith(v, 2, Arith::Add, e, 65535, e + 65535, m);
    do_const(v, 3, 65536, pushed(m, e + 65535));
    do_arith(v, 4, Arith::DivU, e + 65535, 65536, need, m);
    do_put(v, 5, needed, need, m);
    do_get(v, 6, needed, m1);
    do_get(v, 7, pages, pushed(m1, need));
    do_arith(v, 8, Arith::Sub, need, p, need - p, m1);
    do_wrap(v, 9, need - p, m1);
    do_grow(v, 10, need - p, m1);
    do_const32(v, 11, MINUS_ONE_32, pushed(n, p));
    do_eq32(v, 12, p, 0xffff_ffff, n);
    do_end(v, 13, pushed(n, 0));
    n
}

proof fn lemma_heap_grow_unmarked(end: u32, pages: u32, bytes: u32, needed: u32)
    ensures
        unmarked(wasm_seq::heap_code(end, pages, bytes, needed).subrange(11, 24)),
{
    reveal(wasm_seq::heap_code);
    let v = wasm_seq::heap_code(end, pages, bytes, needed).subrange(11, 24);
    assert(v.len() == 13);
    assert(!is_mark(v[0]) && !is_mark(v[1]) && !is_mark(v[2]) && !is_mark(v[3]) && !is_mark(v[4]));
    assert(!is_mark(v[5]) && !is_mark(v[6]) && !is_mark(v[7]) && !is_mark(v[8]) && !is_mark(v[9]));
    assert(!is_mark(v[10]) && !is_mark(v[11]) && !is_mark(v[12]));
}

/// The code that lets memory grow until a block ends in it.
#[verifier::rlimit(80)]
pub proof fn lemma_heap(end: u32, s: TrSt, m: Vm, turns: nat) -> (n: Vm)
    requires
        s.next + 3 <= u32::MAX,
        end < s.next,
        0 <= m.pages <= m.limit <= 65536,
        0 <= m.locals[end] <= m.limit * 65536,
    ensures
        ({
            let s1 = wasm_trans::heap_s(end, s);
            &&& does(s, m, s1, n, turns)
            &&& s1.next == s.next + 3
            &&& s1.env == s.env
            &&& n == Vm { pages: n.pages, locals: n.locals, ..m }
            &&& m.pages <= n.pages <= m.limit
            &&& m.locals[end] <= n.pages * 65536
            &&& forall|i: u32| i < s.next ==> #[trigger] n.locals[i] == m.locals[i]
        }),
{
    let (pages, s1) = wasm_trans::fresh(s);
    let (bytes, s2) = wasm_trans::fresh(s1);
    let (needed, s3) = wasm_trans::fresh(s2);
    reveal(wasm_seq::heap_code);
    let code = wasm_seq::heap_code(end, pages, bytes, needed);
    let test = code.subrange(0, 10);
    let grow = code.subrange(11, 24);
    let fail = code.subrange(25, 26);
    let inner = Code::Then(
        Box::new(Code::Line(grow)),
        Box::new(Code::If(Box::new(Code::Line(fail)))),
    );
    let c = Code::Then(Box::new(Code::Line(test)), Box::new(Code::If(Box::new(inner))));
    assert(flat(c) == code) by {
        reveal_with_fuel(flat, 5);
        assert(code.len() == 28);
        assert(code[10] == Inst::Region(Region::If));
        assert(code[24] == Inst::Region(Region::If));
        assert(code[26] == Inst::Plain(Plain::End));
        assert(code[27] == Inst::Plain(Plain::End));
        assert(flat(c) =~= code);
    }
    let e = m.locals[end];
    let grown = e > m.pages * 65536;
    let m2 = lemma_heap_test(end, pages, bytes, needed, m);
    reveal_with_fuel(run, 4);
    let n = if grown {
        let n = lemma_heap_grow(end, pages, bytes, needed, m2);
        assert(run(inner, m2, turns) == End::Next(n));
        n
    } else {
        m2
    };
    assert(run(c, m, turns) == End::Next(n));
    assert(proper(c)) by {
        reveal_with_fuel(proper, 5);
        lemma_unmarked(test, 0, m);
        lemma_heap_grow_unmarked(end, pages, bytes, needed);
        assert(code[25] == Inst::Plain(Plain::Unreachable));
    }
    lemma_code(s3, m, c, code, n, turns);
    assert(does(s, m, wasm_trans::em(s3, code), n, turns));
    n
}

/// The code that takes so many words of free memory.
pub proof fn lemma_bump_dyn(words: u32, s: TrSt, m: Vm, turns: nat) -> (n: Vm)
    requires
        ok(m),
        s.next + 5 <= u32::MAX,
        words < s.next,
        0 <= m.locals[words],
        m.heap + 8 * m.locals[words] <= m.limit * 65536,
    ensures
        ({
            let (base, s1) = wasm_trans::bump_dyn_s(words, s);
            &&& goes(s, m, s1, n, turns)
            &&& base == s.next
            &&& s1.next == s.next + 5
            &&& s1.env == s.env
            &&& n.stack == m.stack
            &&& n.mem == m.mem
            &&& n.locals[base] == m.heap
            &&& n.heap == m.heap + 8 * m.locals[words]
        }),
{
    let (base, s1) = wasm_trans::fresh(s);
    let (end, s2) = wasm_trans::fresh(s1);
    reveal(wasm_seq::bump_dyn_code);
    let code = wasm_seq::bump_dyn_code(words, base, end);
    let top = m.heap + 8 * m.locals[words];
    let m1 = Vm { locals: m.locals.insert(base, m.heap).insert(end, top), ..m };
    let w = m.locals[words];
    let mb = Vm { locals: m.locals.insert(base, m.heap), ..m };
    lemma_by_eight(w);
    do_heap(code, 0, m);
    do_tee(code, 1, base, m.heap, m);
    do_get(code, 2, words, pushed(mb, m.heap));
    do_const(code, 3, 8, pushed(pushed(mb, m.heap), w));
    do_arith(code, 4, Arith::Mul, w, 8, 8 * w, pushed(mb, m.heap));
    do_arith(code, 5, Arith::Add, m.heap, 8 * w, top, mb);
    do_put(code, 6, end, top, mb);
    do_end(code, 7, m1);
    lemma_line(s2, m, code, m1, turns);
    let s3 = wasm_trans::em(s2, code);
    let m2 = lemma_heap(end, s3, m1, turns);
    let s4 = wasm_trans::heap_s(end, s3);
    reveal(wasm_seq::commit_code);
    let last = wasm_seq::commit_code(end);
    let n = Vm { heap: top, ..m2 };
    do_get(last, 0, end, m2);
    do_set_heap(last, 1, top, m2);
    do_end(last, 2, n);
    lemma_line(s4, m2, last, n, turns);
    assert(does(s, m, s3, m1, turns));
    lemma_does_then(s, m, s3, m1, s4, m2, turns);
    lemma_does_then(s, m, s4, m2, wasm_trans::em(s4, last), n, turns);
    n
}

// ---- copies -----------------------------------------------------------------------------------------

/// Memory after words from `j` to `count` of one place have been copied to another.
pub open spec fn copied(mem: Memory, from: int, to: int, j: int, count: int) -> Memory
    decreases count - j,
{
    if j >= count {
        mem
    } else {
        copied(mem.insert(to + 8 * j, mem[from + 8 * j]), from, to, j + 1, count)
    }
}

/// A copy to a place above what is copied has its words there, and changes nothing else.
pub proof fn lemma_copied(mem: Memory, from: int, to: int, j: int, count: int)
    requires
        from + 8 * count <= to + 8 * j,
        0 <= j <= count,
    ensures
        forall|i: int|
            j <= i < count ==> copied(mem, from, to, j, count)[#[trigger] memory::word_at(to, i)]
                == mem[memory::word_at(from, i)],
        forall|a: int|
            a < to + 8 * j || a >= to + 8 * count ==> #[trigger] copied(mem, from, to, j, count)[a]
                == mem[a],
    decreases count - j,
{
    if j < count {
        let next = mem.insert(to + 8 * j, mem[from + 8 * j]);
        lemma_copied(next, from, to, j + 1, count);
        let c = copied(mem, from, to, j, count);
        assert(c == copied(next, from, to, j + 1, count));
        assert forall|i: int| j <= i < count implies c[#[trigger] memory::word_at(to, i)]
            == mem[memory::word_at(from, i)] by {
            if i == j {
                assert(c[to + 8 * j] == next[to + 8 * j]);
            } else {
                assert(c[memory::word_at(to, i)] == next[memory::word_at(from, i)]);
            }
        }
        assert forall|a: int| a < to + 8 * j || a >= to + 8 * count implies #[trigger] c[a] == mem[a] by {
            assert(c[a] == next[a]);
        }
    }
}

/// What a copy needs: places that can be reached, with the words that are counted.
pub open spec fn can_copy(m: Vm, from: int, to: int, count: int) -> bool {
    &&& 0 <= from
    &&& 0 <= to
    &&& from % 8 == 0
    &&& to % 8 == 0
    &&& 0 <= count
    &&& from + 8 * count <= m.pages * 65536
    &&& to + 8 * count <= m.pages * 65536
    &&& 0 <= m.pages <= 65536
}

/// The loop that copies words ends where all of them are copied.
proof fn lemma_copy_range_last(
    src: u32,
    from: u32,
    dst: u32,
    to: u32,
    count: u32,
    k: u32,
    m: Vm,
)
    requires
        0 <= m.locals[k] == m.locals[count],
    ensures
        run_line(wasm_seq::copy_range_code(src, from, dst, to, count, k).subrange(4, 32), 0, m)
            == End::Jump(1, m),
{
    reveal(wasm_seq::copy_range_code);
    let v = wasm_seq::copy_range_code(src, from, dst, to, count, k).subrange(4, 32);
    let j = m.locals[k];
    do_get(v, 0, k, m);
    do_get(v, 1, count, pushed(m, j));
    do_test(v, 2, Test::LtU, j, j, m);
    do_eqz32(v, 3, 0, m);
    do_leave(v, 4, 1, m);
}

/// A turn of the loop that copies words copies one of them.
#[verifier::rlimit(60)]
proof fn lemma_copy_range_turn(
    src: u32,
    from: u32,
    dst: u32,
    to: u32,
    count: u32,
    k: u32,
    m: Vm,
) -> (n: Vm)
    requires
        src != k,
        from != k,
        dst != k,
        to != k,
        count != k,
        0 <= m.locals[k] < m.locals[count],
        0 <= m.locals[src],
        0 <= m.locals[dst],
        0 <= m.locals[from],
        0 <= m.locals[to],
        can_copy(
            m,
            m.locals[src] + 8 * m.locals[from],
            m.locals[dst] + 8 * m.locals[to],
            m.locals[count],
        ),
    ensures
        run_line(wasm_seq::copy_range_code(src, from, dst, to, count, k).subrange(4, 32), 0, m)
            == End::Jump(0, n),
        (n == Vm {
            locals: m.locals.insert(k, m.locals[k] + 1),
            mem: m.mem.insert(
                m.locals[dst] + 8 * m.locals[to] + 8 * m.locals[k],
                m.mem[m.locals[src] + 8 * m.locals[from] + 8 * m.locals[k]],
            ),
            ..m
        }),
{
    reveal(wasm_seq::copy_range_code);
    let v = wasm_seq::copy_range_code(src, from, dst, to, count, k).subrange(4, 32);
    let j = m.locals[k];
    let a = m.locals[src];
    let b = m.locals[dst];
    let f = m.locals[from];
    let t = m.locals[to];
    let here = b + 8 * (t + j);
    let there = a + 8 * (f + j);
    let word = m.mem[there];
    lemma_by_eight(t + j);
    lemma_by_eight(f + j);
    do_get(v, 0, k, m);
    do_get(v, 1, count, pushed(m, j));
    do_test(v, 2, Test::LtU, j, m.locals[count], m);
    do_eqz32(v, 3, 1, m);
    do_stay(v, 4, 1, m);
    do_get(v, 5, dst, m);
    let mb = pushed(m, b);
    do_get(v, 6, to, mb);
    do_get(v, 7, k, pushed(mb, t));
    do_arith(v, 8, Arith::Add, t, j, t + j, mb);
    do_const(v, 9, 8, pushed(mb, t + j));
    do_arith(v, 10, Arith::Mul, t + j, 8, 8 * (t + j), mb);
    do_arith(v, 11, Arith::Add, b, 8 * (t + j), here, m);
    do_wrap(v, 12, here, m);
    let mh = pushed(m, here);
    do_get(v, 13, src, mh);
    let ma = pushed(mh, a);
    do_get(v, 14, from, ma);
    do_get(v, 15, k, pushed(ma, f));
    do_arith(v, 16, Arith::Add, f, j, f + j, ma);
    do_const(v, 17, 8, pushed(ma, f + j));
    do_arith(v, 18, Arith::Mul, f + j, 8, 8 * (f + j), ma);
    do_arith(v, 19, Arith::Add, a, 8 * (f + j), there, mh);
    do_wrap(v, 20, there, mh);
    do_load(v, 21, 0, WORD_ALIGN, MEMORY, there, mh);
    do_store(v, 22, 0, WORD_ALIGN, MEMORY, here, word, m);
    let m1 = Vm { mem: m.mem.insert(here, word), ..m };
    do_get(v, 23, k, m1);
    do_const(v, 24, 1, pushed(m1, j));
    do_arith(v, 25, Arith::Add, j, 1, j + 1, m1);
    do_put(v, 26, k, j + 1, m1);
    let n = Vm { locals: m.locals.insert(k, j + 1), ..m1 };
    do_jump(v, 27, 0, n);
    n
}

/// The turns of the loop that copies words.
#[verifier::rlimit(100)]
proof fn lemma_copy_range_turns(
    src: u32,
    from: u32,
    dst: u32,
    to: u32,
    count: u32,
    k: u32,
    m: Vm,
    turns: nat,
)
    requires
        m.locals.dom().contains(k),
        src != k,
        from != k,
        dst != k,
        to != k,
        count != k,
        0 <= m.locals[k] <= m.locals[count],
        turns >= m.locals[count] - m.locals[k],
        0 <= m.locals[src],
        0 <= m.locals[dst],
        0 <= m.locals[from],
        0 <= m.locals[to],
        can_copy(
            m,
            m.locals[src] + 8 * m.locals[from],
            m.locals[dst] + 8 * m.locals[to],
            m.locals[count],
        ),
    ensures
        run(
            Code::Loop(
                Box::new(
                    Code::Line(
                        wasm_seq::copy_range_code(src, from, dst, to, count, k).subrange(4, 32),
                    ),
                ),
            ),
            m,
            turns,
        ) == End::Jump(
            0,
            Vm {
                locals: m.locals.insert(k, m.locals[count]),
                mem: copied(
                    m.mem,
                    m.locals[src] + 8 * m.locals[from],
                    m.locals[dst] + 8 * m.locals[to],
                    m.locals[k],
                    m.locals[count],
                ),
                ..m
            },
        ),
    decreases m.locals[count] - m.locals[k],
{
    let body = wasm_seq::copy_range_code(src, from, dst, to, count, k).subrange(4, 32);
    let c = Code::Loop(Box::new(Code::Line(body)));
    let j = m.locals[k];
    let a = m.locals[src] + 8 * m.locals[from];
    let b = m.locals[dst] + 8 * m.locals[to];
    if j == m.locals[count] {
        assert(m.locals =~= m.locals.insert(k, j));
        lemma_copy_range_last(src, from, dst, to, count, k, m);
        reveal_with_fuel(run, 2);
        assert(run(Code::Line(body), m, turns) == End::Jump(1, m));
    } else {
        let n = lemma_copy_range_turn(src, from, dst, to, count, k, m);
        lemma_copy_range_turns(src, from, dst, to, count, k, n, (turns - 1) as nat);
        assert(n.locals.insert(k, m.locals[count]) =~= m.locals.insert(k, m.locals[count]));
        reveal_with_fuel(run, 2);
        assert(run(Code::Line(body), m, turns) == End::Jump(0, n));
        assert(run(c, m, turns) == run(c, n, (turns - 1) as nat));
    }
}

proof fn lemma_copy_range_unmarked(src: u32, from: u32, dst: u32, to: u32, count: u32, k: u32)
    ensures
        unmarked(wasm_seq::copy_range_code(src, from, dst, to, count, k).subrange(4, 32)),
{
    reveal(wasm_seq::copy_range_code);
    let v = wasm_seq::copy_range_code(src, from, dst, to, count, k).subrange(4, 32);
    assert(v.len() == 28);
    assert(!is_mark(v[0]) && !is_mark(v[1]) && !is_mark(v[2]) && !is_mark(v[3]) && !is_mark(v[4]));
    assert(!is_mark(v[5]) && !is_mark(v[6]) && !is_mark(v[7]) && !is_mark(v[8]) && !is_mark(v[9]));
    assert(!is_mark(v[10]) && !is_mark(v[11]) && !is_mark(v[12]) && !is_mark(v[13]) && !is_mark(v[14]));
    assert(!is_mark(v[15]) && !is_mark(v[16]) && !is_mark(v[17]) && !is_mark(v[18]) && !is_mark(v[19]));
    assert(!is_mark(v[20]) && !is_mark(v[21]) && !is_mark(v[22]) && !is_mark(v[23]) && !is_mark(v[24]));
    assert(!is_mark(v[25]) && !is_mark(v[26]) && !is_mark(v[27]));
}

/// The code that copies words from one place to another.
pub proof fn lemma_copy_range(
    src: u32,
    from: u32,
    dst: u32,
    to: u32,
    count: u32,
    s: TrSt,
    m: Vm,
    turns: nat,
) -> (n: Vm)
    requires
        s.next < u32::MAX,
        src < s.next,
        from < s.next,
        dst < s.next,
        to < s.next,
        count < s.next,
        turns >= m.locals[count],
        0 <= m.locals[src],
        0 <= m.locals[dst],
        0 <= m.locals[from],
        0 <= m.locals[to],
        can_copy(
            m,
            m.locals[src] + 8 * m.locals[from],
            m.locals[dst] + 8 * m.locals[to],
            m.locals[count],
        ),
    ensures
        ({
            let s1 = wasm_trans::copy_range_s(src, from, dst, to, count, s);
            &&& does(s, m, s1, n, turns)
            &&& s1.next == s.next + 1
            &&& s1.env == s.env
            &&& n == Vm {
                locals: m.locals.insert(s.next, m.locals[count]),
                mem: copied(
                    m.mem,
                    m.locals[src] + 8 * m.locals[from],
                    m.locals[dst] + 8 * m.locals[to],
                    0,
                    m.locals[count],
                ),
                ..m
            }
        }),
{
    let (k, s1) = wasm_trans::fresh(s);
    reveal(wasm_seq::copy_range_code);
    let code = wasm_seq::copy_range_code(src, from, dst, to, count, k);
    let start = code.subrange(0, 2);
    let body = code.subrange(4, 32);
    let turn = Code::Loop(Box::new(Code::Line(body)));
    let c = Code::Then(Box::new(Code::Line(start)), Box::new(Code::Block(Box::new(turn))));
    assert(flat(c) == code) by {
        reveal_with_fuel(flat, 5);
        assert(code.len() == 34);
        assert(code[2] == Inst::Region(Region::Block));
        assert(code[3] == Inst::Region(Region::Loop));
        assert(code[32] == Inst::Plain(Plain::End));
        assert(code[33] == Inst::Plain(Plain::End));
        assert(flat(c) =~= code);
    }
    let m1 = Vm { locals: m.locals.insert(k, 0), ..m };
    do_const(start, 0, 0, m);
    do_put(start, 1, k, 0, m);
    do_end(start, 2, m1);
    lemma_copy_range_turns(src, from, dst, to, count, k, m1, turns);
    let n = Vm {
        locals: m.locals.insert(k, m.locals[count]),
        mem: copied(
            m.mem,
            m.locals[src] + 8 * m.locals[from],
            m.locals[dst] + 8 * m.locals[to],
            0,
            m.locals[count],
        ),
        ..m
    };
    assert(m1.locals.insert(k, m.locals[count]) =~= n.locals);
    reveal_with_fuel(run, 3);
    assert(run(turn, m1, turns) == End::Jump(0, n));
    assert(run(c, m, turns) == End::Next(n));
    assert(proper(c)) by {
        reveal_with_fuel(proper, 5);
        lemma_unmarked(start, 0, m);
        lemma_copy_range_unmarked(src, from, dst, to, count, k);
    }
    lemma_code(s1, m, c, code, n, turns);
    assert(does(s, m, wasm_trans::em(s1, code), n, turns));
    n
}

} // verus!
