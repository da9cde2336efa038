//! The code that reads a member of a block, or makes a block out of another one, leaves the
//! value that the operation has.
use vstd::prelude::*;

use crate::core_meaning;
use crate::core_meaning::{Outcome, Value};
use crate::ir::{AtomView, PrimOp};
use crate::memory;
use crate::memory::Memory;
use crate::wasm_code::{Arith, Inst, Plain, Region, Test, MEMORY, WORD_ALIGN};
use crate::wasm_meaning;
use crate::wasm_meaning::{does, goes, ok, pushed, run, run_line, Code, End, Vm};
use crate::wasm_ops;
use crate::wasm_prims;
use crate::wasm_prims::operands;
use crate::wasm_seq;
use crate::wasm_sound;
use crate::wasm_sound::{env_means, is_plain};
use crate::wasm_trans;
use crate::wasm_trans::{CxView, OutView, TrSt};

verus! {

// ---- members ----------------------------------------------------------------------------------------

/// The code that loads a member, by its position, of a block on the stack.
proof fn lemma_index_line(h: i64, p: int, i: int, m: Vm)
    requires
        h == 8 || h == 16,
        0 <= p,
        0 <= i,
        p + 8 * i + h < 0x1_0000_0000,
        wasm_meaning::reaches(m, p + 8 * i + h),
    ensures
        run_line(wasm_seq::index_code(h), 0, pushed(pushed(m, p), i)) == End::Next(
            pushed(m, m.mem[p + 8 * i + h]),
        ),
{
    reveal(wasm_seq::index_code);
    let v = wasm_seq::index_code(h);
    let a = p + 8 * i + h;
    wasm_meaning::lemma_by_eight(i);
    wasm_meaning::do_const(v, 0, 8, pushed(pushed(m, p), i));
    wasm_meaning::do_arith(v, 1, Arith::Mul, i, 8, 8 * i, pushed(m, p));
    wasm_meaning::do_arith(v, 2, Arith::Add, p, 8 * i, p + 8 * i, m);
    wasm_meaning::do_const(v, 3, h, pushed(m, p + 8 * i));
    wasm_meaning::do_arith(v, 4, Arith::Add, p + 8 * i, h as int, a, m);
    wasm_meaning::do_wrap(v, 5, a, m);
    wasm_meaning::do_load(v, 6, 0, WORD_ALIGN, MEMORY, a, m);
    wasm_meaning::do_end(v, 7, pushed(m, m.mem[a]));
}

/// Code that ends with a trap behind a condition goes on where the condition is false.
proof fn lemma_guard(code: Seq<Inst>, k: int, s: TrSt, m: Vm, turns: nat)
    requires
        code.len() == k + 3,
        0 <= k,
        code[k] == Inst::Region(Region::If),
        code[k + 1] == Inst::Plain(Plain::Unreachable),
        code[k + 2] == Inst::Plain(Plain::End),
        run_line(code.subrange(0, k), 0, m) == End::Next(pushed(m, 0)),
    ensures
        does(s, m, wasm_trans::em(s, code), m, turns),
{
    let v = code.subrange(0, k);
    let fail = code.subrange(k + 1, k + 2);
    let c = Code::Then(
        Box::new(Code::Line(v)),
        Box::new(Code::If(Box::new(Code::Line(fail)))),
    );
    assert(wasm_meaning::flat(c) == code) by {
        reveal_with_fuel(wasm_meaning::flat, 4);
        assert(wasm_meaning::flat(c) =~= code);
    }
    assert(wasm_meaning::proper(c)) by {
        reveal_with_fuel(wasm_meaning::proper, 4);
        wasm_meaning::lemma_unmarked(v, 0, m);
    }
    assert(run(c, m, turns) == End::Next(m)) by {
        reveal_with_fuel(run, 3);
        assert(run(Code::Line(v), m, turns) == End::Next(pushed(m, 0)));
    }
    wasm_meaning::lemma_code(s, m, c, code, m, turns);
}

proof fn lemma_bounds_line(ptr: u32, i: u32, m: Vm)
    requires
        ok(m),
        0 <= m.locals[ptr],
        m.locals[ptr] % 8 == 0,
        m.locals[ptr] + 8 <= m.heap,
        0 <= m.locals[i] < m.mem[m.locals[ptr]] < 0x1_0000_0000,
    ensures
        run_line(wasm_seq::bounds_code(ptr, i).subrange(0, 5), 0, m) == End::Next(pushed(m, 0)),
{
    reveal(wasm_seq::bounds_code);
    let v = wasm_seq::bounds_code(ptr, i).subrange(0, 5);
    let w = m.locals[ptr];
    let k = m.locals[i];
    wasm_meaning::do_get(v, 0, i, m);
    wasm_meaning::do_get(v, 1, ptr, pushed(m, k));
    wasm_meaning::do_wrap(v, 2, w, pushed(m, k));
    wasm_meaning::do_load(v, 3, 0, WORD_ALIGN, MEMORY, w, pushed(m, k));
    wasm_meaning::do_test(v, 4, Test::GeU, k, m.mem[w], m);
    assert(!wasm_meaning::test_holds(Test::GeU, k, m.mem[w]));
    wasm_meaning::do_end(v, 5, pushed(m, 0));
}

/// The check of a position: the code goes on where the position is that of a member.
pub proof fn lemma_bounds(cx: CxView, ptr: u32, i: u32, s: TrSt, m: Vm, turns: nat)
    requires
        ok(m),
        0 <= m.locals[ptr],
        m.locals[ptr] % 8 == 0,
        m.locals[ptr] + 8 <= m.heap,
        0 <= m.locals[i] < m.mem[m.locals[ptr]] < 0x1_0000_0000,
    ensures
        does(s, m, wasm_trans::bounds_s(cx, ptr, i, s), m, turns),
        wasm_trans::bounds_s(cx, ptr, i, s).next == s.next,
        wasm_trans::bounds_s(cx, ptr, i, s).env == s.env,
{
    wasm_meaning::lemma_does_nothing(s, m, turns);
    if cx.checks {
        lemma_bounds_line(ptr, i, m);
        reveal(wasm_seq::bounds_code);
        lemma_guard(wasm_seq::bounds_code(ptr, i), 5, s, m, turns);
    }
}

/// The code of reading a member, with or without its check.
proof fn lemma_index(cx: CxView, list: bool, s: TrSt, m: Vm, p: int, i: int, turns: nat) -> (n: Vm)
    requires
        ok(m),
        s.next + 2 <= u32::MAX,
        0 <= p,
        p % 8 == 0,
        0 <= i < m.mem[p] < 0x1_0000_0000,
        p + 8 * (i + if list {
            3int
        } else {
            2
        }) <= m.heap,
    ensures
        does(s, pushed(pushed(m, p), i), wasm_ops::index_s(cx, list, s), n, turns),
        s.next <= wasm_ops::index_s(cx, list, s).next,
        n.stack == pushed(
            m,
            m.mem[memory::word_at(
                p,
                i + if list {
                    2int
                } else {
                    1
                },
            )],
        ).stack,
        wasm_meaning::keeps(m, n, s.next),
{
    let h: i64 = if list {
        16
    } else {
        8
    };
    let word = m.mem[p + 8 * i + h];
    let m0 = pushed(pushed(m, p), i);
    let code = wasm_seq::index_code(h);
    if cx.checks {
        let (il, t1) = wasm_trans::fresh(s);
        let (pl, t2) = wasm_trans::fresh(t1);
        reveal(wasm_seq::index_stash_code);
        let v = wasm_seq::index_stash_code(il, pl);
        let m1 = Vm { locals: m.locals.insert(il, i), ..m };
        let m2 = Vm { locals: m1.locals.insert(pl, p), ..m };
        wasm_meaning::do_put(v, 0, il, i, pushed(m, p));
        wasm_meaning::do_tee(v, 1, pl, p, m1);
        wasm_meaning::do_end(v, 2, pushed(m2, p));
        wasm_meaning::lemma_line(t2, m0, v, pushed(m2, p), turns);
        let s1 = wasm_trans::em(t2, v);
        assert(does(s, m0, s1, pushed(m2, p), turns));
        lemma_bounds(cx, pl, il, s1, pushed(m2, p), turns);
        let s2 = wasm_trans::bounds_s(cx, pl, il, s1);
        wasm_sound::lemma_get(il, s2, pushed(m2, p), turns);
        let s3 = wasm_trans::em(s2, wasm_seq::get_code(il));
        let m3 = pushed(pushed(m2, p), i);
        wasm_meaning::lemma_does_then(s, m0, s1, pushed(m2, p), s2, pushed(m2, p), turns);
        wasm_meaning::lemma_does_then(s, m0, s2, pushed(m2, p), s3, m3, turns);
        lemma_index_line(h, p, i, m2);
        let n = pushed(m2, word);
        wasm_meaning::lemma_line(s3, m3, code, n, turns);
        wasm_meaning::lemma_does_then(s, m0, s3, m3, wasm_trans::em(s3, code), n, turns);
        n
    } else {
        lemma_index_line(h, p, i, m);
        let n = pushed(m, word);
        wasm_meaning::lemma_line(s, m0, code, n, turns);
        n
    }
}

/// Reading a member of a list, an array or a string, with its check or without: the code
/// leaves the word of the member that the core calculus gives the primitive.
pub proof fn lemma_code_of_a_member(
    cx: CxView,
    args: Seq<AtomView>,
    s: TrSt,
    m: Vm,
    vals: Seq<Value>,
    x: Value,
    i: int,
    z: Value,
    turns: nat,
) -> (n: Vm)
    requires
        ok(m),
        s.next + 2 <= u32::MAX,
        env_means(s.env, vals, m, s.next),
        args.len() == 2,
        operands(args, seq![x, Value::Int(i)], s.env, vals),
        wasm_ops::is_list_atom(cx, args[0], s) == (x is List),
        core_meaning::prim_value(PrimOp::Index, seq![x, Value::Int(i)]) == Outcome::Value(z),
    ensures
        wasm_ops::prim_s(cx, PrimOp::Index, args, s) matches Ok((OutView::Stack, s1)) && goes(
            s,
            m,
            s1,
            n,
            turns,
        ) && (n.stack matches wasm_meaning::Stack::On(w, rest) && *rest == m.stack
            && memory::stored(n.mem, n.heap, w, z)),
{
    let vs = seq![x, Value::Int(i)];
    assert(vs.len() == 2 && vs[0] == x && vs[1] == Value::Int(i));
    let (p, k) = wasm_prims::lemma_two_operands(args, s, m, vals, vs, turns);
    assert(k == i);
    let list = x is List;
    match x {
        Value::List(v) => memory::lemma_list_member(m.mem, m.heap, p, v, i),
        _ => memory::lemma_member(m.mem, m.heap, p, x, core_meaning::members(x)->0, i),
    }
    lemma_block_length(x, p, m);
    let v = wasm_trans::atom_args(s.env, args, args.len())->Ok_0;
    let s1 = wasm_trans::push_args_s(v, v.len(), s);
    let n = lemma_index(cx, list, s1, m, p, i, turns);
    let s2 = wasm_ops::index_s(cx, list, s1);
    let m0 = pushed(pushed(m, p), i);
    wasm_meaning::lemma_does_then(s, m, s1, m0, s2, n, turns);
    let word = m.mem[memory::word_at(
        p,
        i + if list {
            2int
        } else {
            1
        },
    )];
    memory::lemma_stored_kept(m.mem, m.heap, n.mem, n.heap, word, z);
    n
}

/// The length of what lies in memory is small.
proof fn lemma_block_length(x: Value, p: int, m: Vm)
    requires
        ok(m),
        memory::stored(m.mem, m.heap, p, x),
        x is List || x is Array || x is Str,
    ensures
        m.mem[p] < 0x1_0000_0000,
{
}

// ---- strings out of blocks --------------------------------------------------------------------------

/// Characters that are copied behind their number are a string.
proof fn lemma_copied_string(mem: Memory, from: int, o: int, t: Seq<char>) -> (end: Memory)
    requires
        o % 8 == 0,
        0 <= o,
        from + 8 * t.len() <= o,
        forall|i: int| 0 <= i < t.len() ==> mem[#[trigger] memory::word_at(from, i)] == t[i] as int,
    ensures
        end == wasm_meaning::copied(
            mem.insert(o, t.len() as int),
            from,
            o + 8,
            0,
            t.len() as int,
        ),
        memory::stored(end, memory::word_at(o, t.len() as int + 1), o, Value::Str(t)),
        forall|a: int| a < o ==> #[trigger] end[a] == mem[a],
{
    let k = t.len() as int;
    let m0 = mem.insert(o, k);
    let end = wasm_meaning::copied(m0, from, o + 8, 0, k);
    wasm_meaning::lemma_copied(m0, from, o + 8, 0, k);
    assert(end[o] == m0[o]);
    assert forall|a: int| a < o implies #[trigger] end[a] == mem[a] by {
        assert(end[a] == m0[a]);
    }
    assert forall|i: int| 0 <= i < t.len() implies end[#[trigger] memory::word_at(o, i + 1)] == t[i] as int by {
        assert(memory::word_at(o, i + 1) == memory::word_at(o + 8, i));
        assert(end[memory::word_at(o + 8, i)] == m0[memory::word_at(from, i)]);
        assert(mem[memory::word_at(from, i)] == t[i] as int);
    }
    end
}

/// The code behind the making of a block: it copies the characters in, and leaves the
/// address of the block.
proof fn lemma_filled(
    src: u32,
    from: u32,
    out: u32,
    to: u32,
    count: u32,
    s: TrSt,
    m: Vm,
    before: Memory,
    t: Seq<char>,
    turns: nat,
) -> (n: Vm)
    requires
        ok(m),
        s.next < u32::MAX,
        src < s.next,
        from < s.next,
        out < s.next,
        to < s.next,
        count < s.next,
        m.locals[to] == 1,
        m.locals[count] == t.len(),
        turns >= t.len(),
        0 <= m.locals[src],
        0 <= m.locals[from],
        0 <= m.locals[out],
        m.locals[src] % 8 == 0,
        m.locals[out] % 8 == 0,
        m.heap == m.locals[out] + 8 * (t.len() + 1),
        m.locals[src] + 8 * (m.locals[from] + t.len()) <= m.locals[out],
        m.mem == before.insert(m.locals[out], t.len() as int),
        forall|i: int|
            0 <= i < t.len() ==> before[#[trigger] memory::word_at(
                m.locals[src] + 8 * m.locals[from],
                i,
            )] == t[i] as int,
    ensures
        ({
            let s1 = wasm_trans::em(
                wasm_trans::copy_range_s(src, from, out, to, count, s),
                wasm_seq::get_code(out),
            );
            &&& does(s, m, s1, n, turns)
            &&& s1.next == s.next + 1
            &&& n.stack == pushed(m, m.locals[out]).stack
            &&& n == Vm { stack: n.stack, locals: n.locals, mem: n.mem, ..m }
            &&& memory::stored(n.mem, n.heap, m.locals[out], Value::Str(t))
            &&& forall|i: u32| i < s.next ==> #[trigger] n.locals[i] == m.locals[i]
            &&& forall|a: int| a < m.locals[out] ==> #[trigger] n.mem[a] == before[a]
        }),
{
    let o = m.locals[out];
    let a = m.locals[src] + 8 * m.locals[from];
    let end = lemma_copied_string(before, a, o, t);
    let m1 = wasm_meaning::lemma_copy_range(src, from, out, to, count, s, m, turns);
    let s1 = wasm_trans::copy_range_s(src, from, out, to, count, s);
    assert(m1.mem == end);
    wasm_sound::lemma_get(out, s1, m1, turns);
    let n = pushed(m1, o);
    wasm_meaning::lemma_does_then(
        s,
        m,
        s1,
        m1,
        wasm_trans::em(s1, wasm_seq::get_code(out)),
        n,
        turns,
    );
    n
}

/// A string out of a list of characters: the code leaves the address of a block that
/// stands for the string that the core calculus gives the primitive.
#[verifier::rlimit(60)]
pub proof fn lemma_code_of_a_string_of_characters(
    cx: CxView,
    args: Seq<AtomView>,
    s: TrSt,
    m: Vm,
    vals: Seq<Value>,
    first: Value,
    v: Seq<Value>,
    t: Seq<char>,
    turns: nat,
) -> (n: Vm)
    requires
        ok(m),
        s.next + 20 <= u32::MAX,
        env_means(s.env, vals, m, s.next),
        args.len() == 2,
        is_plain(args[1], s.env),
        core_meaning::atom_value(args[1], vals, false) == Some(Value::List(v)),
        core_meaning::prim_value(PrimOp::FromChars, seq![first, Value::List(v)])
            == Outcome::Value(Value::Str(t)),
        m.heap + 8 * (v.len() + 1) <= m.limit * 65536,
        turns >= v.len(),
    ensures
        wasm_ops::prim_s(cx, PrimOp::FromChars, args, s) matches Ok((OutView::Stack, s1)) && goes(
            s,
            m,
            s1,
            n,
            turns,
        ) && n.stack == pushed(m, m.heap).stack && memory::stored(
            n.mem,
            n.heap,
            m.heap,
            Value::Str(t),
        ),
{
    let vs = seq![first, Value::List(v)];
    assert(vs.len() == 2 && vs[0] == first && vs[1] == Value::List(v));
    assert(t.len() == v.len());
    let a = args[1];
    let m1 = wasm_sound::lemma_word_local(cx, a, s, m, vals, Value::List(v), turns);
    let (list, s1) = wasm_trans::word_local_s(cx, a, s)->Ok_0;
    let w = m1.locals[list];
    let m2 = wasm_meaning::lemma_load_word(list, 0, s1, m1, turns);
    let (len, s2) = wasm_trans::load_word_s(list, 0, s1);
    wasm_meaning::lemma_goes_then(s, m, s1, m1, s2, m2, turns);
    let m3 = wasm_sound::lemma_string_block(len, s2, m2, turns);
    let (out, s3) = wasm_ops::string_block_s(len, s2);
    wasm_meaning::lemma_goes_then(s, m, s2, m2, s3, m3, turns);
    let m4 = wasm_meaning::lemma_const_local(2, s3, m3, turns);
    let (from, s4) = wasm_trans::const_local_s(2, s3);
    wasm_meaning::lemma_goes_then(s, m, s3, m3, s4, m4, turns);
    let m5 = wasm_meaning::lemma_const_local(1, s4, m4, turns);
    let (to, s5) = wasm_trans::const_local_s(1, s4);
    wasm_meaning::lemma_goes_then(s, m, s4, m4, s5, m5, turns);
    assert forall|i: int| 0 <= i < t.len() implies m.mem[#[trigger] memory::word_at(w + 16, i)]
        == t[i] as int by {
        memory::lemma_list_member(m.mem, m.heap, w, v, i);
        assert(memory::word_at(w + 16, i) == memory::word_at(w, i + 2));
        assert(v[i] is Char);
    }
    assert(m5.locals[list] == w && m5.locals[len] == t.len() && m5.locals[out] == m.heap);
    assert(m5.locals[from] == 2 && m5.locals[to] == 1);
    let n = lemma_filled(list, from, out, to, len, s5, m5, m.mem, t, turns);
    let s6 = wasm_trans::em(
        wasm_trans::copy_range_s(list, from, out, to, len, s5),
        wasm_seq::get_code(out),
    );
    wasm_meaning::lemma_does_then(s, m, s5, m5, s6, n, turns);
    n
}

/// The check of a slice: the code goes on where the bounds are in order and in the string.
proof fn lemma_slice_check(lo: u32, hi: u32, len: u32, s: TrSt, m: Vm, turns: nat)
    requires
        0 <= m.locals[lo] <= m.locals[hi] <= m.locals[len] < 0x1_0000_0000,
    ensures
        does(s, m, wasm_trans::em(s, wasm_seq::slice_check_code(lo, hi, len)), m, turns),
{
    lemma_slice_line(lo, hi, len, m);
    reveal(wasm_seq::slice_check_code);
    lemma_guard(wasm_seq::slice_check_code(lo, hi, len), 11, s, m, turns);
}

proof fn lemma_slice_line(lo: u32, hi: u32, len: u32, m: Vm)
    requires
        0 <= m.locals[lo] <= m.locals[hi] <= m.locals[len] < 0x1_0000_0000,
    ensures
        run_line(wasm_seq::slice_check_code(lo, hi, len).subrange(0, 11), 0, m) == End::Next(
            pushed(m, 0),
        ),
{
    reveal(wasm_seq::slice_check_code);
    let v = wasm_seq::slice_check_code(lo, hi, len).subrange(0, 11);
    let a = m.locals[lo];
    let b = m.locals[hi];
    let k = m.locals[len];
    assert(!wasm_meaning::test_holds(Test::GtU, a, k));
    assert(!wasm_meaning::test_holds(Test::GtU, b, k));
    assert(!wasm_meaning::test_holds(Test::GtU, a, b));
    let m1 = pushed(m, 0);
    wasm_meaning::do_get(v, 0, lo, m);
    wasm_meaning::do_get(v, 1, len, pushed(m, a));
    wasm_meaning::do_test(v, 2, Test::GtU, a, k, m);
    wasm_meaning::do_get(v, 3, hi, m1);
    wasm_meaning::do_get(v, 4, len, pushed(m1, b));
    wasm_meaning::do_test(v, 5, Test::GtU, b, k, m1);
    wasm_meaning::do_or_of_none(v, 6, m);
    wasm_meaning::do_get(v, 7, lo, m1);
    wasm_meaning::do_get(v, 8, hi, pushed(m1, a));
    wasm_meaning::do_test(v, 9, Test::GtU, a, b, m1);
    wasm_meaning::do_or_of_none(v, 10, m);
    wasm_meaning::do_end(v, 11, m1);
}

/// The code that checks a slice where that is asked for, and makes the block of its
/// characters.
pub open spec fn cut_s(cx: CxView, lo: u32, hi: u32, len: u32, s: TrSt) -> (TrSt, u32, u32) {
    let s1 = if cx.checks {
        wasm_trans::em(s, wasm_seq::slice_check_code(lo, hi, len))
    } else {
        s
    };
    let (count, s2) = wasm_trans::fresh(s1);
    let (out, s3) = wasm_ops::string_block_s(
        count,
        wasm_trans::em(s2, wasm_seq::diff_code(hi, lo, count)),
    );
    (s3, count, out)
}

proof fn lemma_cut(cx: CxView, lo: u32, hi: u32, len: u32, s: TrSt, m: Vm, turns: nat) -> (n: Vm)
    requires
        ok(m),
        s.next + 7 <= u32::MAX,
        0 <= m.locals[lo] <= m.locals[hi] <= m.locals[len] < 0x1_0000_0000,
        m.heap + 8 * (m.locals[hi] - m.locals[lo] + 1) <= m.limit * 65536,
    ensures
        ({
            let (s1, count, out) = cut_s(cx, lo, hi, len, s);
            &&& goes(s, m, s1, n, turns)
            &&& count == s.next
            &&& out == s.next + 2
            &&& s1.next == s.next + 7
            &&& n.stack == m.stack
            &&& n.mem == m.mem.insert(m.heap, m.locals[hi] - m.locals[lo])
            &&& n.locals[count] == m.locals[hi] - m.locals[lo]
            &&& n.locals[out] == m.heap
            &&& n.heap == m.heap + 8 * (m.locals[hi] - m.locals[lo] + 1)
        }),
{
    wasm_meaning::lemma_does_nothing(s, m, turns);
    lemma_slice_check(lo, hi, len, s, m, turns);
    let s1 = if cx.checks {
        wasm_trans::em(s, wasm_seq::slice_check_code(lo, hi, len))
    } else {
        s
    };
    let (count, s2) = wasm_trans::fresh(s1);
    let k = m.locals[hi] - m.locals[lo];
    wasm_meaning::lemma_difference(hi, lo, count, m);
    let m1 = Vm { locals: m.locals.insert(count, k), ..m };
    let code = wasm_seq::diff_code(hi, lo, count);
    wasm_meaning::lemma_line(s2, m, code, m1, turns);
    let s3 = wasm_trans::em(s2, code);
    assert(does(s1, m, s3, m1, turns));
    wasm_meaning::lemma_does_then(s, m, s1, m, s3, m1, turns);
    let n = wasm_sound::lemma_string_block(count, s3, m1, turns);
    let s4 = wasm_ops::string_block_s(count, s3).1;
    wasm_meaning::lemma_does_then(s, m, s3, m1, s4, n, turns);
    n
}

/// The code that gets the words of three atoms into locals.
pub proof fn lemma_three_words(
    cx: CxView,
    a: AtomView,
    b: AtomView,
    c: AtomView,
    s: TrSt,
    m: Vm,
    vals: Seq<Value>,
    x: Value,
    y: Value,
    z: Value,
    turns: nat,
) -> (n: Vm)
    requires
        ok(m),
        s.next + 3 <= u32::MAX,
        env_means(s.env, vals, m, s.next),
        is_plain(a, s.env),
        is_plain(b, s.env),
        is_plain(c, s.env),
        core_meaning::atom_value(a, vals, false) == Some(x),
        core_meaning::atom_value(b, vals, false) == Some(y),
        core_meaning::atom_value(c, vals, false) == Some(z),
    ensures
        wasm_ops::words3_s(cx, a, b, c, s) matches Ok(((p, q, r), s1)) && goes(s, m, s1, n, turns) && p
            == s.next && q == s.next + 1 && r == s.next + 2 && s1.next == s.next + 3 && s1.env
            == s.env && n == (Vm { locals: n.locals, ..m }) && memory::stored(
            m.mem,
            m.heap,
            n.locals[p],
            x,
        ) && memory::stored(m.mem, m.heap, n.locals[q], y) && memory::stored(
            m.mem,
            m.heap,
            n.locals[r],
            z,
        ),
{
    let m1 = wasm_sound::lemma_word_local(cx, a, s, m, vals, x, turns);
    let (p, s1) = wasm_trans::word_local_s(cx, a, s)->Ok_0;
    wasm_sound::lemma_env_kept(s.env, vals, m, m1, s.next, s1.next);
    let m2 = wasm_sound::lemma_word_local(cx, b, s1, m1, vals, y, turns);
    let (q, s2) = wasm_trans::word_local_s(cx, b, s1)->Ok_0;
    wasm_sound::lemma_env_kept(s.env, vals, m1, m2, s1.next, s2.next);
    wasm_meaning::lemma_goes_then(s, m, s1, m1, s2, m2, turns);
    let m3 = wasm_sound::lemma_word_local(cx, c, s2, m2, vals, z, turns);
    let (r, s3) = wasm_trans::word_local_s(cx, c, s2)->Ok_0;
    wasm_meaning::lemma_goes_then(s, m, s2, m2, s3, m3, turns);
    m3
}

/// A slice of a string, with its check or without: the code leaves the address of a block
/// that stands for the string that the core calculus gives the primitive.
#[verifier::rlimit(60)]
pub proof fn lemma_code_of_a_slice(
    cx: CxView,
    args: Seq<AtomView>,
    s: TrSt,
    m: Vm,
    vals: Seq<Value>,
    t: Seq<char>,
    lo: int,
    hi: int,
    z: Value,
    turns: nat,
) -> (n: Vm)
    requires
        ok(m),
        s.next + 20 <= u32::MAX,
        env_means(s.env, vals, m, s.next),
        args.len() == 3,
        is_plain(args[0], s.env),
        is_plain(args[1], s.env),
        is_plain(args[2], s.env),
        core_meaning::atom_value(args[0], vals, false) == Some(Value::Str(t)),
        core_meaning::atom_value(args[1], vals, false) == Some(Value::Int(lo)),
        core_meaning::atom_value(args[2], vals, false) == Some(Value::Int(hi)),
        core_meaning::prim_value(
            PrimOp::Slice,
            seq![Value::Str(t), Value::Int(lo), Value::Int(hi)],
        ) == Outcome::Value(z),
        m.heap + 8 * (hi - lo + 1) <= m.limit * 65536,
        turns >= hi - lo,
    ensures
        wasm_ops::prim_s(cx, PrimOp::Slice, args, s) matches Ok((OutView::Stack, s1)) && goes(
            s,
            m,
            s1,
            n,
            turns,
        ) && n.stack == pushed(m, m.heap).stack && memory::stored(n.mem, n.heap, m.heap, z),
{
    let vs = seq![Value::Str(t), Value::Int(lo), Value::Int(hi)];
    assert(vs.len() == 3 && vs[0] == Value::Str(t) && vs[1] == Value::Int(lo) && vs[2] == Value::Int(hi));
    let u = t.subrange(lo, hi);
    let (a, b, c) = (args[0], args[1], args[2]);
    let m1 = lemma_three_words(
        cx,
        a,
        b,
        c,
        s,
        m,
        vals,
        Value::Str(t),
        Value::Int(lo),
        Value::Int(hi),
        turns,
    );
    let ((p, q, r), s1) = wasm_ops::words3_s(cx, a, b, c, s)->Ok_0;
    let w = m1.locals[p];
    let m2 = wasm_meaning::lemma_load_word(p, 0, s1, m1, turns);
    let (len, s2) = wasm_trans::load_word_s(p, 0, s1);
    wasm_meaning::lemma_goes_then(s, m, s1, m1, s2, m2, turns);
    let m3 = lemma_cut(cx, q, r, len, s2, m2, turns);
    let (s3, count, out) = cut_s(cx, q, r, len, s2);
    wasm_meaning::lemma_goes_then(s, m, s2, m2, s3, m3, turns);
    assert(m3.locals[q] == lo);
    let m4 = wasm_meaning::lemma_plus(q, 1, s3, m3, turns);
    let (from, s4) = wasm_trans::plus_s(q, 1, s3);
    wasm_meaning::lemma_goes_then(s, m, s3, m3, s4, m4, turns);
    let m5 = wasm_meaning::lemma_const_local(1, s4, m4, turns);
    let (to, s5) = wasm_trans::const_local_s(1, s4);
    wasm_meaning::lemma_goes_then(s, m, s4, m4, s5, m5, turns);
    let first = w + 8 * (lo + 1);
    assert forall|i: int| 0 <= i < u.len() implies m.mem[#[trigger] memory::word_at(first, i)]
        == u[i] as int by {
        assert(memory::word_at(first, i) == memory::word_at(w, lo + i + 1));
        assert(m.mem[memory::word_at(w, lo + i + 1)] == t[lo + i] as int);
    }
    assert(m5.locals[p] == w && m5.locals[count] == u.len() && m5.locals[out] == m.heap);
    assert(m5.locals[from] == lo + 1 && m5.locals[to] == 1);
    let n = lemma_filled(p, from, out, to, count, s5, m5, m.mem, u, turns);
    let s6 = wasm_trans::em(
        wasm_trans::copy_range_s(p, from, out, to, count, s5),
        wasm_seq::get_code(out),
    );
    wasm_meaning::lemma_does_then(s, m, s5, m5, s6, n, turns);
    n
}

/// A new list: the code leaves the address of a block that stands for the empty list, and
/// that has the room that was asked for.
pub proof fn lemma_code_of_a_new_list(
    cx: CxView,
    a: AtomView,
    s: TrSt,
    m: Vm,
    vals: Seq<Value>,
    room: int,
    turns: nat,
) -> (n: Vm)
    requires
        ok(m),
        s.next + 20 <= u32::MAX,
        env_means(s.env, vals, m, s.next),
        is_plain(a, s.env),
        core_meaning::atom_value(a, vals, false) == Some(Value::Int(room)),
        0 <= room,
        m.heap + 8 * (room + 2) <= m.limit * 65536,
    ensures
        wasm_ops::list_new_s(cx, a, s) matches Ok((OutView::Stack, s1)) && goes(s, m, s1, n, turns)
            && n.stack == pushed(m, m.heap).stack && memory::stored(
            n.mem,
            n.heap,
            m.heap,
            Value::List(Seq::empty()),
        ) && n.mem[m.heap + 8] == room && n.heap == memory::word_at(m.heap, room + 2),
{
    let m1 = wasm_sound::lemma_word_local(cx, a, s, m, vals, Value::Int(room), turns);
    let (cap, s1) = wasm_trans::word_local_s(cx, a, s)->Ok_0;
    let m2 = wasm_meaning::lemma_plus(cap, 2, s1, m1, turns);
    let (total, s2) = wasm_trans::plus_s(cap, 2, s1);
    wasm_meaning::lemma_goes_then(s, m, s1, m1, s2, m2, turns);
    let m3 = wasm_meaning::lemma_bump_dyn(total, s2, m2, turns);
    let (ptr, s3) = wasm_trans::bump_dyn_s(total, s2);
    wasm_meaning::lemma_goes_then(s, m, s2, m2, s3, m3, turns);
    assert(m3.locals[cap] == room);
    let o = m.heap;
    reveal(wasm_seq::store_tag_code);
    let v = wasm_seq::store_tag_code(ptr, 0);
    let m4 = Vm { mem: m3.mem.insert(o, 0), ..m3 };
    wasm_meaning::do_get(v, 0, ptr, m3);
    wasm_meaning::do_wrap(v, 1, o, m3);
    wasm_meaning::do_const(v, 2, 0, pushed(m3, o));
    wasm_meaning::do_store(v, 3, 0, WORD_ALIGN, MEMORY, o, 0, m3);
    wasm_meaning::do_end(v, 4, m4);
    wasm_meaning::lemma_line(s3, m3, v, m4, turns);
    let s4 = wasm_trans::em(s3, v);
    wasm_meaning::lemma_does_then(s, m, s3, m3, s4, m4, turns);
    wasm_meaning::lemma_store_local(ptr, 8, cap, m4);
    let code = wasm_seq::store_local_code(ptr, 8, cap);
    let m5 = Vm { mem: m4.mem.insert(o + 8, room), ..m4 };
    wasm_meaning::lemma_line(s4, m4, code, m5, turns);
    let s5 = wasm_trans::em(s4, code);
    wasm_meaning::lemma_does_then(s, m, s4, m4, s5, m5, turns);
    wasm_sound::lemma_get(ptr, s5, m5, turns);
    let n = pushed(m5, o);
    wasm_meaning::lemma_does_then(
        s,
        m,
        s5,
        m5,
        wasm_trans::em(s5, wasm_seq::get_code(ptr)),
        n,
        turns,
    );
    n
}

} // verus!
