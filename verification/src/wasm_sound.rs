//! The code of an operation leaves the value that the operation has.
use vstd::prelude::*;

use crate::core_meaning;
use crate::core_meaning::{Outcome, Value};
use crate::ir::{AtomView, LiteralView, PrimOp};
use crate::memory;
use crate::memory::Memory;
use crate::wasm_meaning;
use crate::wasm_meaning::{does, goes, keeps, ok, pushed, Vm};
use crate::wasm_ops;
use crate::wasm_seq;
use crate::wasm_trans;
use crate::wasm_trans::{CxView, OutView, SlotView, TrSt};

verus! {

// ---- what is held -----------------------------------------------------------------------------------

/// Whether what a body holds for a term stands for a value.
pub open spec fn slot_means(x: SlotView, v: Value, m: Vm, k: u32) -> bool
    decreases x,
{
    match x {
        SlotView::Local(l) => l < k && memory::stored(m.mem, m.heap, m.locals[l], v),
        SlotView::Unit => v == Value::Unit,
        SlotView::Tuple { tag, fields } => match v {
            Value::Data { ty, tag: t, fields: fs } => {
                &&& fs.len() == fields.len()
                &&& forall|i: int|
                    0 <= i < fields.len() ==> slot_means(#[trigger] fields[i], fs[i], m, k)
            },
            _ => false,
        },
        SlotView::Partial { func, args } => false,
    }
}

/// The variables in scope stand for these values.
pub open spec fn env_means(env: Seq<SlotView>, vals: Seq<Value>, m: Vm, k: u32) -> bool {
    &&& env.len() == vals.len()
    &&& forall|i: int| 0 <= i < env.len() ==> slot_means(#[trigger] env[i], vals[i], m, k)
}

/// What is held stays held.
pub proof fn lemma_slot_kept(x: SlotView, v: Value, m: Vm, n: Vm, k: u32, l: u32)
    requires
        slot_means(x, v, m, k),
        keeps(m, n, k),
        k <= l,
    ensures
        slot_means(x, v, n, l),
    decreases x,
{
    match x {
        SlotView::Local(i) => {
            memory::lemma_stored_kept(m.mem, m.heap, n.mem, n.heap, m.locals[i], v);
        },
        SlotView::Tuple { tag, fields } => match v {
            Value::Data { ty, tag: t, fields: fs } => {
                assert forall|i: int| 0 <= i < fields.len() implies slot_means(
                    #[trigger] fields[i],
                    fs[i],
                    n,
                    l,
                ) by {
                    lemma_slot_kept(fields[i], fs[i], m, n, k, l);
                }
            },
            _ => {},
        },
        _ => {},
    }
}

pub proof fn lemma_env_kept(env: Seq<SlotView>, vals: Seq<Value>, m: Vm, n: Vm, k: u32, l: u32)
    requires
        env_means(env, vals, m, k),
        keeps(m, n, k),
        k <= l,
    ensures
        env_means(env, vals, n, l),
{
    assert forall|i: int| 0 <= i < env.len() implies slot_means(#[trigger] env[i], vals[i], n, l) by {
        lemma_slot_kept(env[i], vals[i], m, n, k, l);
    }
}

/// Whether an atom is a literal or a variable that is no aggregate in parts.
pub open spec fn is_plain(a: AtomView, env: Seq<SlotView>) -> bool {
    match a {
        AtomView::Lit(LiteralView::Str(_)) => false,
        AtomView::Lit(LiteralView::Float(_)) => false,
        AtomView::Lit(_) => true,
        AtomView::Var(i) => i < env.len() && (env[env.len() - 1 - i] is Local || env[env.len() - 1
            - i] is Unit),
        AtomView::Global(_) => false,
    }
}

/// The code that gets a local onto the stack.
pub proof fn lemma_get(l: u32, s: TrSt, m: Vm, turns: nat)
    ensures
        does(
            s,
            m,
            wasm_trans::em(s, wasm_seq::get_code(l)),
            pushed(m, m.locals[l]),
            turns,
        ),
{
    reveal(wasm_seq::get_code);
    let code = wasm_seq::get_code(l);
    wasm_meaning::do_get(code, 0, l, m);
    wasm_meaning::do_end(code, 1, pushed(m, m.locals[l]));
    wasm_meaning::lemma_line(s, m, code, pushed(m, m.locals[l]), turns);
}

/// The code that puts a constant on the stack.
pub proof fn lemma_const(c: i64, s: TrSt, m: Vm, turns: nat)
    ensures
        does(s, m, wasm_trans::em(s, wasm_seq::const_code(c)), pushed(m, c as int), turns),
{
    reveal(wasm_seq::const_code);
    let code = wasm_seq::const_code(c);
    wasm_meaning::do_const(code, 0, c, m);
    wasm_meaning::do_end(code, 1, pushed(m, c as int));
    wasm_meaning::lemma_line(s, m, code, pushed(m, c as int), turns);
}

proof fn lemma_put(l: u32, w: int, s: TrSt, m: Vm, turns: nat)
    ensures
        does(
            s,
            pushed(m, w),
            wasm_trans::em(s, wasm_seq::put_code(l)),
            (Vm { locals: m.locals.insert(l, w), ..m }),
            turns,
        ),
{
    reveal(wasm_seq::put_code);
    let code = wasm_seq::put_code(l);
    let n = Vm { locals: m.locals.insert(l, w), ..m };
    wasm_meaning::do_put(code, 0, l, w, m);
    wasm_meaning::do_end(code, 1, n);
    wasm_meaning::lemma_line(s, pushed(m, w), code, n, turns);
}

/// The code of an atom leaves the word of its value in a fresh local.
pub proof fn lemma_word_local(cx: CxView, a: AtomView, s: TrSt, m: Vm, vals: Seq<Value>, v: Value, turns: nat) -> (n:
    Vm)
    requires
        ok(m),
        s.next < u32::MAX,
        env_means(s.env, vals, m, s.next),
        is_plain(a, s.env),
        core_meaning::atom_value(a, vals, false) == Some(v),
    ensures
        wasm_trans::word_local_s(cx, a, s) matches Ok((l, s1)) && goes(s, m, s1, n, turns) && l
            == s.next && s1.next == s.next + 1 && s1.env == s.env && s1.tys == s.tys && n == (Vm {
            locals: m.locals.insert(l, n.locals[l]),
            ..m
        }) && memory::stored(n.mem, n.heap, n.locals[l], v),
{
    let l = s.next;
    let (w, t) = match a {
        AtomView::Lit(LiteralView::Unit) => {
            lemma_const(0, s, m, turns);
            (0int, wasm_trans::em(s, wasm_seq::const_code(0)))
        },
        AtomView::Lit(LiteralView::Int(k)) => {
            lemma_const(k, s, m, turns);
            (k as int, wasm_trans::em(s, wasm_seq::const_code(k)))
        },
        AtomView::Lit(LiteralView::Bool(b)) => {
            lemma_const(wasm_trans::truth(b), s, m, turns);
            (
                wasm_trans::truth(b) as int,
                wasm_trans::em(s, wasm_seq::const_code(wasm_trans::truth(b))),
            )
        },
        AtomView::Lit(LiteralView::Char(c)) => {
            lemma_const(wasm_trans::code_point(c), s, m, turns);
            (
                wasm_trans::code_point(c) as int,
                wasm_trans::em(s, wasm_seq::const_code(wasm_trans::code_point(c))),
            )
        },
        AtomView::Var(i) => {
            let x = s.env[s.env.len() - 1 - i];
            assert(slot_means(x, vals[vals.len() - 1 - i], m, s.next));
            match x {
                SlotView::Local(j) => {
                    lemma_get(j, s, m, turns);
                    (m.locals[j], wasm_trans::em(s, wasm_seq::get_code(j)))
                },
                _ => {
                    lemma_const(0, s, m, turns);
                    (0int, wasm_trans::em(s, wasm_seq::const_code(0)))
                },
            }
        },
        _ => (0int, s),
    };
    let t1 = wasm_trans::fresh(t).1;
    let n = Vm { locals: m.locals.insert(l, w), ..m };
    lemma_put(l, w, t1, m, turns);
    let s1 = wasm_trans::em(t1, wasm_seq::put_code(l));
    assert(does(t, pushed(m, w), s1, n, turns));
    wasm_meaning::lemma_does_then(s, m, t, pushed(m, w), s1, n, turns);
    n
}

// ---- strings ----------------------------------------------------------------------------------------

/// The code that makes the block of a string with so many characters, and its length.
pub proof fn lemma_string_block(count: u32, s: TrSt, m: Vm, turns: nat) -> (n: Vm)
    requires
        ok(m),
        s.next + 6 <= u32::MAX,
        count < s.next,
        0 <= m.locals[count],
        m.heap + 8 * (m.locals[count] + 1) <= m.limit * 65536,
    ensures
        ({
            let (out, s1) = wasm_ops::string_block_s(count, s);
            &&& goes(s, m, s1, n, turns)
            &&& out == s.next + 1
            &&& s1.next == s.next + 6
            &&& s1.env == s.env
            &&& n.stack == m.stack
            &&& n.mem == m.mem.insert(m.heap, m.locals[count])
            &&& n.locals[out] == m.heap
            &&& n.heap == m.heap + 8 * (m.locals[count] + 1)
        }),
{
    let m1 = wasm_meaning::lemma_plus(count, 1, s, m, turns);
    let (words, s1) = wasm_trans::plus_s(count, 1, s);
    let m2 = wasm_meaning::lemma_bump_dyn(words, s1, m1, turns);
    let (out, s2) = wasm_trans::bump_dyn_s(words, s1);
    wasm_meaning::lemma_goes_then(s, m, s1, m1, s2, m2, turns);
    assert(m2.locals[count] == m.locals[count]);
    wasm_meaning::lemma_store_local(out, 0, count, m2);
    let code = wasm_seq::store_local_code(out, 0, count);
    let n = Vm { mem: m2.mem.insert(m.heap, m.locals[count]), ..m2 };
    wasm_meaning::lemma_line(s2, m2, code, n, turns);
    wasm_meaning::lemma_does_then(s, m, s2, m2, wasm_trans::em(s2, code), n, turns);
    n
}

/// The characters of two strings, copied one after the other behind their joint length,
/// are the string that joins them.
proof fn lemma_joined(
    mem: Memory,
    l: int,
    r: int,
    o: int,
    x: Seq<char>,
    y: Seq<char>,
) -> (end: Memory)
    requires
        o % 8 == 0,
        0 <= o,
        memory::stored(mem, o, l, Value::Str(x)),
        memory::stored(mem, o, r, Value::Str(y)),
    ensures
        ({
            let n1 = x.len() as int;
            let n2 = y.len() as int;
            let one = wasm_meaning::copied(mem.insert(o, n1 + n2), l + 8, o + 8, 0, n1);
            &&& end == wasm_meaning::copied(one, r + 8, o + 8 * (n1 + 1), 0, n2)
            &&& memory::stored(end, memory::word_at(o, n1 + n2 + 1), o, Value::Str(x + y))
            &&& forall|a: int| a < o ==> #[trigger] end[a] == mem[a]
        }),
{
    let n1 = x.len() as int;
    let n2 = y.len() as int;
    let m0 = mem.insert(o, n1 + n2);
    let to = o + 8 * (n1 + 1);
    let m1 = wasm_meaning::copied(m0, l + 8, o + 8, 0, n1);
    let m2 = wasm_meaning::copied(m1, r + 8, to, 0, n2);
    wasm_meaning::lemma_copied(m0, l + 8, o + 8, 0, n1);
    wasm_meaning::lemma_copied(m1, r + 8, to, 0, n2);
    let t = x + y;
    assert(m1[o] == m0[o]);
    assert(m2[o] == m1[o]);
    assert forall|a: int| a < o implies #[trigger] m2[a] == mem[a] by {
        assert(m1[a] == m0[a]);
    }
    assert forall|i: int| 0 <= i < t.len() implies m2[#[trigger] memory::word_at(o, i + 1)] == t[i] as int by {
        if i < n1 {
            assert(memory::word_at(o, i + 1) == memory::word_at(o + 8, i));
            assert(m2[memory::word_at(o, i + 1)] == m1[memory::word_at(o, i + 1)]);
            assert(m1[memory::word_at(o + 8, i)] == m0[memory::word_at(l + 8, i)]);
            assert(memory::word_at(l + 8, i) == memory::word_at(l, i + 1));
            assert(mem[memory::word_at(l, i + 1)] == x[i] as int);
        } else {
            let j = i - n1;
            assert(memory::word_at(o, i + 1) == memory::word_at(to, j));
            assert(m2[memory::word_at(to, j)] == m1[memory::word_at(r + 8, j)]);
            assert(memory::word_at(r + 8, j) == memory::word_at(r, j + 1));
            assert(m1[memory::word_at(r, j + 1)] == m0[memory::word_at(r, j + 1)]);
            assert(mem[memory::word_at(r, j + 1)] == y[j] as int);
        }
    }
    m2
}

/// The code that loads two lengths and adds them: the locals that hold them and their sum.
pub open spec fn lengths_s(l: u32, r: u32, s: TrSt) -> (TrSt, u32, u32, u32) {
    let (llen, s1) = wasm_trans::load_word_s(l, 0, s);
    let (rlen, s2) = wasm_trans::load_word_s(r, 0, s1);
    let (total, s3) = wasm_trans::fresh(s2);
    (wasm_trans::em(s3, wasm_seq::sum_code(llen, rlen, total)), llen, rlen, total)
}

proof fn lemma_lengths(l: u32, r: u32, s: TrSt, m: Vm, n1: int, n2: int, turns: nat) -> (n: Vm)
    requires
        ok(m),
        s.next + 3 <= u32::MAX,
        l < s.next,
        r < s.next,
        0 <= m.locals[l],
        0 <= m.locals[r],
        m.locals[l] + 8 <= m.heap,
        m.locals[r] + 8 <= m.heap,
        m.locals[l] % 8 == 0,
        m.locals[r] % 8 == 0,
        m.mem[m.locals[l]] == n1,
        m.mem[m.locals[r]] == n2,
        0 <= n1 < 0x1_0000_0000,
        0 <= n2 < 0x1_0000_0000,
    ensures
        ({
            let (s1, llen, rlen, total) = lengths_s(l, r, s);
            &&& goes(s, m, s1, n, turns)
            &&& llen == s.next
            &&& rlen == s.next + 1
            &&& total == s.next + 2
            &&& s1.next == s.next + 3
            &&& s1.env == s.env
            &&& n == Vm {
                locals: m.locals.insert(llen, n1).insert(rlen, n2).insert(total, n1 + n2),
                ..m
            }
        }),
{
    let m3 = wasm_meaning::lemma_load_word(l, 0, s, m, turns);
    let (llen, s3) = wasm_trans::load_word_s(l, 0, s);
    let m4 = wasm_meaning::lemma_load_word(r, 0, s3, m3, turns);
    let (rlen, s4) = wasm_trans::load_word_s(r, 0, s3);
    wasm_meaning::lemma_goes_then(s, m, s3, m3, s4, m4, turns);
    let (total, s5) = wasm_trans::fresh(s4);
    let m5 = Vm { locals: m4.locals.insert(total, n1 + n2), ..m4 };
    wasm_meaning::lemma_sum(llen, rlen, total, m4);
    let sum = wasm_seq::sum_code(llen, rlen, total);
    wasm_meaning::lemma_line(s5, m4, sum, m5, turns);
    let s6 = wasm_trans::em(s5, sum);
    assert(does(s4, m4, s6, m5, turns));
    wasm_meaning::lemma_goes_then(s, m, s4, m4, s6, m5, turns);
    m5
}

/// The code that makes the block of a string and a local with the number one.
pub open spec fn room_s(total: u32, s: TrSt) -> (TrSt, u32, u32) {
    let (out, s1) = wasm_ops::string_block_s(total, s);
    let (one, s2) = wasm_trans::const_local_s(1, s1);
    (s2, out, one)
}

proof fn lemma_room(total: u32, s: TrSt, m: Vm, turns: nat) -> (n: Vm)
    requires
        ok(m),
        s.next + 7 <= u32::MAX,
        total < s.next,
        0 <= m.locals[total],
        m.heap + 8 * (m.locals[total] + 1) <= m.limit * 65536,
    ensures
        ({
            let (s1, out, one) = room_s(total, s);
            &&& goes(s, m, s1, n, turns)
            &&& out == s.next + 1
            &&& one == s.next + 6
            &&& s1.next == s.next + 7
            &&& s1.env == s.env
            &&& n.stack == m.stack
            &&& n.mem == m.mem.insert(m.heap, m.locals[total])
            &&& n.locals[out] == m.heap
            &&& n.locals[one] == 1
            &&& n.heap == m.heap + 8 * (m.locals[total] + 1)
        }),
{
    let m7 = lemma_string_block(total, s, m, turns);
    let (out, s7) = wasm_ops::string_block_s(total, s);
    let m8 = wasm_meaning::lemma_const_local(1, s7, m7, turns);
    let (one, s8) = wasm_trans::const_local_s(1, s7);
    wasm_meaning::lemma_goes_then(s, m, s7, m7, s8, m8, turns);
    m8
}

/// The code that copies one string and then another one into a block.
pub open spec fn two_copies_s(l: u32, r: u32, out: u32, one: u32, llen: u32, rlen: u32, s: TrSt) -> TrSt {
    let (to, s1) = wasm_trans::plus_s(llen, 1, wasm_trans::copy_range_s(l, one, out, one, llen, s));
    wasm_trans::copy_range_s(r, one, out, to, rlen, s1)
}

proof fn lemma_two_copies(
    l: u32,
    r: u32,
    out: u32,
    one: u32,
    llen: u32,
    rlen: u32,
    s: TrSt,
    m: Vm,
    turns: nat,
) -> (n: Vm)
    requires
        ok(m),
        s.next + 3 <= u32::MAX,
        l < s.next,
        r < s.next,
        out < s.next,
        one < s.next,
        llen < s.next,
        rlen < s.next,
        m.locals[one] == 1,
        0 <= m.locals[llen] <= turns,
        0 <= m.locals[rlen] <= turns,
        0 <= m.locals[l],
        0 <= m.locals[r],
        0 <= m.locals[out],
        m.locals[l] % 8 == 0,
        m.locals[r] % 8 == 0,
        m.locals[out] % 8 == 0,
        m.locals[l] + 8 * (m.locals[llen] + 1) <= m.heap,
        m.locals[r] + 8 * (m.locals[rlen] + 1) <= m.heap,
        m.locals[out] + 8 * (m.locals[llen] + m.locals[rlen] + 1) <= m.heap,
    ensures
        does(s, m, two_copies_s(l, r, out, one, llen, rlen, s), n, turns),
        two_copies_s(l, r, out, one, llen, rlen, s).next == s.next + 3,
        two_copies_s(l, r, out, one, llen, rlen, s).env == s.env,
        n.mem == wasm_meaning::copied(
            wasm_meaning::copied(
                m.mem,
                m.locals[l] + 8,
                m.locals[out] + 8,
                0,
                m.locals[llen],
            ),
            m.locals[r] + 8,
            m.locals[out] + 8 * (m.locals[llen] + 1),
            0,
            m.locals[rlen],
        ),
        (n == Vm { mem: n.mem, locals: n.locals, ..m }),
        forall|i: u32| i < s.next ==> #[trigger] n.locals[i] == m.locals[i],
{
    let m9 = wasm_meaning::lemma_copy_range(l, one, out, one, llen, s, m, turns);
    let s9 = wasm_trans::copy_range_s(l, one, out, one, llen, s);
    let m10 = wasm_meaning::lemma_plus(llen, 1, s9, m9, turns);
    let (to, s10) = wasm_trans::plus_s(llen, 1, s9);
    wasm_meaning::lemma_does_then(s, m, s9, m9, s10, m10, turns);
    let m11 = wasm_meaning::lemma_copy_range(r, one, out, to, rlen, s10, m10, turns);
    let s11 = wasm_trans::copy_range_s(r, one, out, to, rlen, s10);
    wasm_meaning::lemma_does_then(s, m, s10, m10, s11, m11, turns);
    m11
}

/// The sum of two strings: the code leaves the address of a block that holds the
/// characters of the first and then those of the second, and their number.
#[verifier::rlimit(60)]
pub proof fn lemma_code_of_joining(
    cx: CxView,
    a: AtomView,
    b: AtomView,
    s: TrSt,
    m: Vm,
    vals: Seq<Value>,
    x: Seq<char>,
    y: Seq<char>,
    turns: nat,
) -> (n: Vm)
    requires
        ok(m),
        s.next + 20 <= u32::MAX,
        env_means(s.env, vals, m, s.next),
        is_plain(a, s.env),
        is_plain(b, s.env),
        core_meaning::atom_value(a, vals, false) == Some(Value::Str(x)),
        core_meaning::atom_value(b, vals, false) == Some(Value::Str(y)),
        m.heap + 8 * (x.len() + y.len() + 1) <= m.limit * 65536,
        turns >= x.len(),
        turns >= y.len(),
    ensures
        wasm_ops::concat_s(cx, a, b, s) matches Ok((OutView::Stack, s1)) && goes(s, m, s1, n, turns)
            && n.stack == pushed(m, m.heap).stack && memory::stored(
            n.mem,
            n.heap,
            m.heap,
            Value::Str(x + y),
        ),
{
    let m1 = lemma_word_local(cx, a, s, m, vals, Value::Str(x), turns);
    let (l, s1) = wasm_trans::word_local_s(cx, a, s)->Ok_0;
    lemma_env_kept(s.env, vals, m, m1, s.next, s1.next);
    let m2 = lemma_word_local(cx, b, s1, m1, vals, Value::Str(y), turns);
    let (r, s2) = wasm_trans::word_local_s(cx, b, s1)->Ok_0;
    wasm_meaning::lemma_goes_then(s, m, s1, m1, s2, m2, turns);
    let n1 = x.len() as int;
    let n2 = y.len() as int;
    let lw = m2.locals[l];
    let rw = m2.locals[r];
    assert(memory::stored(m2.mem, m2.heap, lw, Value::Str(x)));
    assert(memory::stored(m2.mem, m2.heap, rw, Value::Str(y)));
    let m5 = lemma_lengths(l, r, s2, m2, n1, n2, turns);
    let (s6, llen, rlen, total) = lengths_s(l, r, s2);
    wasm_meaning::lemma_goes_then(s, m, s2, m2, s6, m5, turns);
    let m8 = lemma_room(total, s6, m5, turns);
    let (s8, out, one) = room_s(total, s6);
    wasm_meaning::lemma_goes_then(s, m, s6, m5, s8, m8, turns);
    let o = m.heap;
    assert(m8.locals[l] == lw && m8.locals[r] == rw && m8.locals[out] == o);
    assert(m8.locals[llen] == n1 && m8.locals[rlen] == n2 && m8.locals[one] == 1);
    let end = lemma_joined(m.mem, lw, rw, o, x, y);
    let m11 = lemma_two_copies(l, r, out, one, llen, rlen, s8, m8, turns);
    let s11 = two_copies_s(l, r, out, one, llen, rlen, s8);
    wasm_meaning::lemma_does_then(s, m, s8, m8, s11, m11, turns);
    assert(m11.mem == end);
    assert(m11.locals[out] == o);
    lemma_get(out, s11, m11, turns);
    let n = pushed(m11, o);
    wasm_meaning::lemma_does_then(
        s,
        m,
        s11,
        m11,
        wasm_trans::em(s11, wasm_seq::get_code(out)),
        n,
        turns,
    );
    n
}

/// Adding two strings: the code of the primitive leaves the address of a block that stands
/// for the value that the core calculus gives the primitive.
pub proof fn lemma_code_of_adding_strings(
    cx: CxView,
    args: Seq<AtomView>,
    s: TrSt,
    m: Vm,
    vals: Seq<Value>,
    x: Seq<char>,
    y: Seq<char>,
    z: Value,
    turns: nat,
) -> (n: Vm)
    requires
        ok(m),
        s.next + 20 <= u32::MAX,
        env_means(s.env, vals, m, s.next),
        args.len() == 2,
        is_plain(args[0], s.env),
        is_plain(args[1], s.env),
        wasm_ops::is_str_atom(cx, args[0], s),
        core_meaning::atom_value(args[0], vals, false) == Some(Value::Str(x)),
        core_meaning::atom_value(args[1], vals, false) == Some(Value::Str(y)),
        core_meaning::prim_value(PrimOp::Add, seq![Value::Str(x), Value::Str(y)])
            == Outcome::Value(z),
        m.heap + 8 * (x.len() + y.len() + 1) <= m.limit * 65536,
        turns >= x.len(),
        turns >= y.len(),
    ensures
        wasm_ops::prim_s(cx, PrimOp::Add, args, s) matches Ok((OutView::Stack, s1)) && goes(
            s,
            m,
            s1,
            n,
            turns,
        ) && n.stack == pushed(m, m.heap).stack && memory::stored(n.mem, n.heap, m.heap, z),
{
    let vs = seq![Value::Str(x), Value::Str(y)];
    assert(vs.len() == 2 && vs[0] == Value::Str(x) && vs[1] == Value::Str(y));
    lemma_code_of_joining(cx, args[0], args[1], s, m, vals, x, y, turns)
}

} // verus!
