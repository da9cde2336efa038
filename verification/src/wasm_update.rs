//! The code that changes one member of an array leaves the array that has it changed, and
//! leaves the old one as it was; a list is changed in its place.
use vstd::prelude::*;

use crate::core_meaning;
use crate::core_meaning::Value;
use crate::ir::AtomView;
use crate::memory;
use crate::memory::Memory;
use crate::wasm_blocks;
use crate::wasm_code::{Arith, Inst, Plain, Region, Test, MEMORY, WORD_ALIGN};
use crate::wasm_meaning;
use crate::wasm_meaning::{copied, does, goes, ok, pushed, run, run_line, Code, End, Vm};
use crate::wasm_ops;
use crate::wasm_seq;
use crate::wasm_sound;
use crate::wasm_sound::{env_means, is_plain};
use crate::wasm_trans;
use crate::wasm_trans::{CxView, OutView, TrSt};

verus! {

// ---- copies of whole blocks -------------------------------------------------------------------------

proof fn lemma_copy_last(src: u32, dst: u32, total: u32, k: u32, m: Vm)
    requires
        0 <= m.locals[k] == m.locals[total],
    ensures
        run_line(wasm_seq::copy_code(src, dst, total, k).subrange(4, 28), 0, m) == End::Jump(1, m),
{
    reveal(wasm_seq::copy_code);
    let v = wasm_seq::copy_code(src, dst, total, k).subrange(4, 28);
    let j = m.locals[k];
    wasm_meaning::do_get(v, 0, k, m);
    wasm_meaning::do_get(v, 1, total, pushed(m, j));
    wasm_meaning::do_test(v, 2, Test::LtU, j, j, m);
    wasm_meaning::do_eqz32(v, 3, 0, m);
    wasm_meaning::do_leave(v, 4, 1, m);
}

#[verifier::rlimit(60)]
proof fn lemma_copy_turn(src: u32, dst: u32, total: u32, k: u32, m: Vm) -> (n: Vm)
    requires
        src != k,
        dst != k,
        total != k,
        0 <= m.locals[k] < m.locals[total],
        wasm_meaning::can_copy(m, m.locals[src], m.locals[dst], m.locals[total]),
    ensures
        run_line(wasm_seq::copy_code(src, dst, total, k).subrange(4, 28), 0, m) == End::Jump(0, n),
        (n == Vm {
            locals: m.locals.insert(k, m.locals[k] + 1),
            mem: m.mem.insert(
                m.locals[dst] + 8 * m.locals[k],
                m.mem[m.locals[src] + 8 * m.locals[k]],
            ),
            ..m
        }),
{
    reveal(wasm_seq::copy_code);
    let v = wasm_seq::copy_code(src, dst, total, k).subrange(4, 28);
    let j = m.locals[k];
    let a = m.locals[src];
    let b = m.locals[dst];
    let here = b + 8 * j;
    let there = a + 8 * j;
    let word = m.mem[there];
    wasm_meaning::lemma_by_eight(j);
    wasm_meaning::do_get(v, 0, k, m);
    wasm_meaning::do_get(v, 1, total, pushed(m, j));
    wasm_meaning::do_test(v, 2, Test::LtU, j, m.locals[total], m);
    wasm_meaning::do_eqz32(v, 3, 1, m);
    wasm_meaning::do_stay(v, 4, 1, m);
    wasm_meaning::do_get(v, 5, dst, m);
    let mb = pushed(m, b);
    wasm_meaning::do_get(v, 6, k, mb);
    wasm_meaning::do_const(v, 7, 8, pushed(mb, j));
    wasm_meaning::do_arith(v, 8, Arith::Mul, j, 8, 8 * j, mb);
    wasm_meaning::do_arith(v, 9, Arith::Add, b, 8 * j, here, m);
    wasm_meaning::do_wrap(v, 10, here, m);
    let mh = pushed(m, here);
    wasm_meaning::do_get(v, 11, src, mh);
    let ma = pushed(mh, a);
    wasm_meaning::do_get(v, 12, k, ma);
    wasm_meaning::do_const(v, 13, 8, pushed(ma, j));
    wasm_meaning::do_arith(v, 14, Arith::Mul, j, 8, 8 * j, ma);
    wasm_meaning::do_arith(v, 15, Arith::Add, a, 8 * j, there, mh);
    wasm_meaning::do_wrap(v, 16, there, mh);
    wasm_meaning::do_load(v, 17, 0, WORD_ALIGN, MEMORY, there, mh);
    wasm_meaning::do_store(v, 18, 0, WORD_ALIGN, MEMORY, here, word, m);
    let m1 = Vm { mem: m.mem.insert(here, word), ..m };
    wasm_meaning::do_get(v, 19, k, m1);
    wasm_meaning::do_const(v, 20, 1, pushed(m1, j));
    wasm_meaning::do_arith(v, 21, Arith::Add, j, 1, j + 1, m1);
    wasm_meaning::do_put(v, 22, k, j + 1, m1);
    let n = Vm { locals: m.locals.insert(k, j + 1), ..m1 };
    wasm_meaning::do_jump(v, 23, 0, n);
    n
}

proof fn lemma_copy_turns(src: u32, dst: u32, total: u32, k: u32, m: Vm, turns: nat)
    requires
        m.locals.dom().contains(k),
        src != k,
        dst != k,
        total != k,
        0 <= m.locals[k] <= m.locals[total],
        turns >= m.locals[total] - m.locals[k],
        wasm_meaning::can_copy(m, m.locals[src], m.locals[dst], m.locals[total]),
    ensures
        run(
            Code::Loop(
                Box::new(Code::Line(wasm_seq::copy_code(src, dst, total, k).subrange(4, 28))),
            ),
            m,
            turns,
        ) == End::Jump(
            0,
            (Vm {
                locals: m.locals.insert(k, m.locals[total]),
                mem: copied(
                    m.mem,
                    m.locals[src],
                    m.locals[dst],
                    m.locals[k],
                    m.locals[total],
                ),
                ..m
            }),
        ),
    decreases m.locals[total] - m.locals[k],
{
    let body = wasm_seq::copy_code(src, dst, total, k).subrange(4, 28);
    let c = Code::Loop(Box::new(Code::Line(body)));
    let j = m.locals[k];
    if j == m.locals[total] {
        assert(m.locals =~= m.locals.insert(k, j));
        lemma_copy_last(src, dst, total, k, m);
        reveal_with_fuel(run, 2);
        assert(run(Code::Line(body), m, turns) == End::Jump(1, m));
    } else {
        let n = lemma_copy_turn(src, dst, total, k, m);
        lemma_copy_turns(src, dst, total, k, n, (turns - 1) as nat);
        assert(n.locals.insert(k, m.locals[total]) =~= m.locals.insert(k, m.locals[total]));
        reveal_with_fuel(run, 2);
        assert(run(Code::Line(body), m, turns) == End::Jump(0, n));
        assert(run(c, m, turns) == run(c, n, (turns - 1) as nat));
    }
}

proof fn lemma_copy_unmarked(src: u32, dst: u32, total: u32, k: u32)
    ensures
        wasm_meaning::unmarked(wasm_seq::copy_code(src, dst, total, k).subrange(4, 28)),
{
    reveal(wasm_seq::copy_code);
    let v = wasm_seq::copy_code(src, dst, total, k).subrange(4, 28);
    assert(v.len() == 24);
    assert forall|i: int| 0 <= i < 24 implies !wasm_meaning::is_mark(#[trigger] v[i]) by {
        if i < 8 {
            assert(i == 0 || i == 1 || i == 2 || i == 3 || i == 4 || i == 5 || i == 6 || i == 7);
        } else if i < 16 {
            assert(i == 8 || i == 9 || i == 10 || i == 11 || i == 12 || i == 13 || i == 14 || i == 15);
        } else {
            assert(i == 16 || i == 17 || i == 18 || i == 19 || i == 20 || i == 21 || i == 22 || i
                == 23);
        }
    }
}

/// The code that copies a block.
pub proof fn lemma_copy_words(src: u32, dst: u32, total: u32, s: TrSt, m: Vm, turns: nat) -> (n: Vm)
    requires
        s.next < u32::MAX,
        src < s.next,
        dst < s.next,
        total < s.next,
        turns >= m.locals[total],
        wasm_meaning::can_copy(m, m.locals[src], m.locals[dst], m.locals[total]),
    ensures
        ({
            let s1 = wasm_trans::copy_words_s(src, dst, total, s);
            &&& does(s, m, s1, n, turns)
            &&& s1.next == s.next + 1
            &&& n == Vm {
                locals: m.locals.insert(s.next, m.locals[total]),
                mem: copied(m.mem, m.locals[src], m.locals[dst], 0, m.locals[total]),
                ..m
            }
        }),
{
    let (k, s1) = wasm_trans::fresh(s);
    reveal(wasm_seq::copy_code);
    let code = wasm_seq::copy_code(src, dst, total, k);
    let start = code.subrange(0, 2);
    let body = code.subrange(4, 28);
    let turn = Code::Loop(Box::new(Code::Line(body)));
    let c = Code::Then(Box::new(Code::Line(start)), Box::new(Code::Block(Box::new(turn))));
    assert(wasm_meaning::flat(c) == code) by {
        reveal_with_fuel(wasm_meaning::flat, 5);
        assert(code.len() == 30);
        assert(code[2] == Inst::Region(Region::Block));
        assert(code[3] == Inst::Region(Region::Loop));
        assert(code[28] == Inst::Plain(Plain::End));
        assert(code[29] == Inst::Plain(Plain::End));
        assert(wasm_meaning::flat(c) =~= code);
    }
    let m1 = Vm { locals: m.locals.insert(k, 0), ..m };
    wasm_meaning::do_const(start, 0, 0, m);
    wasm_meaning::do_put(start, 1, k, 0, m);
    wasm_meaning::do_end(start, 2, m1);
    lemma_copy_turns(src, dst, total, k, m1, turns);
    let n = Vm {
        locals: m.locals.insert(k, m.locals[total]),
        mem: copied(m.mem, m.locals[src], m.locals[dst], 0, m.locals[total]),
        ..m
    };
    assert(m1.locals.insert(k, m.locals[total]) =~= n.locals);
    reveal_with_fuel(run, 3);
    assert(run(turn, m1, turns) == End::Jump(0, n));
    assert(run(c, m, turns) == End::Next(n));
    assert(wasm_meaning::proper(c)) by {
        reveal_with_fuel(wasm_meaning::proper, 5);
        wasm_meaning::lemma_unmarked(start, 0, m);
        lemma_copy_unmarked(src, dst, total, k);
    }
    wasm_meaning::lemma_code(s1, m, c, code, n, turns);
    assert(does(s, m, wasm_trans::em(s1, code), n, turns));
    n
}

/// The code that stores a local at a position of a block.
pub proof fn lemma_set_word(ptr: u32, i: u32, header: i64, x: u32, m: Vm)
    requires
        ok(m),
        header == 1 || header == 2,
        0 <= m.locals[ptr],
        m.locals[ptr] % 8 == 0,
        0 <= m.locals[i],
        m.locals[ptr] + 8 * (m.locals[i] + header + 1) <= m.heap,
    ensures
        run_line(wasm_seq::set_word_code(ptr, i, header, x), 0, m) == End::Next(
            (Vm {
                mem: m.mem.insert(
                    memory::word_at(m.locals[ptr], m.locals[i] + header),
                    m.locals[x],
                ),
                ..m
            }),
        ),
{
    reveal(wasm_seq::set_word_code);
    let v = wasm_seq::set_word_code(ptr, i, header, x);
    let p = m.locals[ptr];
    let k = m.locals[i];
    let a = p + 8 * (k + header);
    let mp = pushed(m, p);
    wasm_meaning::lemma_by_eight(k + header);
    wasm_meaning::do_get(v, 0, ptr, m);
    wasm_meaning::do_get(v, 1, i, mp);
    wasm_meaning::do_const(v, 2, header, pushed(mp, k));
    wasm_meaning::do_arith(v, 3, Arith::Add, k, header as int, k + header, mp);
    wasm_meaning::do_const(v, 4, 8, pushed(mp, k + header));
    wasm_meaning::do_arith(v, 5, Arith::Mul, k + header, 8, 8 * (k + header), mp);
    wasm_meaning::do_arith(v, 6, Arith::Add, p, 8 * (k + header), a, m);
    wasm_meaning::do_wrap(v, 7, a, m);
    wasm_meaning::do_get(v, 8, x, pushed(m, a));
    wasm_meaning::do_store(v, 9, 0, WORD_ALIGN, MEMORY, a, m.locals[x], m);
    wasm_meaning::do_end(v, 10, Vm { mem: m.mem.insert(a, m.locals[x]), ..m });
}

/// A copied array with one word stored over is the array with that member changed.
proof fn lemma_changed(mem: Memory, p: int, o: int, items: Seq<Value>, i: int, word: int, x: Value) -> (end: Memory)
    requires
        o % 8 == 0,
        0 <= o,
        memory::stored(mem, o, p, Value::Array(items)),
        memory::stored(mem, o, word, x),
        0 <= i < items.len(),
    ensures
        end == copied(mem, p, o, 0, items.len() as int + 1).insert(
            memory::word_at(o, i + 1),
            word,
        ),
        memory::stored(
            end,
            memory::word_at(o, items.len() as int + 1),
            o,
            Value::Array(items.update(i, x)),
        ),
        forall|a: int| a < o ==> #[trigger] end[a] == mem[a],
{
    let n = items.len() as int + 1;
    let top = memory::word_at(o, n);
    let whole = copied(mem, p, o, 0, n);
    wasm_meaning::lemma_copied(mem, p, o, 0, n);
    let end = whole.insert(memory::word_at(o, i + 1), word);
    let now = items.update(i, x);
    assert(memory::word_at(o, 0) == o && memory::word_at(p, 0) == p);
    assert(whole[memory::word_at(o, 0)] == mem[memory::word_at(p, 0)]);
    assert forall|a: int| a < o implies #[trigger] end[a] == mem[a] by {
        assert(whole[a] == mem[a]);
    }
    assert forall|k: int| 0 <= k < now.len() implies memory::stored(
        end,
        top,
        end[#[trigger] memory::word_at(o, k + 1)],
        now[k],
    ) by {
        if k == i {
            memory::lemma_stored_kept(mem, o, end, top, word, x);
        } else {
            assert(whole[memory::word_at(o, k + 1)] == mem[memory::word_at(p, k + 1)]);
            assert(memory::stored(mem, o, mem[memory::word_at(p, k + 1)], items[k]));
            memory::lemma_stored_kept(
                mem,
                o,
                end,
                top,
                mem[memory::word_at(p, k + 1)],
                items[k],
            );
        }
    }
    end
}

/// The code that makes room for a copy of an array.
pub open spec fn copy_room_s(cx: CxView, ptr: u32, i: u32, s: TrSt) -> (TrSt, u32, u32) {
    let (total, s1) = wasm_trans::fresh(wasm_trans::bounds_s(cx, ptr, i, s));
    let (new, s2) = wasm_trans::bump_dyn_s(
        total,
        wasm_trans::em(s1, wasm_seq::len_plus_code(ptr, 1, total)),
    );
    (s2, total, new)
}

proof fn lemma_copy_room(cx: CxView, ptr: u32, i: u32, s: TrSt, m: Vm, len: int, turns: nat) -> (n: Vm)
    requires
        ok(m),
        s.next + 6 <= u32::MAX,
        ptr < s.next,
        i < s.next,
        0 <= m.locals[ptr],
        m.locals[ptr] % 8 == 0,
        m.locals[ptr] + 8 <= m.heap,
        m.mem[m.locals[ptr]] == len,
        0 <= m.locals[i] < len < 0x1_0000_0000,
        m.heap + 8 * (len + 1) <= m.limit * 65536,
    ensures
        ({
            let (s1, total, new) = copy_room_s(cx, ptr, i, s);
            &&& goes(s, m, s1, n, turns)
            &&& total == s.next
            &&& new == s.next + 1
            &&& s1.next == s.next + 6
            &&& n.stack == m.stack
            &&& n.mem == m.mem
            &&& n.locals[total] == len + 1
            &&& n.locals[new] == m.heap
            &&& n.heap == m.heap + 8 * (len + 1)
        }),
{
    wasm_blocks::lemma_bounds(cx, ptr, i, s, m, turns);
    let s0 = wasm_trans::bounds_s(cx, ptr, i, s);
    let (total, s1) = wasm_trans::fresh(s0);
    reveal(wasm_seq::len_plus_code);
    let v = wasm_seq::len_plus_code(ptr, 1, total);
    let w = m.locals[ptr];
    let m1 = Vm { locals: m.locals.insert(total, len + 1), ..m };
    wasm_meaning::do_get(v, 0, ptr, m);
    wasm_meaning::do_wrap(v, 1, w, m);
    wasm_meaning::do_load(v, 2, 0, WORD_ALIGN, MEMORY, w, m);
    wasm_meaning::do_const(v, 3, 1, pushed(m, len));
    wasm_meaning::do_arith(v, 4, Arith::Add, len, 1, len + 1, m);
    wasm_meaning::do_put(v, 5, total, len + 1, m);
    wasm_meaning::do_end(v, 6, m1);
    wasm_meaning::lemma_line(s1, m, v, m1, turns);
    let s2 = wasm_trans::em(s1, v);
    assert(does(s0, m, s2, m1, turns));
    wasm_meaning::lemma_does_then(s, m, s0, m, s2, m1, turns);
    let n = wasm_meaning::lemma_bump_dyn(total, s2, m1, turns);
    let s3 = wasm_trans::bump_dyn_s(total, s2).1;
    wasm_meaning::lemma_does_then(s, m, s2, m1, s3, n, turns);
    assert(n.locals[total] == m1.locals[total]);
    n
}

/// Changing a member of an array, with the check of its position or without: the code
/// leaves the address of a block that stands for the array with that member changed. The
/// old array, and all else in memory, is as it was.
#[verifier::rlimit(60)]
pub proof fn lemma_code_of_a_changed_member(
    cx: CxView,
    base: AtomView,
    index: AtomView,
    value: AtomView,
    s: TrSt,
    m: Vm,
    vals: Seq<Value>,
    items: Seq<Value>,
    i: int,
    x: Value,
    turns: nat,
) -> (n: Vm)
    requires
        ok(m),
        s.next + 20 <= u32::MAX,
        env_means(s.env, vals, m, s.next),
        is_plain(base, s.env),
        is_plain(index, s.env),
        is_plain(value, s.env),
        core_meaning::atom_value(base, vals, false) == Some(Value::Array(items)),
        core_meaning::atom_value(index, vals, false) == Some(Value::Int(i)),
        core_meaning::atom_value(value, vals, false) == Some(x),
        0 <= i < items.len(),
        m.heap + 8 * (items.len() + 1) <= m.limit * 65536,
        turns >= items.len() + 1,
    ensures
        wasm_ops::index_set_s(cx, base, index, value, s) matches Ok((OutView::Stack, s1)) && goes(
            s,
            m,
            s1,
            n,
            turns,
        ) && n.stack == pushed(m, m.heap).stack && memory::stored(
            n.mem,
            n.heap,
            m.heap,
            Value::Array(items.update(i, x)),
        ),
{
    let m1 = wasm_blocks::lemma_three_words(
        cx,
        base,
        index,
        value,
        s,
        m,
        vals,
        Value::Array(items),
        Value::Int(i),
        x,
        turns,
    );
    let ((p, q, r), s1) = wasm_ops::words3_s(cx, base, index, value, s)->Ok_0;
    let w = m1.locals[p];
    let word = m1.locals[r];
    let len = items.len() as int;
    let m2 = lemma_copy_room(cx, p, q, s1, m1, len, turns);
    let (s2, total, new) = copy_room_s(cx, p, q, s1);
    wasm_meaning::lemma_goes_then(s, m, s1, m1, s2, m2, turns);
    let o = m.heap;
    assert(m2.locals[p] == w && m2.locals[q] == i && m2.locals[r] == word);
    let m3 = lemma_copy_words(p, new, total, s2, m2, turns);
    let s3 = wasm_trans::copy_words_s(p, new, total, s2);
    wasm_meaning::lemma_does_then(s, m, s2, m2, s3, m3, turns);
    let end = lemma_changed(m.mem, w, o, items, i, word, x);
    lemma_set_word(new, q, 1, r, m3);
    let code = wasm_seq::set_word_code(new, q, 1, r);
    let m4 = Vm { mem: end, ..m3 };
    wasm_meaning::lemma_line(s3, m3, code, m4, turns);
    let s4 = wasm_trans::em(s3, code);
    wasm_meaning::lemma_does_then(s, m, s3, m3, s4, m4, turns);
    wasm_sound::lemma_get(new, s4, m4, turns);
    let n = pushed(m4, o);
    wasm_meaning::lemma_does_then(
        s,
        m,
        s4,
        m4,
        wasm_trans::em(s4, wasm_seq::get_code(new)),
        n,
        turns,
    );
    n
}

// ---- lists of scalars -------------------------------------------------------------------------------

/// Whether every member is a scalar, so that no member has a block of its own.
pub open spec fn flat_members(v: Seq<Value>) -> bool {
    forall|i: int| 0 <= i < v.len() ==> core_meaning::word_of(#[trigger] v[i]) is Some
}

/// A list of scalars with one word stored over is the list with that member changed.
proof fn lemma_list_changed(mem: Memory, top: int, w: int, v: Seq<Value>, i: int, word: int, x: Value)
    requires
        memory::stored(mem, top, w, Value::List(v)),
        flat_members(v),
        core_meaning::word_of(x) == Some(word),
        0 <= i < v.len(),
    ensures
        memory::stored(
            mem.insert(memory::word_at(w, i + 2), word),
            top,
            w,
            Value::List(v.update(i, x)),
        ),
{
    let end = mem.insert(memory::word_at(w, i + 2), word);
    let now = v.update(i, x);
    assert forall|k: int| 0 <= k < now.len() implies memory::stored(
        end,
        top,
        end[#[trigger] memory::word_at(w, k + 2)],
        now[k],
    ) by {
        if k == i {
            memory::lemma_scalar(end, top, word, x);
        } else {
            assert(memory::stored(mem, top, mem[memory::word_at(w, k + 2)], v[k]));
            memory::lemma_scalar(mem, top, mem[memory::word_at(w, k + 2)], v[k]);
            memory::lemma_scalar(end, top, mem[memory::word_at(w, k + 2)], v[k]);
        }
    }
}

/// A list of scalars with its length one less is the list without its last member.
proof fn lemma_list_shortened(mem: Memory, top: int, w: int, v: Seq<Value>)
    requires
        memory::stored(mem, top, w, Value::List(v)),
        flat_members(v),
        v.len() > 0,
    ensures
        memory::stored(mem.insert(w, v.len() - 1), top, w, Value::List(v.drop_last())),
{
    let end = mem.insert(w, v.len() - 1);
    let now = v.drop_last();
    assert forall|k: int| 0 <= k < now.len() implies memory::stored(
        end,
        top,
        end[#[trigger] memory::word_at(w, k + 2)],
        now[k],
    ) by {
        assert(memory::stored(mem, top, mem[memory::word_at(w, k + 2)], v[k]));
        memory::lemma_scalar(mem, top, mem[memory::word_at(w, k + 2)], v[k]);
        memory::lemma_scalar(end, top, mem[memory::word_at(w, k + 2)], v[k]);
    }
}

/// Setting a member of a list of scalars changes that list in its place: the code leaves
/// its address, the block there stands for the list with the member changed, and no other
/// word of memory has changed.
pub proof fn lemma_code_of_a_set_member(
    cx: CxView,
    list: AtomView,
    index: AtomView,
    value: AtomView,
    s: TrSt,
    m: Vm,
    vals: Seq<Value>,
    v: Seq<Value>,
    i: int,
    x: Value,
    turns: nat,
) -> (n: Vm)
    requires
        ok(m),
        s.next + 20 <= u32::MAX,
        env_means(s.env, vals, m, s.next),
        is_plain(list, s.env),
        is_plain(index, s.env),
        is_plain(value, s.env),
        core_meaning::atom_value(list, vals, false) == Some(Value::List(v)),
        core_meaning::atom_value(index, vals, false) == Some(Value::Int(i)),
        core_meaning::atom_value(value, vals, false) == Some(x),
        flat_members(v),
        core_meaning::word_of(x) is Some,
        0 <= i < v.len(),
    ensures
        wasm_ops::list_set_s(cx, list, index, value, s) matches Ok((OutView::Stack, s1)) && does(
            s,
            m,
            s1,
            n,
            turns,
        ) && (n.stack matches wasm_meaning::Stack::On(w, rest) && *rest == m.stack && memory::stored(
            m.mem,
            m.heap,
            w,
            Value::List(v),
        ) && memory::stored(n.mem, n.heap, w, Value::List(v.update(i, x))) && forall|a: int|
            a != memory::word_at(w, i + 2) ==> #[trigger] n.mem[a] == m.mem[a]),
{
    let m1 = wasm_blocks::lemma_three_words(
        cx,
        list,
        index,
        value,
        s,
        m,
        vals,
        Value::List(v),
        Value::Int(i),
        x,
        turns,
    );
    let ((p, q, r), s1) = wasm_ops::words3_s(cx, list, index, value, s)->Ok_0;
    let w = m1.locals[p];
    let word = m1.locals[r];
    memory::lemma_scalar(m.mem, m.heap, word, x);
    wasm_blocks::lemma_bounds(cx, p, q, s1, m1, turns);
    let s2 = wasm_trans::bounds_s(cx, p, q, s1);
    wasm_meaning::lemma_does_then(s, m, s1, m1, s2, m1, turns);
    lemma_set_word(p, q, 2, r, m1);
    let code = wasm_seq::set_word_code(p, q, 2, r);
    let m2 = Vm { mem: m1.mem.insert(memory::word_at(w, i + 2), word), ..m1 };
    wasm_meaning::lemma_line(s2, m1, code, m2, turns);
    let s3 = wasm_trans::em(s2, code);
    wasm_meaning::lemma_does_then(s, m, s2, m1, s3, m2, turns);
    lemma_list_changed(m.mem, m.heap, w, v, i, word, x);
    wasm_sound::lemma_get(p, s3, m2, turns);
    let n = pushed(m2, w);
    wasm_meaning::lemma_does_then(
        s,
        m,
        s3,
        m2,
        wasm_trans::em(s3, wasm_seq::get_code(p)),
        n,
        turns,
    );
    n
}

/// Taking the last member off a list of scalars changes that list in its place: the code
/// leaves its address, the block there stands for the list without its last member, and
/// no other word of memory has changed.
pub proof fn lemma_code_of_a_shortened_list(
    cx: CxView,
    list: AtomView,
    s: TrSt,
    m: Vm,
    vals: Seq<Value>,
    v: Seq<Value>,
    turns: nat,
) -> (n: Vm)
    requires
        ok(m),
        s.next + 20 <= u32::MAX,
        env_means(s.env, vals, m, s.next),
        is_plain(list, s.env),
        core_meaning::atom_value(list, vals, false) == Some(Value::List(v)),
        flat_members(v),
        v.len() > 0,
    ensures
        wasm_ops::list_pop_s(cx, list, s) matches Ok((OutView::Stack, s1)) && does(s, m, s1, n, turns)
            && (n.stack matches wasm_meaning::Stack::On(w, rest) && *rest == m.stack
            && memory::stored(m.mem, m.heap, w, Value::List(v)) && memory::stored(
            n.mem,
            n.heap,
            w,
            Value::List(v.drop_last()),
        ) && forall|a: int| a != w ==> #[trigger] n.mem[a] == m.mem[a]),
{
    let m1 = wasm_sound::lemma_word_local(cx, list, s, m, vals, Value::List(v), turns);
    let (p, s1) = wasm_trans::word_local_s(cx, list, s)->Ok_0;
    let w = m1.locals[p];
    let len = v.len() as int;
    let m2 = wasm_meaning::lemma_const_local(0, s1, m1, turns);
    let (zero, s2) = wasm_trans::const_local_s(0, s1);
    wasm_meaning::lemma_goes_then(s, m, s1, m1, s2, m2, turns);
    wasm_blocks::lemma_bounds(cx, p, zero, s2, m2, turns);
    let s3 = wasm_trans::bounds_s(cx, p, zero, s2);
    wasm_meaning::lemma_does_then(s, m, s2, m2, s3, m2, turns);
    let m3 = wasm_meaning::lemma_load_word(p, 0, s3, m2, turns);
    let (l, s4) = wasm_trans::load_word_s(p, 0, s3);
    wasm_meaning::lemma_does_then(s, m, s3, m2, s4, m3, turns);
    reveal(wasm_seq::store_minus_code);
    let code = wasm_seq::store_minus_code(p, l, 1);
    let m4 = Vm { mem: m3.mem.insert(w, len - 1), ..m3 };
    let mw = pushed(m3, w);
    wasm_meaning::do_get(code, 0, p, m3);
    wasm_meaning::do_wrap(code, 1, w, m3);
    wasm_meaning::do_get(code, 2, l, mw);
    wasm_meaning::do_const(code, 3, 1, pushed(mw, len));
    wasm_meaning::do_arith(code, 4, Arith::Sub, len, 1, len - 1, mw);
    wasm_meaning::do_store(code, 5, 0, WORD_ALIGN, MEMORY, w, len - 1, m3);
    wasm_meaning::do_end(code, 6, m4);
    wasm_meaning::lemma_line(s4, m3, code, m4, turns);
    let s5 = wasm_trans::em(s4, code);
    wasm_meaning::lemma_does_then(s, m, s4, m3, s5, m4, turns);
    lemma_list_shortened(m.mem, m.heap, w, v);
    wasm_sound::lemma_get(p, s5, m4, turns);
    let n = pushed(m4, w);
    wasm_meaning::lemma_does_then(
        s,
        m,
        s5,
        m4,
        wasm_trans::em(s5, wasm_seq::get_code(p)),
        n,
        turns,
    );
    n
}

} // verus!
