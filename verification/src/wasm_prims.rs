//! The code of a primitive, a cast or a projection leaves the word of its value.
use vstd::prelude::*;

use crate::cl_meaning;
use crate::core_meaning;
use crate::core_meaning::{Outcome, Value};
use crate::ir::{AtomView, IntTy, LiteralView, PrimOp, TypeView};
use crate::memory;
use crate::wasm_code::{Arith, Test, MEMORY, WORD_ALIGN};
use crate::wasm_meaning;
use crate::wasm_meaning::{arith_word, does, flag, goes, ok, pushed, run_line, End, Vm};
use crate::wasm_ops;
use crate::wasm_seq;
use crate::wasm_sound;
use crate::wasm_sound::{env_means, is_plain, slot_means};
use crate::wasm_trans;
use crate::wasm_trans::{ArgValView, CxView, OutView, SlotView, TrSt};

verus! {

// ---- operands ---------------------------------------------------------------------------------------

/// The code that puts the word of an atom on the stack.
pub proof fn lemma_push_atom(a: AtomView, s: TrSt, m: Vm, vals: Seq<Value>, v: Value, turns: nat) -> (w: int)
    requires
        env_means(s.env, vals, m, s.next),
        is_plain(a, s.env),
        core_meaning::atom_value(a, vals, false) == Some(v),
        v != Value::Unit,
    ensures
        wasm_trans::atom_arg(s.env, a) matches Ok(x) && x != ArgValView::Unit && does(
            s,
            m,
            wasm_trans::push_arg_s(x, s),
            pushed(m, w),
            turns,
        ) && wasm_trans::push_arg_s(x, s).next == s.next && wasm_trans::push_arg_s(x, s).env == s.env
            && wasm_trans::push_arg_s(x, s).tys == s.tys,
        memory::stored(m.mem, m.heap, w, v),
{
    match a {
        AtomView::Lit(LiteralView::Int(k)) => {
            wasm_sound::lemma_const(k, s, m, turns);
            k as int
        },
        AtomView::Lit(LiteralView::Bool(b)) => {
            wasm_sound::lemma_const(wasm_trans::truth(b), s, m, turns);
            wasm_trans::truth(b) as int
        },
        AtomView::Lit(LiteralView::Char(c)) => {
            wasm_sound::lemma_const(wasm_trans::code_point(c), s, m, turns);
            wasm_trans::code_point(c) as int
        },
        AtomView::Var(i) => {
            let x = s.env[s.env.len() - 1 - i];
            assert(slot_means(x, vals[vals.len() - 1 - i], m, s.next));
            match x {
                SlotView::Local(j) => {
                    wasm_sound::lemma_get(j, s, m, turns);
                    m.locals[j]
                },
                _ => 0,
            }
        },
        _ => 0,
    }
}

/// A stack changes nothing of what the variables stand for.
pub proof fn lemma_env_under(env: Seq<SlotView>, vals: Seq<Value>, m: Vm, w: int, k: u32)
    requires
        env_means(env, vals, m, k),
        ok(m),
    ensures
        env_means(env, vals, pushed(m, w), k),
        ok(pushed(m, w)),
{
    wasm_sound::lemma_env_kept(env, vals, m, pushed(m, w), k, k);
}

/// Whether the arguments of a primitive are atoms that stand for these values.
pub open spec fn operands(args: Seq<AtomView>, vs: Seq<Value>, env: Seq<SlotView>, vals: Seq<Value>) -> bool {
    &&& vs.len() == args.len()
    &&& forall|i: int|
        0 <= i < args.len() ==> is_plain(#[trigger] args[i], env) && core_meaning::atom_value(
            args[i],
            vals,
            false,
        ) == Some(vs[i]) && vs[i] != Value::Unit
}

/// One operand.
proof fn lemma_one_operand(args: Seq<AtomView>, s: TrSt, m: Vm, vals: Seq<Value>, vs: Seq<Value>, turns: nat) -> (w:
    int)
    requires
        ok(m),
        env_means(s.env, vals, m, s.next),
        args.len() == 1,
        operands(args, vs, s.env, vals),
    ensures
        wasm_trans::atom_args(s.env, args, args.len()) matches Ok(v) && v.len() == 1
            && !wasm_ops::has_unit(v) && does(
            s,
            m,
            wasm_trans::push_args_s(v, v.len(), s),
            pushed(m, w),
            turns,
        ) && wasm_trans::push_args_s(v, v.len(), s).next == s.next && wasm_trans::push_args_s(
            v,
            v.len(),
            s,
        ).env == s.env,
        memory::stored(m.mem, m.heap, w, vs[0]),
{
    reveal_with_fuel(wasm_trans::atom_args, 3);
    reveal_with_fuel(wasm_trans::push_args_s, 3);
    let a0 = args[0];
    let w = lemma_push_atom(a0, s, m, vals, vs[0], turns);
    let x = wasm_trans::atom_arg(s.env, a0)->Ok_0;
    let v = Seq::<ArgValView>::empty().push(x);
    assert(v[0] == x);
    assert(wasm_trans::atom_args(s.env, args, 1)->Ok_0 == v);
    assert(wasm_trans::push_args_s(v, 1, s) == wasm_trans::push_arg_s(x, s));
    w
}

/// Two operands, the first below the second.
pub proof fn lemma_two_operands(args: Seq<AtomView>, s: TrSt, m: Vm, vals: Seq<Value>, vs: Seq<Value>, turns: nat) -> (w:
    (int, int))
    requires
        ok(m),
        env_means(s.env, vals, m, s.next),
        args.len() == 2,
        operands(args, vs, s.env, vals),
    ensures
        wasm_trans::atom_args(s.env, args, args.len()) matches Ok(v) && v.len() == 2
            && !wasm_ops::has_unit(v) && does(
            s,
            m,
            wasm_trans::push_args_s(v, v.len(), s),
            pushed(pushed(m, w.0), w.1),
            turns,
        ) && wasm_trans::push_args_s(v, v.len(), s).next == s.next && wasm_trans::push_args_s(
            v,
            v.len(),
            s,
        ).env == s.env,
        memory::stored(m.mem, m.heap, w.0, vs[0]),
        memory::stored(m.mem, m.heap, w.1, vs[1]),
{
    reveal_with_fuel(wasm_trans::atom_args, 4);
    reveal_with_fuel(wasm_trans::push_args_s, 4);
    let (a0, a1) = (args[0], args[1]);
    let w0 = lemma_push_atom(a0, s, m, vals, vs[0], turns);
    let x = wasm_trans::atom_arg(s.env, a0)->Ok_0;
    let s1 = wasm_trans::push_arg_s(x, s);
    let m1 = pushed(m, w0);
    lemma_env_under(s.env, vals, m, w0, s.next);
    let w1 = lemma_push_atom(a1, s1, m1, vals, vs[1], turns);
    let y = wasm_trans::atom_arg(s.env, a1)->Ok_0;
    let s2 = wasm_trans::push_arg_s(y, s1);
    let v = Seq::<ArgValView>::empty().push(x).push(y);
    assert(v[0] == x && v[1] == y);
    assert(wasm_trans::atom_args(s.env, args, 1)->Ok_0 == Seq::<ArgValView>::empty().push(x));
    assert(wasm_trans::atom_args(s.env, args, 2)->Ok_0 == v);
    assert(wasm_trans::push_args_s(v, 1, s) == s1);
    assert(wasm_trans::push_args_s(v, 2, s) == s2);
    wasm_meaning::lemma_does_then(s, m, s1, m1, s2, pushed(m1, w1), turns);
    (w0, w1)
}

// ---- operations on the stack ------------------------------------------------------------------------

/// The code of a primitive on two words.
#[verifier::rlimit(60)]
proof fn lemma_code_on_two_words(op: PrimOp, m: Vm, x: Value, y: Value, z: Value)
    requires
        cl_meaning::scalar(x),
        cl_meaning::scalar(y),
        core_meaning::binary_value(op, x, y) == Outcome::Value(z),
    ensures
        core_meaning::word_of(z) matches Some(w) && run_line(
            wasm_ops::op_code(op),
            0,
            pushed(pushed(m, core_meaning::word_of(x)->0), core_meaning::word_of(y)->0),
        ) == End::Next(pushed(m, w)),
{
    let a = core_meaning::word_of(x)->0;
    let b = core_meaning::word_of(y)->0;
    let w = core_meaning::word_of(z)->0;
    let v = wasm_ops::op_code(op);
    if op == PrimOp::And || op == PrimOp::Or {
        cl_meaning::lemma_bits(a as i64, b as i64);
    }
    match op {
        PrimOp::Add | PrimOp::Sub | PrimOp::Mul | PrimOp::Div | PrimOp::Rem | PrimOp::And
        | PrimOp::Or => {
            let code = match op {
                PrimOp::Add => Arith::Add,
                PrimOp::Sub => Arith::Sub,
                PrimOp::Mul => Arith::Mul,
                PrimOp::Div => Arith::DivS,
                PrimOp::Rem => Arith::RemS,
                PrimOp::And => Arith::And,
                _ => Arith::Or,
            };
            assert(arith_word(code, a, b) == Some(w));
            wasm_meaning::do_arith(v, 0, code, a, b, w, m);
            wasm_meaning::do_end(v, 1, pushed(m, w));
        },
        _ => {
            let test = match op {
                PrimOp::Eq => Test::Eq,
                PrimOp::Ne => Test::Ne,
                PrimOp::Lt => Test::LtS,
                PrimOp::Le => Test::LeS,
                PrimOp::Gt => Test::GtS,
                _ => Test::GeS,
            };
            wasm_meaning::do_test(v, 0, test, a, b, m);
            wasm_meaning::do_extend(v, 1, flag(wasm_meaning::test_holds(test, a, b)), m);
            wasm_meaning::do_end(v, 2, pushed(m, w));
        },
    }
}

/// The code of a primitive on one word.
proof fn lemma_code_on_one_word(op: PrimOp, m: Vm, x: Value, z: Value)
    requires
        cl_meaning::scalar(x),
        core_meaning::unary_value(op, x) == Outcome::Value(z),
    ensures
        core_meaning::word_of(z) matches Some(w) && run_line(
            wasm_ops::op_code(op),
            0,
            pushed(m, core_meaning::word_of(x)->0),
        ) == End::Next(pushed(m, w)),
{
    reveal(wasm_seq::not_code);
    reveal(wasm_seq::neg_code);
    let a = core_meaning::word_of(x)->0;
    let w = core_meaning::word_of(z)->0;
    let v = wasm_ops::op_code(op);
    if op == PrimOp::Not {
        cl_meaning::lemma_bits(a as i64, 0);
        wasm_meaning::do_const(v, 0, 1, pushed(m, a));
        wasm_meaning::do_arith(v, 1, Arith::Xor, a, 1, w, m);
    } else {
        assert(a * -1 == -a) by (nonlinear_arith);
        wasm_meaning::do_const(v, 0, wasm_seq::MINUS_ONE, pushed(m, a));
        wasm_meaning::do_arith(v, 1, Arith::Mul, a, -1, w, m);
    }
    wasm_meaning::do_end(v, 2, pushed(m, w));
}

/// The code of a primitive on one or two scalars leaves the word of the value that the
/// core calculus gives it.
#[verifier::rlimit(40)]
pub proof fn lemma_code_of_a_primitive(
    cx: CxView,
    op: PrimOp,
    args: Seq<AtomView>,
    s: TrSt,
    m: Vm,
    vals: Seq<Value>,
    vs: Seq<Value>,
    z: Value,
    turns: nat,
) -> (n: Vm)
    requires
        ok(m),
        env_means(s.env, vals, m, s.next),
        args.len() == 1 || args.len() == 2,
        operands(args, vs, s.env, vals),
        forall|i: int| 0 <= i < vs.len() ==> cl_meaning::scalar(#[trigger] vs[i]),
        !wasm_ops::is_str_atom(cx, args[0], s),
        core_meaning::prim_value(op, vs) == Outcome::Value(z),
    ensures
        wasm_ops::prim_s(cx, op, args, s) matches Ok((OutView::Stack, s1)) && goes(s, m, s1, n, turns)
            && core_meaning::word_of(z) is Some && n == pushed(m, core_meaning::word_of(z)->0),
{
    assert(cl_meaning::scalar(vs[0]));
    let w = core_meaning::word_of(z)->0;
    let v = wasm_trans::atom_args(s.env, args, args.len())->Ok_0;
    let s1 = wasm_trans::push_args_s(v, v.len(), s);
    let code = wasm_ops::op_code(op);
    let n = pushed(m, w);
    if args.len() == 1 {
        let w0 = lemma_one_operand(args, s, m, vals, vs, turns);
        memory::lemma_scalar(m.mem, m.heap, w0, vs[0]);
        lemma_code_on_one_word(op, m, vs[0], z);
        wasm_meaning::lemma_line(s1, pushed(m, w0), code, n, turns);
        wasm_meaning::lemma_does_then(
            s,
            m,
            s1,
            pushed(m, w0),
            wasm_trans::em(s1, code),
            n,
            turns,
        );
    } else {
        assert(cl_meaning::scalar(vs[1]));
        let (w0, w1) = lemma_two_operands(args, s, m, vals, vs, turns);
        memory::lemma_scalar(m.mem, m.heap, w0, vs[0]);
        memory::lemma_scalar(m.mem, m.heap, w1, vs[1]);
        lemma_code_on_two_words(op, m, vs[0], vs[1], z);
        let m1 = pushed(pushed(m, w0), w1);
        wasm_meaning::lemma_line(s1, m1, code, n, turns);
        wasm_meaning::lemma_does_then(s, m, s1, m1, wasm_trans::em(s1, code), n, turns);
    }
    n
}

/// The code of a length loads the first word of the block of what has it.
pub proof fn lemma_code_of_a_length(
    cx: CxView,
    args: Seq<AtomView>,
    s: TrSt,
    m: Vm,
    vals: Seq<Value>,
    vs: Seq<Value>,
    z: Value,
    turns: nat,
) -> (n: Vm)
    requires
        ok(m),
        env_means(s.env, vals, m, s.next),
        args.len() == 1,
        operands(args, vs, s.env, vals),
        core_meaning::prim_value(PrimOp::Len, vs) == Outcome::Value(z),
    ensures
        wasm_ops::prim_s(cx, PrimOp::Len, args, s) matches Ok((OutView::Stack, s1)) && goes(
            s,
            m,
            s1,
            n,
            turns,
        ) && core_meaning::word_of(z) is Some && n == pushed(m, core_meaning::word_of(z)->0),
{
    reveal(wasm_seq::len_code);
    let x = vs[0];
    let w0 = lemma_one_operand(args, s, m, vals, vs, turns);
    match x {
        Value::Str(t) => core_meaning::lemma_members_of_a_string(t),
        _ => {},
    }
    let v = wasm_trans::atom_args(s.env, args, args.len())->Ok_0;
    let s1 = wasm_trans::push_args_s(v, v.len(), s);
    let code = wasm_ops::op_code(PrimOp::Len);
    let n = pushed(m, m.mem[w0]);
    wasm_meaning::do_wrap(code, 0, w0, m);
    wasm_meaning::do_load(code, 1, 0, WORD_ALIGN, MEMORY, w0, m);
    wasm_meaning::do_end(code, 2, n);
    wasm_meaning::lemma_line(s1, pushed(m, w0), code, n, turns);
    wasm_meaning::lemma_does_then(s, m, s1, pushed(m, w0), wasm_trans::em(s1, code), n, turns);
    n
}

// ---- casts and projections --------------------------------------------------------------------------

/// The code that cuts a word to fewer bits.
proof fn lemma_narrow(t: IntTy, m: Vm, x: int)
    requires
        core_meaning::is_word(x),
    ensures
        run_line(wasm_ops::narrow_code(t), 0, pushed(m, x)) == End::Next(
            pushed(m, core_meaning::as_int_ty(x, t)),
        ),
{
    let v = wasm_ops::narrow_code(t);
    let w = core_meaning::as_int_ty(x, t);
    if cl_meaning::spare_bits(t) > 0 {
        reveal(wasm_seq::narrow_signed_code);
        reveal(wasm_seq::narrow_unsigned_code);
        cl_meaning::lemma_shifts(x, t);
        let k = cl_meaning::spare_bits(t);
        let up = core_meaning::wrap(x * vstd::arithmetic::power2::pow2(k as nat) as int);
        wasm_meaning::do_const(v, 0, k, pushed(m, x));
        wasm_meaning::do_arith(v, 1, Arith::Shl, x, k as int, up, m);
        wasm_meaning::do_const(v, 2, k, pushed(m, up));
        if cl_meaning::is_signed(t) {
            wasm_meaning::do_arith(v, 3, Arith::ShrS, up, k as int, w, m);
        } else {
            wasm_meaning::do_arith(v, 3, Arith::ShrU, up, k as int, w, m);
        }
        wasm_meaning::do_end(v, 4, pushed(m, w));
    } else {
        wasm_meaning::do_end(v, 0, pushed(m, x));
    }
}

/// The code of a cast leaves the word of the cast value.
pub proof fn lemma_code_of_a_cast(
    a: AtomView,
    to: TypeView,
    s: TrSt,
    m: Vm,
    vals: Seq<Value>,
    x: Value,
    z: Value,
    turns: nat,
) -> (n: Vm)
    requires
        ok(m),
        env_means(s.env, vals, m, s.next),
        is_plain(a, s.env),
        core_meaning::atom_value(a, vals, false) == Some(x),
        x != Value::Unit,
        cl_meaning::scalar(x),
        core_meaning::cast_value(x, to) == Outcome::Value(z),
    ensures
        wasm_ops::cast_s(a, to, s) matches Ok((OutView::Stack, s1)) && goes(s, m, s1, n, turns)
            && core_meaning::word_of(z) is Some && n == pushed(m, core_meaning::word_of(z)->0),
{
    let w0 = lemma_push_atom(a, s, m, vals, x, turns);
    memory::lemma_scalar(m.mem, m.heap, w0, x);
    let s1 = wasm_trans::push_arg_s(wasm_trans::atom_arg(s.env, a)->Ok_0, s);
    let m1 = pushed(m, w0);
    let n = pushed(m, core_meaning::word_of(z)->0);
    match to {
        TypeView::Int(t) => {
            lemma_narrow(t, m, w0);
            let code = wasm_ops::narrow_code(t);
            wasm_meaning::lemma_line(s1, m1, code, n, turns);
            wasm_meaning::lemma_does_then(s, m, s1, m1, wasm_trans::em(s1, code), n, turns);
        },
        TypeView::Bool => {
            reveal(wasm_seq::truth_code);
            let code = wasm_seq::truth_code();
            wasm_meaning::do_const(code, 0, 0, m1);
            wasm_meaning::do_test(code, 1, Test::Ne, w0, 0, m);
            wasm_meaning::do_extend(code, 2, flag(w0 != 0), m);
            wasm_meaning::do_end(code, 3, n);
            wasm_meaning::lemma_line(s1, m1, code, n, turns);
            wasm_meaning::lemma_does_then(s, m, s1, m1, wasm_trans::em(s1, code), n, turns);
        },
        _ => {},
    }
    n
}

/// A field of a struct or a variant: what is left, on the stack or held, stands for it.
pub proof fn lemma_code_of_a_field(
    base: AtomView,
    idx: u32,
    s: TrSt,
    m: Vm,
    vals: Seq<Value>,
    ty: Seq<u8>,
    tag: u32,
    fields: Seq<Value>,
    turns: nat,
) -> (n: Vm)
    requires
        ok(m),
        env_means(s.env, vals, m, s.next),
        base is Var,
        core_meaning::atom_value(base, vals, false) == Some(Value::Data { ty, tag, fields }),
        idx < fields.len(),
    ensures
        wasm_ops::proj_s(base, idx, s) matches Ok((out, s1)) && goes(s, m, s1, n, turns) && match out {
            OutView::Stack => n.stack matches wasm_meaning::Stack::On(w, rest) && *rest == m.stack
                && memory::stored(n.mem, n.heap, w, fields[idx as int]),
            OutView::Held(x) => n == m && slot_means(x, fields[idx as int], n, s1.next),
            OutView::Returned => false,
        },
{
    wasm_meaning::lemma_does_nothing(s, m, turns);
    let i = base->Var_0;
    let x = s.env[s.env.len() - 1 - i];
    assert(slot_means(x, vals[vals.len() - 1 - i], m, s.next));
    match x {
        SlotView::Local(l) => {
            reveal(wasm_seq::load_code);
            let at = wasm_trans::word_at(idx as nat);
            let code = wasm_seq::load_code(l, at);
            let w = m.locals[l];
            assert(at == 8 * (idx + 1));
            assert(memory::stored(
                m.mem,
                m.heap,
                m.mem[memory::word_at(w, idx + 1)],
                fields[idx as int],
            ));
            let n = pushed(m, m.mem[w + at]);
            wasm_meaning::do_get(code, 0, l, m);
            wasm_meaning::do_wrap(code, 1, w, m);
            wasm_meaning::do_load(code, 2, at, WORD_ALIGN, MEMORY, w, m);
            wasm_meaning::do_end(code, 3, n);
            wasm_meaning::lemma_line(s, m, code, n, turns);
            n
        },
        SlotView::Tuple { tag: t, fields: fs } => {
            assert(slot_means(fs[idx as int], fields[idx as int], m, s.next));
            match fs[idx as int] {
                SlotView::Local(l) => {
                    wasm_sound::lemma_get(l, s, m, turns);
                    pushed(m, m.locals[l])
                },
                _ => m,
            }
        },
        _ => m,
    }
}

} // verus!
