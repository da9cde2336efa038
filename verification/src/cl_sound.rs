//! What the plans of the native backend refer to: to nothing that is not there.
use vstd::prelude::*;

use crate::cl;
use crate::cl_code;
use crate::cl_code::{Binary, ClSt, CodegenErrorView, RegValue, Relation, StepView, WithImm};
use crate::cl_eval;
use crate::cl_eval::ClCxView;
use crate::cl_jit;
use crate::cl_jit::{Built, CODE_LIMIT, LinksView, PARAM_LIMIT, TRAP_CODE};
use crate::find;
use crate::ir::{AtomView, BranchView, CoreView, DefView, LiteralView, PrimOp, TypeView};
use crate::wasm;
use crate::wasm::PickView;
use crate::wasm_eval;
use crate::wasm_trans;
use crate::world;
use crate::world::WorldView;

verus! {

// ---- plans -------------------------------------------------------------------------------------------

/// How many values a step of a plan makes.
pub open spec fn gains(x: StepView) -> nat {
    match x {
        StepView::Param(_) => 1,
        StepView::Alloc(_) => 1,
        StepView::Call(_, _) => 1,
        _ => cl_jit::values_by(x),
    }
}

/// How many values the steps make.
pub open spec fn gained(v: Seq<StepView>) -> nat
    decreases v.len(),
{
    if v.len() == 0 {
        0
    } else {
        gained(v.drop_last()) + gains(v.last())
    }
}

/// How many blocks the steps make.
pub open spec fn forked(v: Seq<StepView>) -> nat
    decreases v.len(),
{
    if v.len() == 0 {
        0
    } else {
        forked(v.drop_last()) + if v.last() == StepView::Block {
            1nat
        } else {
            0nat
        }
    }
}

/// How many parameters the steps give a block.
pub open spec fn params_in(v: Seq<StepView>, b: u32) -> nat
    decreases v.len(),
{
    if v.len() == 0 {
        0
    } else {
        params_in(v.drop_last(), b) + if v.last() == StepView::Param(b) {
            1nat
        } else {
            0nat
        }
    }
}

/// A function of a program: how many functions the program has, and how many
/// words this one takes.
pub struct Frame {
    pub fns: nat,
    pub words: nat,
}

/// A step refers to values, blocks and functions that are there.
pub open spec fn grounded(f: Frame, x: StepView, values: nat, blocks: nat) -> bool {
    &&& cl_jit::fits(x, values, blocks)
    &&& (x matches StepView::Call(i, _) ==> i < f.fns)
}

/// Every step refers to what the function starts with and to what earlier steps
/// have made.
pub open spec fn refers_back(f: Frame, v: Seq<StepView>) -> bool
    decreases v.len(),
{
    v.len() == 0 || {
        &&& refers_back(f, v.drop_last())
        &&& grounded(
            f,
            v.last(),
            f.words + gained(v.drop_last()),
            1 + forked(v.drop_last()),
        )
    }
}

/// A plan that the code generator has room for.
pub open spec fn has_room(f: Frame, v: Seq<StepView>) -> bool {
    &&& f.words + v.len() + 1 <= CODE_LIMIT
    &&& f.words <= PARAM_LIMIT
    &&& forall|b: u32|
        (#[trigger] params_in(v, b)) + if b == 0 {
            f.words
        } else {
            0
        } <= PARAM_LIMIT
}

proof fn lemma_gained(v: Seq<StepView>)
    ensures
        gained(v) + forked(v) <= v.len(),
    decreases v.len(),
{
    if v.len() > 0 {
        lemma_gained(v.drop_last());
    }
}

proof fn lemma_params_grow(v: Seq<StepView>, n: nat, b: u32)
    requires
        n <= v.len(),
    ensures
        params_in(v.take(n as int), b) <= params_in(v, b),
    decreases v.len(),
{
    if n < v.len() {
        lemma_params_grow(v.drop_last(), n, b);
        assert(v.drop_last().take(n as int) =~= v.take(n as int));
    } else {
        assert(v.take(n as int) =~= v);
    }
}

proof fn lemma_refers_prefix(f: Frame, v: Seq<StepView>, n: nat)
    requires
        n <= v.len(),
        refers_back(f, v),
    ensures
        refers_back(f, v.take(n as int)),
    decreases v.len(),
{
    if n < v.len() {
        lemma_refers_prefix(f, v.drop_last(), n);
        assert(v.drop_last().take(n as int) =~= v.take(n as int));
    } else {
        assert(v.take(n as int) =~= v);
    }
}

proof fn lemma_code_push(c: Seq<Built>, x: Built)
    ensures
        cl_jit::values_of(c.push(x)) == cl_jit::values_of(c) + cl_jit::made_by(x),
        cl_jit::blocks_of(c.push(x)) == cl_jit::blocks_of(c) + if x == Built::Block {
            1nat
        } else {
            0nat
        },
        forall|b: u32| #[trigger]
            cl_jit::params_of(c.push(x), b) == cl_jit::params_of(c, b) + if x == Built::Param(b) {
                1nat
            } else {
                0nat
            },
{
    assert(c.push(x).drop_last() =~= c);
}

proof fn lemma_opening_counts(n: nat)
    ensures
        cl_jit::opening(n).at == 0,
        cl_jit::opening(n).code.len() == n + 1,
        cl_jit::values_of(cl_jit::opening(n).code) == n,
        cl_jit::blocks_of(cl_jit::opening(n).code) == 1,
        forall|b: u32| #[trigger]
            cl_jit::params_of(cl_jit::opening(n).code, b) == if b == 0 {
                n
            } else {
                0
            },
    decreases n,
{
    if n == 0 {
        let c = Seq::<Built>::empty();
        lemma_code_push(c, Built::Block);
        assert(cl_jit::opening(0).code =~= c.push(Built::Block));
    } else {
        lemma_opening_counts((n - 1) as nat);
        lemma_code_push(cl_jit::opening((n - 1) as nat).code, Built::Param(0));
    }
}

proof fn lemma_placed(l: LinksView, f: Frame, v: Seq<StepView>, n: nat)
    requires
        n <= v.len(),
        f.fns == l.ids.len(),
        refers_back(f, v),
        has_room(f, v),
    ensures
        match cl_jit::places_s(l, v, n, cl_jit::opening(f.words)) {
            Some(s) => {
                &&& s.code.len() <= f.words + 1 + n
                &&& cl_jit::values_of(s.code) == f.words + gained(v.take(n as int))
                &&& cl_jit::blocks_of(s.code) == 1 + forked(v.take(n as int))
                &&& forall|b: u32| #[trigger]
                    cl_jit::params_of(s.code, b) == params_in(v.take(n as int), b) + if b == 0 {
                        f.words
                    } else {
                        0
                    }
            },
            None => false,
        },
    decreases n,
{
    lemma_opening_counts(f.words);
    if n == 0 {
        assert(v.take(0) =~= Seq::empty());
    } else {
        lemma_placed(l, f, v, (n - 1) as nat);
        let s = cl_jit::places_s(l, v, (n - 1) as nat, cl_jit::opening(f.words))->0;
        let x = v[n - 1];
        lemma_refers_prefix(f, v, n);
        assert(v.take(n as int).drop_last() =~= v.take(n - 1));
        assert(v.take(n as int).last() == x);
        match x {
            StepView::Param(b) => {
                lemma_params_grow(v, n, b);
                assert(params_in(v, b) + if b == 0 {
                    f.words
                } else {
                    0
                } <= PARAM_LIMIT);
                lemma_code_push(s.code, Built::Param(b));
            },
            StepView::Block => {
                lemma_code_push(s.code, Built::Block);
            },
            StepView::Switch(_) => {},
            StepView::Seal(_) => {},
            StepView::Trap => {
                lemma_code_push(s.code, Built::Trap(s.at, TRAP_CODE));
            },
            StepView::Call(i, args) => {
                lemma_code_push(s.code, Built::Call(s.at, l.ids[i as int], args, 1));
            },
            StepView::Alloc(k) => {
                lemma_code_push(s.code, Built::Call(s.at, l.alloc, seq![k], 1));
            },
            StepView::BoundsFail(i, k) => {
                lemma_code_push(s.code, Built::Call(s.at, l.fail, seq![i, k], 0));
            },
            _ => {
                lemma_code_push(s.code, Built::Inst(s.at, x));
            },
        }
    }
}

/// A plan whose steps refer back can be carried out, if there is room for it.
proof fn lemma_a_grounded_plan_is_well_formed(l: LinksView, words: usize, v: Seq<StepView>)
    requires
        refers_back((Frame { fns: l.ids.len(), words: words as nat }), v),
        has_room((Frame { fns: l.ids.len(), words: words as nat }), v),
    ensures
        cl_jit::code_s(l, words, v) is Some,
{
    lemma_placed(l, Frame { fns: l.ids.len(), words: words as nat }, v, v.len());
}

// ---- states ------------------------------------------------------------------------------------------

/// The steps so far are few enough for their values and blocks to have numbers.
pub open spec fn small(f: Frame, s: ClSt) -> bool {
    f.words + s.steps.len() + 1 <= CODE_LIMIT
}

/// The value is there.
pub open spec fn has(f: Frame, s: ClSt, v: u32) -> bool {
    small(f, s) ==> v < s.values
}

/// The values are there.
pub open spec fn has_all(f: Frame, s: ClSt, v: Seq<u32>) -> bool {
    small(f, s) ==> cl_jit::all_below(v, s.values as nat)
}

/// The block is there.
pub open spec fn has_block(f: Frame, s: ClSt, b: u32) -> bool {
    small(f, s) ==> b < s.blocks
}

/// What a register refers to is there, of so many values.
pub open spec fn reg_below(x: RegValue, n: nat) -> bool
    decreases x,
{
    match x {
        RegValue::Val(v) => v < n,
        RegValue::Unit => true,
        RegValue::Partial { func, got } => regs_below(got, n),
        RegValue::Tuple { tag, fields } => regs_below(fields, n),
    }
}

/// What registers refer to is there.
pub open spec fn regs_below(v: Seq<RegValue>, n: nat) -> bool
    decreases v,
{
    forall|i: int|
        #![trigger v[i]]
        if 0 <= i < v.len() {
            reg_below(v[i], n)
        } else {
            true
        }
}

/// What a register refers to is there.
pub open spec fn has_reg(f: Frame, s: ClSt, x: RegValue) -> bool {
    small(f, s) ==> reg_below(x, s.values as nat)
}

/// What registers refer to is there.
pub open spec fn has_regs(f: Frame, s: ClSt, v: Seq<RegValue>) -> bool {
    small(f, s) ==> regs_below(v, s.values as nat)
}

/// A step that can follow.
pub open spec fn can(f: Frame, s: ClSt, x: StepView) -> bool {
    small(f, s) ==> grounded(f, x, s.values as nat, s.blocks as nat)
}

/// The numbers of values and of blocks are those that the steps make, and the steps
/// refer back.
#[verifier::opaque]
pub open spec fn tidy(f: Frame, s: ClSt) -> bool {
    small(f, s) ==> {
        &&& s.values == f.words + gained(s.steps)
        &&& s.blocks == 1 + forked(s.steps)
        &&& refers_back(f, s.steps)
    }
}

/// What a state of the compilation keeps.
pub open spec fn sound(f: Frame, s: ClSt) -> bool {
    &&& tidy(f, s)
    &&& has_regs(f, s, s.env)
}

/// Nothing is lost.
pub open spec fn grows(f: Frame, s: ClSt, t: ClSt) -> bool {
    &&& s.steps.len() <= t.steps.len()
    &&& small(f, t) ==> s.values <= t.values && s.blocks <= t.blocks
}

pub open spec fn kept(f: Frame, s: ClSt, t: ClSt) -> bool {
    sound(f, t) && grows(f, s, t)
}

pub open spec fn state_kept(f: Frame, s: ClSt, r: Result<ClSt, CodegenErrorView>) -> bool {
    r matches Ok(t) ==> kept(f, s, t)
}

pub open spec fn word_kept(f: Frame, s: ClSt, r: Result<(u32, ClSt), CodegenErrorView>) -> bool {
    r matches Ok((v, t)) ==> kept(f, s, t) && has(f, t, v)
}

pub open spec fn words_kept(
    f: Frame,
    s: ClSt,
    r: Result<(Seq<u32>, ClSt), CodegenErrorView>,
) -> bool {
    r matches Ok((v, t)) ==> kept(f, s, t) && has_all(f, t, v)
}

pub open spec fn reg_kept(
    f: Frame,
    s: ClSt,
    r: Result<(RegValue, ClSt), CodegenErrorView>,
) -> bool {
    r matches Ok((x, t)) ==> kept(f, s, t) && has_reg(f, t, x)
}

pub open spec fn regs_kept(
    f: Frame,
    s: ClSt,
    r: Result<(Seq<RegValue>, ClSt), CodegenErrorView>,
) -> bool {
    r matches Ok((v, t)) ==> kept(f, s, t) && has_regs(f, t, v)
}

proof fn lemma_reg_up(x: RegValue, a: nat, b: nat)
    requires
        a <= b,
        reg_below(x, a),
    ensures
        reg_below(x, b),
    decreases x,
{
    match x {
        RegValue::Partial { func, got } => lemma_regs_up(got, a, b),
        RegValue::Tuple { tag, fields } => lemma_regs_up(fields, a, b),
        _ => {},
    }
}

proof fn lemma_regs_up(v: Seq<RegValue>, a: nat, b: nat)
    requires
        a <= b,
        regs_below(v, a),
    ensures
        regs_below(v, b),
    decreases v,
{
    assert forall|i: int| #![trigger v[i]] 0 <= i < v.len() implies reg_below(v[i], b) by {
        lemma_reg_up(v[i], a, b);
    }
}

proof fn lemma_reg_stays(f: Frame, s: ClSt, t: ClSt, x: RegValue)
    requires
        grows(f, s, t),
        has_reg(f, s, x),
    ensures
        has_reg(f, t, x),
{
    if small(f, t) {
        lemma_reg_up(x, s.values as nat, t.values as nat);
    }
}

proof fn lemma_regs_stay(f: Frame, s: ClSt, t: ClSt, v: Seq<RegValue>)
    requires
        grows(f, s, t),
        has_regs(f, s, v),
    ensures
        has_regs(f, t, v),
{
    if small(f, t) {
        lemma_regs_up(v, s.values as nat, t.values as nat);
    }
}

proof fn lemma_steps_push(f: Frame, v: Seq<StepView>, x: StepView)
    ensures
        gained(v.push(x)) == gained(v) + gains(x),
        forked(v.push(x)) == forked(v) + if x == StepView::Block {
            1nat
        } else {
            0nat
        },
        refers_back(f, v.push(x)) == (refers_back(f, v) && grounded(
            f,
            x,
            f.words + gained(v),
            1 + forked(v),
        )),
{
    assert(v.push(x).drop_last() =~= v);
}

proof fn lemma_act(f: Frame, s: ClSt, x: StepView)
    requires
        sound(f, s),
        gains(x) == 0,
        x != StepView::Block,
        can(f, s, x),
    ensures
        kept(f, s, cl_code::act(s, x)),
{
    reveal(tidy);
    lemma_steps_push(f, s.steps, x);
}

proof fn lemma_gain(f: Frame, s: ClSt, x: StepView)
    requires
        sound(f, s),
        gains(x) == 1,
        can(f, s, x),
    ensures
        kept(f, s, cl_code::gain(s, x).1),
        has(f, cl_code::gain(s, x).1, cl_code::gain(s, x).0),
{
    reveal(tidy);
    let t = cl_code::gain(s, x).1;
    lemma_steps_push(f, s.steps, x);
    lemma_gained(s.steps);
    if small(f, t) {
        assert(t.values == s.values + 1);
        lemma_regs_up(s.env, s.values as nat, t.values as nat);
    }
}

proof fn lemma_fork(f: Frame, s: ClSt)
    requires
        sound(f, s),
    ensures
        kept(f, s, cl_code::fork(s).1),
        has_block(f, cl_code::fork(s).1, cl_code::fork(s).0),
{
    reveal(tidy);
    lemma_steps_push(f, s.steps, StepView::Block);
    lemma_gained(s.steps);
}

proof fn lemma_at_sealed(f: Frame, s: ClSt, b: u32)
    requires
        sound(f, s),
        has_block(f, s, b),
    ensures
        kept(f, s, cl_code::at_sealed(s, b)),
{
    let s1 = cl_code::act(s, StepView::Switch(b));
    lemma_act(f, s, StepView::Switch(b));
    lemma_act(f, s1, StepView::Seal(b));
}

// ---- values ------------------------------------------------------------------------------------------

proof fn lemma_reg_word(f: Frame, x: RegValue, s: ClSt)
    requires
        sound(f, s),
        has_reg(f, s, x),
    ensures
        word_kept(f, s, cl_code::reg_word_s(x, s)),
    decreases x, 1nat, 0nat,
{
    match x {
        RegValue::Val(v) => {},
        RegValue::Unit => lemma_gain(f, s, StepView::Const(0)),
        RegValue::Partial { func, got } => {},
        RegValue::Tuple { tag, fields } => {
            let size = StepView::Const(cl_code::block_words(fields.len()));
            let (n, s1) = cl_code::gain(s, size);
            lemma_gain(f, s, size);
            let (base, s2) = cl_code::gain(s1, StepView::Alloc(n));
            lemma_gain(f, s1, StepView::Alloc(n));
            let (t, s3) = cl_code::gain(s2, StepView::Const(tag as i64));
            lemma_gain(f, s2, StepView::Const(tag as i64));
            let s4 = cl_code::act(s3, StepView::Store(t, base, 0));
            lemma_act(f, s3, StepView::Store(t, base, 0));
            lemma_regs_stay(f, s, s4, fields);
            lemma_reg_fields(f, fields, fields.len(), base, s4);
        },
    }
}

proof fn lemma_reg_fields(f: Frame, fields: Seq<RegValue>, n: nat, base: u32, s: ClSt)
    requires
        sound(f, s),
        has_regs(f, s, fields),
        has(f, s, base),
    ensures
        state_kept(f, s, cl_code::reg_fields_s(fields, n, base, s)),
    decreases fields, 0nat, n,
{
    if n == 0 || n > fields.len() {
    } else {
        lemma_reg_fields(f, fields, (n - 1) as nat, base, s);
        match cl_code::reg_fields_s(fields, (n - 1) as nat, base, s) {
            Ok(s1) => {
                let x = fields[n - 1];
                lemma_reg_stays(f, s, s1, x);
                lemma_reg_word(f, x, s1);
                match cl_code::reg_word_s(x, s1) {
                    Ok((w, s2)) => {
                        let put = StepView::Store(
                            w,
                            base,
                            cl_code::field_at_offset((n - 1) as nat),
                        );
                        lemma_act(f, s2, put);
                    },
                    Err(_) => {},
                }
            },
            Err(_) => {},
        }
    }
}

proof fn lemma_reg_words(f: Frame, v: Seq<RegValue>, n: nat, s: ClSt)
    requires
        sound(f, s),
        has_regs(f, s, v),
        n <= v.len(),
    ensures
        words_kept(f, s, cl_code::reg_words_s(v, n, s)),
    decreases n,
{
    if n > 0 {
        lemma_reg_words(f, v, (n - 1) as nat, s);
        match cl_code::reg_words_s(v, (n - 1) as nat, s) {
            Ok((out, s1)) => {
                lemma_reg_stays(f, s, s1, v[n - 1]);
                lemma_reg_word(f, v[n - 1], s1);
            },
            Err(_) => {},
        }
    }
}

proof fn lemma_reg_atom(f: Frame, cx: ClCxView, a: AtomView, s: ClSt)
    requires
        sound(f, s),
    ensures
        reg_kept(f, s, cl_eval::reg_atom_s(cx, a, s)),
{
    match a {
        AtomView::Lit(LiteralView::Bool(b)) => lemma_gain(
            f,
            s,
            StepView::Const(wasm_trans::truth(b)),
        ),
        AtomView::Lit(LiteralView::Int(n)) => lemma_gain(f, s, StepView::Const(n)),
        AtomView::Lit(LiteralView::Char(c)) => lemma_gain(
            f,
            s,
            StepView::Const(wasm_trans::code_point(c)),
        ),
        _ => {},
    }
}

proof fn lemma_reg_atoms(f: Frame, cx: ClCxView, v: Seq<AtomView>, n: nat, s: ClSt)
    requires
        sound(f, s),
    ensures
        regs_kept(f, s, cl_eval::reg_atoms_s(cx, v, n, s)),
    decreases n,
{
    if n > 0 {
        lemma_reg_atoms(f, cx, v, (n - 1) as nat, s);
        match cl_eval::reg_atoms_s(cx, v, (n - 1) as nat, s) {
            Ok((out, s1)) => {
                lemma_reg_atom(f, cx, v[n - 1], s1);
                match cl_eval::reg_atom_s(cx, v[n - 1], s1) {
                    Ok((x, s2)) => lemma_regs_stay(f, s1, s2, out),
                    Err(_) => {},
                }
            },
            Err(_) => {},
        }
    }
}

proof fn lemma_atom_word(f: Frame, cx: ClCxView, a: AtomView, s: ClSt)
    requires
        sound(f, s),
    ensures
        word_kept(f, s, cl_eval::atom_word_s(cx, a, s)),
{
    reveal(cl_eval::atom_word_s);
    lemma_reg_atom(f, cx, a, s);
    match cl_eval::reg_atom_s(cx, a, s) {
        Ok((x, s1)) => lemma_reg_word(f, x, s1),
        Err(_) => {},
    }
}

proof fn lemma_atom_words(f: Frame, cx: ClCxView, v: Seq<AtomView>, n: nat, s: ClSt)
    requires
        sound(f, s),
    ensures
        words_kept(f, s, cl_eval::atom_words_s(cx, v, n, s)),
    decreases n,
{
    if n > 0 {
        lemma_atom_words(f, cx, v, (n - 1) as nat, s);
        match cl_eval::atom_words_s(cx, v, (n - 1) as nat, s) {
            Ok((out, s1)) => lemma_atom_word(f, cx, v[n - 1], s1),
            Err(_) => {},
        }
    }
}

proof fn lemma_call_words(f: Frame, got: Seq<RegValue>, params: Seq<TypeView>, n: nat, s: ClSt)
    requires
        sound(f, s),
        has_regs(f, s, got),
        n <= got.len(),
    ensures
        words_kept(f, s, cl_eval::call_words_s(got, params, n, s)),
    decreases n,
{
    if n > 0 {
        lemma_call_words(f, got, params, (n - 1) as nat, s);
        match cl_eval::call_words_s(got, params, (n - 1) as nat, s) {
            Ok((out, s1)) => {
                lemma_reg_stays(f, s, s1, got[n - 1]);
                lemma_reg_word(f, got[n - 1], s1);
            },
            Err(_) => {},
        }
    }
}

/// The frame of a function that is compiled in a context.
pub open spec fn framed(f: Frame, cx: ClCxView) -> bool {
    cx.fns.len() == f.fns && f.fns <= usize::MAX
}

proof fn lemma_reg_apply(f: Frame, cx: ClCxView, x: RegValue, arg: RegValue, s: ClSt)
    requires
        framed(f, cx),
        sound(f, s),
        has_reg(f, s, x),
        has_reg(f, s, arg),
    ensures
        reg_kept(f, s, cl_eval::reg_apply_s(cx, x, arg, s)),
{
    match x {
        RegValue::Partial { func, got } => {
            let all = got.push(arg);
            assert(has_regs(f, s, all));
            match cl_eval::meta_pos(cx.fns, func) {
                Some(i) => {
                    find::lemma_last_below(cl_eval::is_meta(cx.fns, func), cx.fns.len() as int);
                    let params = cx.fns[i].params;
                    if all.len() >= params.len() {
                        let n = wasm_eval::both_len(all.len(), params.len());
                        lemma_call_words(f, all, params, n, s);
                        match cl_eval::call_words_s(all, params, n, s) {
                            Ok((v, s1)) => lemma_gain(f, s1, StepView::Call(i as usize, v)),
                            Err(_) => {},
                        }
                    }
                },
                None => {},
            }
        },
        _ => {},
    }
}

proof fn lemma_reg_app(f: Frame, cx: ClCxView, func: AtomView, arg: AtomView, s: ClSt)
    requires
        framed(f, cx),
        sound(f, s),
    ensures
        reg_kept(f, s, cl_eval::reg_app_s(cx, func, arg, s)),
{
    reveal(cl_eval::reg_app_s);
    lemma_reg_atom(f, cx, func, s);
    match cl_eval::reg_atom_s(cx, func, s) {
        Ok((x, s1)) => {
            lemma_reg_atom(f, cx, arg, s1);
            match cl_eval::reg_atom_s(cx, arg, s1) {
                Ok((a, s2)) => {
                    lemma_reg_stays(f, s1, s2, x);
                    lemma_reg_apply(f, cx, x, a, s2);
                },
                Err(_) => {},
            }
        },
        Err(_) => {},
    }
}

proof fn lemma_relate(f: Frame, r: Relation, a: u32, b: u32, s: ClSt)
    requires
        sound(f, s),
        has(f, s, a),
        has(f, s, b),
    ensures
        word_kept(f, s, Ok(cl_eval::relate_s(r, a, b, s))),
{
    let (c, s1) = cl_code::gain(s, StepView::Compare(r, a, b));
    lemma_gain(f, s, StepView::Compare(r, a, b));
    lemma_gain(f, s1, StepView::Widen(c));
}

proof fn lemma_check(f: Frame, checks: bool, ptr: u32, i: u32, s: ClSt)
    requires
        sound(f, s),
        has(f, s, ptr),
        has(f, s, i),
    ensures
        kept(f, s, cl_eval::check_s(checks, ptr, i, s)),
{
    if checks {
        let (len, s1) = cl_code::gain(s, StepView::Load(ptr, 0));
        lemma_gain(f, s, StepView::Load(ptr, 0));
        let below = StepView::Compare(Relation::UnsignedLess, i, len);
        let (ok, s2) = cl_code::gain(s1, below);
        lemma_gain(f, s1, below);
        let (pass, s3) = cl_code::fork(s2);
        lemma_fork(f, s2);
        let (fail, s4) = cl_code::fork(s3);
        lemma_fork(f, s3);
        let go = StepView::Branch(ok, pass, fail, Seq::empty());
        let s5 = cl_code::act(s4, go);
        lemma_act(f, s4, go);
        let s6 = cl_code::at_sealed(s5, fail);
        lemma_at_sealed(f, s5, fail);
        let s7 = cl_code::act(s6, StepView::BoundsFail(i, len));
        lemma_act(f, s6, StepView::BoundsFail(i, len));
        let s8 = cl_code::act(s7, StepView::Trap);
        lemma_act(f, s7, StepView::Trap);
        lemma_at_sealed(f, s8, pass);
    }
}

proof fn lemma_element(f: Frame, ptr: u32, i: u32, s: ClSt)
    requires
        sound(f, s),
        has(f, s, ptr),
        has(f, s, i),
    ensures
        word_kept(f, s, Ok(cl_eval::element_s(ptr, i, s))),
{
    let (plus, s1) = cl_code::gain(s, StepView::WithImm(WithImm::Add, i, 1));
    lemma_gain(f, s, StepView::WithImm(WithImm::Add, i, 1));
    let (off, s2) = cl_code::gain(s1, StepView::WithImm(WithImm::Mul, plus, 8));
    lemma_gain(f, s1, StepView::WithImm(WithImm::Mul, plus, 8));
    lemma_gain(f, s2, StepView::Binary(Binary::Add, ptr, off));
}

proof fn lemma_word_op(f: Frame, checks: bool, op: PrimOp, v: Seq<u32>, s: ClSt)
    requires
        sound(f, s),
        has_all(f, s, v),
    ensures
        word_kept(f, s, cl_eval::word_op_s(checks, op, v, s)),
{
    match op {
        PrimOp::Slice | PrimOp::FromChars => {},
        PrimOp::Not | PrimOp::Neg | PrimOp::Len => if v.len() >= 1 {
            assert(has(f, s, v[0]));
            match op {
                PrimOp::Not => lemma_gain(f, s, StepView::WithImm(WithImm::Xor, v[0], 1)),
                PrimOp::Neg => lemma_gain(f, s, StepView::Negate(v[0])),
                _ => lemma_gain(f, s, StepView::Load(v[0], 0)),
            }
        },
        _ => if v.len() >= 2 {
            assert(has(f, s, v[0]) && has(f, s, v[1]));
            match cl_eval::binary_of(op) {
                Some(b) => lemma_gain(f, s, StepView::Binary(b, v[0], v[1])),
                None => match cl_eval::relation_of(op) {
                    Some(r) => lemma_relate(f, r, v[0], v[1], s),
                    None => {
                        let s1 = cl_eval::check_s(checks, v[0], v[1], s);
                        lemma_check(f, checks, v[0], v[1], s);
                        let (addr, s2) = cl_eval::element_s(v[0], v[1], s1);
                        lemma_element(f, v[0], v[1], s1);
                        lemma_gain(f, s2, StepView::Load(addr, 0));
                    },
                },
            }
        },
    }
}

proof fn lemma_reg_prim(f: Frame, cx: ClCxView, op: PrimOp, args: Seq<AtomView>, s: ClSt)
    requires
        sound(f, s),
    ensures
        reg_kept(f, s, cl_eval::reg_prim_s(cx, op, args, s)),
{
    reveal(cl_eval::reg_prim_s);
    lemma_atom_words(f, cx, args, args.len(), s);
    match cl_eval::atom_words_s(cx, args, args.len(), s) {
        Ok((v, s1)) => lemma_word_op(f, cx.checks, op, v, s1),
        Err(_) => {},
    }
}

proof fn lemma_cut(f: Frame, v: u32, shift: i64, signed: bool, s: ClSt)
    requires
        sound(f, s),
        has(f, s, v),
    ensures
        word_kept(f, s, Ok(cl_eval::cut_s(v, shift, signed, s))),
{
    let (up, s1) = cl_code::gain(s, StepView::WithImm(WithImm::Shl, v, shift));
    lemma_gain(f, s, StepView::WithImm(WithImm::Shl, v, shift));
    lemma_gain(f, s1, StepView::WithImm(WithImm::ShrSigned, up, shift));
    lemma_gain(f, s1, StepView::WithImm(WithImm::ShrUnsigned, up, shift));
}

proof fn lemma_reg_cast(f: Frame, cx: ClCxView, value: AtomView, to: TypeView, s: ClSt)
    requires
        sound(f, s),
    ensures
        reg_kept(f, s, cl_eval::reg_cast_s(cx, value, to, s)),
{
    reveal(cl_eval::reg_cast_s);
    lemma_atom_word(f, cx, value, s);
    match cl_eval::atom_word_s(cx, value, s) {
        Ok((v, s1)) => match to {
            TypeView::Int(i) => {
                lemma_cut(f, v, 56, true, s1);
                lemma_cut(f, v, 48, true, s1);
                lemma_cut(f, v, 32, true, s1);
                lemma_cut(f, v, 56, false, s1);
                lemma_cut(f, v, 48, false, s1);
                lemma_cut(f, v, 32, false, s1);
            },
            TypeView::Bool => {
                let (zero, s2) = cl_code::gain(s1, StepView::Const(0));
                lemma_gain(f, s1, StepView::Const(0));
                lemma_relate(f, Relation::NotEqual, v, zero, s2);
            },
            _ => {},
        },
        Err(_) => {},
    }
}

proof fn lemma_reg_proj(f: Frame, cx: ClCxView, base: AtomView, idx: u32, s: ClSt)
    requires
        sound(f, s),
    ensures
        reg_kept(f, s, cl_eval::reg_proj_s(cx, base, idx, s)),
{
    reveal(cl_eval::reg_proj_s);
    lemma_reg_atom(f, cx, base, s);
    match cl_eval::reg_atom_s(cx, base, s) {
        Ok((RegValue::Tuple { tag, fields }, s1)) => if idx < fields.len() {
            assert(has_reg(f, s1, fields[idx as int]));
        },
        Ok((RegValue::Val(ptr), s1)) => lemma_gain(
            f,
            s1,
            StepView::Load(ptr, cl_code::field_at_offset(idx as nat)),
        ),
        _ => {},
    }
}

proof fn lemma_copy_loop(f: Frame, src: u32, dst: u32, total: u32, s: ClSt)
    requires
        sound(f, s),
        has(f, s, src),
        has(f, s, dst),
        has(f, s, total),
    ensures
        kept(f, s, cl_eval::copy_loop_s(src, dst, total, s)),
{
    let (header, s1) = cl_code::fork(s);
    lemma_fork(f, s);
    let (body, s2) = cl_code::fork(s1);
    lemma_fork(f, s1);
    let (exit, s3) = cl_code::fork(s2);
    lemma_fork(f, s2);
    let (k, s4) = cl_code::gain(s3, StepView::Param(header));
    lemma_gain(f, s3, StepView::Param(header));
    let (zero, s5) = cl_code::gain(s4, StepView::Const(0));
    lemma_gain(f, s4, StepView::Const(0));
    let enter = StepView::Jump(header, seq![zero]);
    let s6 = cl_code::act(s5, enter);
    lemma_act(f, s5, enter);
    let s7 = cl_code::act(s6, StepView::Switch(header));
    lemma_act(f, s6, StepView::Switch(header));
    let below = StepView::Compare(Relation::UnsignedLess, k, total);
    let (more, s8) = cl_code::gain(s7, below);
    lemma_gain(f, s7, below);
    let go = StepView::Branch(more, body, exit, Seq::empty());
    let s9 = cl_code::act(s8, go);
    lemma_act(f, s8, go);
    let s10 = cl_code::at_sealed(s9, body);
    lemma_at_sealed(f, s9, body);
    let (off, s11) = cl_code::gain(s10, StepView::WithImm(WithImm::Mul, k, 8));
    lemma_gain(f, s10, StepView::WithImm(WithImm::Mul, k, 8));
    let (from, s12) = cl_code::gain(s11, StepView::Binary(Binary::Add, src, off));
    lemma_gain(f, s11, StepView::Binary(Binary::Add, src, off));
    let (w, s13) = cl_code::gain(s12, StepView::Load(from, 0));
    lemma_gain(f, s12, StepView::Load(from, 0));
    let (to, s14) = cl_code::gain(s13, StepView::Binary(Binary::Add, dst, off));
    lemma_gain(f, s13, StepView::Binary(Binary::Add, dst, off));
    let s15 = cl_code::act(s14, StepView::Store(w, to, 0));
    lemma_act(f, s14, StepView::Store(w, to, 0));
    let (next, s16) = cl_code::gain(s15, StepView::WithImm(WithImm::Add, k, 1));
    lemma_gain(f, s15, StepView::WithImm(WithImm::Add, k, 1));
    let again = StepView::Jump(header, seq![next]);
    let s17 = cl_code::act(s16, again);
    lemma_act(f, s16, again);
    let s18 = cl_code::act(s17, StepView::Seal(header));
    lemma_act(f, s17, StepView::Seal(header));
    lemma_at_sealed(f, s18, exit);
}

proof fn lemma_reg_index_set(
    f: Frame,
    cx: ClCxView,
    base: AtomView,
    index: AtomView,
    value: AtomView,
    s: ClSt,
)
    requires
        sound(f, s),
    ensures
        reg_kept(f, s, cl_eval::reg_index_set_s(cx, base, index, value, s)),
{
    reveal(cl_eval::reg_index_set_s);
    lemma_atom_word(f, cx, base, s);
    match cl_eval::atom_word_s(cx, base, s) {
        Ok((ptr, s1)) => {
            lemma_atom_word(f, cx, index, s1);
            match cl_eval::atom_word_s(cx, index, s1) {
                Ok((i, s2)) => {
                    lemma_atom_word(f, cx, value, s2);
                    match cl_eval::atom_word_s(cx, value, s2) {
                        Ok((v, s3)) => {
                            let s4 = cl_eval::check_s(cx.checks, ptr, i, s3);
                            lemma_check(f, cx.checks, ptr, i, s3);
                            let (len, s5) = cl_code::gain(s4, StepView::Load(ptr, 0));
                            lemma_gain(f, s4, StepView::Load(ptr, 0));
                            let plus = StepView::WithImm(WithImm::Add, len, 1);
                            let (total, s6) = cl_code::gain(s5, plus);
                            lemma_gain(f, s5, plus);
                            let (new, s7) = cl_code::gain(s6, StepView::Alloc(total));
                            lemma_gain(f, s6, StepView::Alloc(total));
                            let s8 = cl_eval::copy_loop_s(ptr, new, total, s7);
                            lemma_copy_loop(f, ptr, new, total, s7);
                            let (addr, s9) = cl_eval::element_s(new, i, s8);
                            lemma_element(f, new, i, s8);
                            lemma_act(f, s9, StepView::Store(v, addr, 0));
                        },
                        Err(_) => {},
                    }
                },
                Err(_) => {},
            }
        },
        Err(_) => {},
    }
}

// ---- blocks ------------------------------------------------------------------------------------------

proof fn lemma_hold(f: Frame, s: ClSt, x: RegValue, t: Option<TypeView>)
    requires
        sound(f, s),
        has_reg(f, s, x),
    ensures
        kept(f, s, cl::hold(s, x, t)),
{
    reveal(tidy);
}

proof fn lemma_release(f: Frame, s: ClSt, n: nat)
    requires
        sound(f, s),
    ensures
        kept(f, s, cl::release(s, n)),
{
    reveal(tidy);
}

proof fn lemma_forks(f: Frame, n: nat, s: ClSt)
    requires
        sound(f, s),
    ensures
        kept(f, s, cl::forks(n, s).1),
        cl::forks(n, s).0.len() == n,
        forall|i: int| 0 <= i < n ==> has_block(f, cl::forks(n, s).1, #[trigger] cl::forks(n, s).0[i]),
    decreases n,
{
    if n > 0 {
        lemma_forks(f, (n - 1) as nat, s);
        lemma_fork(f, cl::forks((n - 1) as nat, s).1);
    }
}

proof fn lemma_hold_fields(f: Frame, ptr: u32, fields: Option<Seq<TypeView>>, n: nat, s: ClSt)
    requires
        sound(f, s),
        has(f, s, ptr),
    ensures
        kept(f, s, cl::hold_fields_s(ptr, fields, n, s)),
    decreases n,
{
    if n > 0 {
        lemma_hold_fields(f, ptr, fields, (n - 1) as nat, s);
        let s1 = cl::hold_fields_s(ptr, fields, (n - 1) as nat, s);
        let get = StepView::Load(ptr, cl_code::field_at_offset((n - 1) as nat));
        let (v, s2) = cl_code::gain(s1, get);
        lemma_gain(f, s1, get);
        lemma_hold(f, s2, RegValue::Val(v), wasm_eval::field_ty(fields, n - 1));
    }
}

proof fn lemma_table(f: Frame, tag: u32, n: nat, s: ClSt)
    requires
        sound(f, s),
        has(f, s, tag),
    ensures
        kept(f, s, cl::table_s(tag, n, s).1),
        cl::table_s(tag, n, s).0.len() == n,
        forall|i: int|
            0 <= i < n ==> has_block(
                f,
                cl::table_s(tag, n, s).1,
                #[trigger] cl::table_s(tag, n, s).0[i],
            ),
{
    reveal(cl::table_s);
    let (arms, s1) = cl::forks(n, s);
    lemma_forks(f, n, s);
    let (other, s2) = cl_code::fork(s1);
    lemma_fork(f, s1);
    let s3 = cl_code::act(s2, StepView::Table(tag, arms, other));
    lemma_act(f, s2, StepView::Table(tag, arms, other));
    let s4 = cl_code::at_sealed(s3, other);
    lemma_at_sealed(f, s3, other);
    lemma_act(f, s4, StepView::Trap);
}

proof fn lemma_tagged(f: Frame, cx: ClCxView, a: AtomView, s: ClSt)
    requires
        sound(f, s),
    ensures
        cl::tagged_s(cx, a, s) matches Ok(((ptr, tag), t)) ==> kept(f, s, t) && has(f, t, ptr)
            && has(f, t, tag),
{
    reveal(cl::tagged_s);
    lemma_atom_word(f, cx, a, s);
    match cl_eval::atom_word_s(cx, a, s) {
        Ok((ptr, s1)) => {
            let (wide, s2) = cl_code::gain(s1, StepView::Load(ptr, 0));
            lemma_gain(f, s1, StepView::Load(ptr, 0));
            lemma_gain(f, s2, StepView::Narrow(wide));
        },
        Err(_) => {},
    }
}

proof fn lemma_choose(f: Frame, cond: u32, yes: u32, no: u32, s: ClSt)
    requires
        sound(f, s),
        has(f, s, cond),
        has_block(f, s, yes),
        has_block(f, s, no),
    ensures
        kept(f, s, cl::choose_s(cond, yes, no, s)),
{
    reveal(cl::choose_s);
    let go = StepView::Branch(cond, yes, no, Seq::empty());
    lemma_act(f, s, go);
    lemma_at_sealed(f, cl_code::act(s, go), yes);
}

proof fn lemma_carried_params(f: Frame, header: u32, exit: u32, n: nat, s: ClSt)
    requires
        sound(f, s),
        has_block(f, s, header),
        has_block(f, s, exit),
    ensures
        ({
            let ((a, b), t) = cl::carried_params_s(header, exit, n, s);
            kept(f, s, t) && has_all(f, t, a) && has_all(f, t, b) && a.len() == n && b.len() == n
        }),
    decreases n,
{
    if n > 0 {
        lemma_carried_params(f, header, exit, (n - 1) as nat, s);
        let s1 = cl::carried_params_s(header, exit, (n - 1) as nat, s).1;
        lemma_gain(f, s1, StepView::Param(header));
        lemma_gain(f, cl_code::gain(s1, StepView::Param(header)).1, StepView::Param(exit));
    }
}

proof fn lemma_hold_carried(
    f: Frame,
    v: Seq<u32>,
    tys: Seq<Option<TypeView>>,
    n: nat,
    s: ClSt,
)
    requires
        sound(f, s),
        has_all(f, s, v),
        n <= v.len(),
    ensures
        kept(f, s, cl::hold_carried(v, tys, n, s)),
    decreases n,
{
    if n > 0 {
        lemma_hold_carried(f, v, tys, (n - 1) as nat, s);
        let s1 = cl::hold_carried(v, tys, (n - 1) as nat, s);
        lemma_hold(f, s1, RegValue::Val(v[n - 1]), tys[n - 1]);
    }
}

// ---- expressions -------------------------------------------------------------------------------------

proof fn lemma_eval(f: Frame, cx: ClCxView, c: CoreView, s: ClSt)
    requires
        framed(f, cx),
        sound(f, s),
    ensures
        reg_kept(f, s, cl::cl_eval_s(cx, c, s)),
    decreases c, 2nat, 0nat,
{
    match c {
        CoreView::Atom(a) => lemma_reg_atom(f, cx, a, s),
        CoreView::Let { value, body } => {
            lemma_eval(f, cx, *value, s);
            match cl::cl_eval_s(cx, *value, s) {
                Ok((x, s1)) => {
                    let t = world::type_of_s(cx.world, *value, s1.tys);
                    lemma_hold(f, s1, x, t);
                    lemma_eval(f, cx, *body, cl::hold(s1, x, t));
                    match cl::cl_eval_s(cx, *body, cl::hold(s1, x, t)) {
                        Ok((y, s2)) => lemma_release(f, s2, 1),
                        Err(_) => {},
                    }
                },
                Err(_) => {},
            }
        },
        CoreView::App { func, arg } => lemma_reg_app(f, cx, func, arg, s),
        CoreView::Prim { op, args } => lemma_reg_prim(f, cx, op, args, s),
        CoreView::Cast { value, to } => lemma_reg_cast(f, cx, value, to, s),
        CoreView::Match { scrutinee, branches } => lemma_match(f, cx, scrutinee, branches, s),
        CoreView::Ctor { ty, tag, fields } => lemma_reg_atoms(f, cx, fields, fields.len(), s),
        CoreView::Array { elem, items } => lemma_reg_atoms(f, cx, items, items.len(), s),
        CoreView::IndexSet { base, index, value } => lemma_reg_index_set(
            f,
            cx,
            base,
            index,
            value,
            s,
        ),
        CoreView::Proj { base, idx } => lemma_reg_proj(f, cx, base, idx, s),
        CoreView::Loop { .. } => lemma_loop(f, cx, c, s),
        CoreView::Ref { mutable, of } => lemma_reg_atom(f, cx, of, s),
        _ => {},
    }
}

proof fn lemma_word(f: Frame, cx: ClCxView, c: CoreView, s: ClSt)
    requires
        framed(f, cx),
        sound(f, s),
    ensures
        word_kept(f, s, cl::cl_word_s(cx, c, s)),
    decreases c, 3nat, 0nat,
{
    lemma_eval(f, cx, c, s);
    match cl::cl_eval_s(cx, c, s) {
        Ok((x, s1)) => lemma_reg_word(f, x, s1),
        Err(_) => {},
    }
}

proof fn lemma_match(
    f: Frame,
    cx: ClCxView,
    scrutinee: AtomView,
    branches: Seq<BranchView>,
    s: ClSt,
)
    requires
        framed(f, cx),
        sound(f, s),
    ensures
        reg_kept(f, s, cl::cl_match_s(cx, scrutinee, branches, s)),
    decreases branches, 2nat, 0nat,
{
    match cl::cl_block_type(cx, scrutinee, s) {
        Some(ty) => {
            lemma_tagged(f, cx, scrutinee, s);
            match cl::tagged_s(cx, scrutinee, s) {
                Ok(((ptr, tag), s1)) => {
                    let (merge, s2) = cl_code::fork(s1);
                    lemma_fork(f, s1);
                    let (result, s3) = cl_code::gain(s2, StepView::Param(merge));
                    lemma_gain(f, s2, StepView::Param(merge));
                    let (arms, s4) = cl::table_s(tag, branches.len(), s3);
                    lemma_table(f, tag, branches.len(), s3);
                    lemma_arms(f, cx, branches, branches.len(), arms, ptr, ty, merge, s4);
                    match cl::cl_arms_s(cx, branches, branches.len(), arms, ptr, ty, merge, s4) {
                        Ok(s5) => lemma_at_sealed(f, s5, merge),
                        Err(_) => {},
                    }
                },
                Err(_) => {},
            }
        },
        None => if wasm_eval::is_if(branches) {
            lemma_if(f, cx, scrutinee, branches, s);
        },
    }
}

proof fn lemma_if(
    f: Frame,
    cx: ClCxView,
    scrutinee: AtomView,
    branches: Seq<BranchView>,
    s: ClSt,
)
    requires
        framed(f, cx),
        sound(f, s),
    ensures
        reg_kept(f, s, cl::cl_if_s(cx, scrutinee, branches, s)),
    decreases branches, 1nat, 0nat,
{
    if branches.len() >= 2 {
        lemma_atom_word(f, cx, scrutinee, s);
        match cl_eval::atom_word_s(cx, scrutinee, s) {
            Ok((cond, s1)) => {
                let (yes, s2) = cl_code::fork(s1);
                lemma_fork(f, s1);
                let (no, s3) = cl_code::fork(s2);
                lemma_fork(f, s2);
                let (merge, s4) = cl_code::fork(s3);
                lemma_fork(f, s3);
                let (result, s5) = cl_code::gain(s4, StepView::Param(merge));
                lemma_gain(f, s4, StepView::Param(merge));
                let s6 = cl::choose_s(cond, yes, no, s5);
                lemma_choose(f, cond, yes, no, s5);
                lemma_word(f, cx, branches[1].body, s6);
                match cl::cl_word_s(cx, branches[1].body, s6) {
                    Ok((t, s7)) => {
                        let s8 = cl_code::act(s7, StepView::Jump(merge, seq![t]));
                        lemma_act(f, s7, StepView::Jump(merge, seq![t]));
                        let s9 = cl_code::at_sealed(s8, no);
                        lemma_at_sealed(f, s8, no);
                        lemma_word(f, cx, branches[0].body, s9);
                        match cl::cl_word_s(cx, branches[0].body, s9) {
                            Ok((e, s10)) => {
                                let s11 = cl_code::act(s10, StepView::Jump(merge, seq![e]));
                                lemma_act(f, s10, StepView::Jump(merge, seq![e]));
                                lemma_at_sealed(f, s11, merge);
                            },
                            Err(_) => {},
                        }
                    },
                    Err(_) => {},
                }
            },
            Err(_) => {},
        }
    }
}

proof fn lemma_arms(
    f: Frame,
    cx: ClCxView,
    branches: Seq<BranchView>,
    n: nat,
    arms: Seq<u32>,
    ptr: u32,
    ty: TypeView,
    merge: u32,
    s: ClSt,
)
    requires
        framed(f, cx),
        sound(f, s),
        arms.len() == branches.len(),
        forall|i: int| 0 <= i < arms.len() ==> has_block(f, s, #[trigger] arms[i]),
        has(f, s, ptr),
        has_block(f, s, merge),
    ensures
        state_kept(f, s, cl::cl_arms_s(cx, branches, n, arms, ptr, ty, merge, s)),
    decreases branches, 0nat, n,
{
    if n == 0 || n > branches.len() {
    } else {
        lemma_arms(f, cx, branches, (n - 1) as nat, arms, ptr, ty, merge, s);
        match cl::cl_arms_s(cx, branches, (n - 1) as nat, arms, ptr, ty, merge, s) {
            Ok(s1) => {
                let b = branches[n - 1];
                let fields = world::fields_of(cx.world, ty, (((n - 1) as usize) as u32) as int);
                assert(has_block(f, s, arms[n - 1]));
                let s2 = cl_code::at_sealed(s1, arms[n - 1]);
                lemma_at_sealed(f, s1, arms[n - 1]);
                let s3 = cl::hold_fields_s(ptr, fields, b.binds as nat, s2);
                lemma_hold_fields(f, ptr, fields, b.binds as nat, s2);
                lemma_word(f, cx, b.body, s3);
                match cl::cl_word_s(cx, b.body, s3) {
                    Ok((w, s4)) => {
                        lemma_release(f, s4, b.binds as nat);
                        lemma_act(
                            f,
                            cl::release(s4, b.binds as nat),
                            StepView::Jump(merge, seq![w]),
                        );
                    },
                    Err(_) => {},
                }
            },
            Err(_) => {},
        }
    }
}

proof fn lemma_loop(f: Frame, cx: ClCxView, c: CoreView, s: ClSt)
    requires
        framed(f, cx),
        sound(f, s),
    ensures
        reg_kept(f, s, cl::cl_loop_s(cx, c, s)),
    decreases c, 1nat, 0nat,
{
    match c {
        CoreView::Loop { state, inv, cond, body } => {
            let k = state.len();
            lemma_atom_words(f, cx, state, k, s);
            match cl_eval::atom_words_s(cx, state, k, s) {
                Ok((init, s1)) => {
                    let tys = wasm_eval::atom_tys(cx.world, state, s1.tys);
                    let (header, s2) = cl_code::fork(s1);
                    lemma_fork(f, s1);
                    let (inside, s3) = cl_code::fork(s2);
                    lemma_fork(f, s2);
                    let (exit, s4) = cl_code::fork(s3);
                    lemma_fork(f, s3);
                    let ((carried, last), s5) = cl::carried_params_s(header, exit, k, s4);
                    lemma_carried_params(f, header, exit, k, s4);
                    let s6 = cl_code::act(s5, StepView::Jump(header, init));
                    lemma_act(f, s5, StepView::Jump(header, init));
                    let s7 = cl_code::act(s6, StepView::Switch(header));
                    lemma_act(f, s6, StepView::Switch(header));
                    let s8 = cl::hold_carried(carried, tys, k, s7);
                    lemma_hold_carried(f, carried, tys, k, s7);
                    lemma_word(f, cx, *cond, s8);
                    match cl::cl_word_s(cx, *cond, s8) {
                        Ok((v, s9)) => {
                            let go = StepView::Branch(v, inside, exit, carried);
                            let s10 = cl_code::act(s9, go);
                            lemma_act(f, s9, go);
                            let s11 = cl_code::at_sealed(s10, inside);
                            lemma_at_sealed(f, s10, inside);
                            lemma_next(f, cx, *body, header, s11);
                            match cl::cl_next_s(cx, *body, header, s11) {
                                Ok(s12) => {
                                    let s13 = cl::release(s12, k);
                                    lemma_release(f, s12, k);
                                    let s14 = cl_code::act(s13, StepView::Seal(header));
                                    lemma_act(f, s13, StepView::Seal(header));
                                    let s15 = cl_code::at_sealed(s14, exit);
                                    lemma_at_sealed(f, s14, exit);
                                    let fields = last.map_values(|v: u32| RegValue::Val(v));
                                    assert(has_regs(f, s15, fields));
                                },
                                Err(_) => {},
                            }
                        },
                        Err(_) => {},
                    }
                },
                Err(_) => {},
            }
        },
        _ => {},
    }
}

proof fn lemma_next(f: Frame, cx: ClCxView, c: CoreView, header: u32, s: ClSt)
    requires
        framed(f, cx),
        sound(f, s),
        has_block(f, s, header),
    ensures
        state_kept(f, s, cl::cl_next_s(cx, c, header, s)),
    decreases c, 3nat, 0nat,
{
    match c {
        CoreView::Let { value, body } => {
            lemma_eval(f, cx, *value, s);
            match cl::cl_eval_s(cx, *value, s) {
                Ok((x, s1)) => {
                    let t = world::type_of_s(cx.world, *value, s1.tys);
                    lemma_hold(f, s1, x, t);
                    lemma_next(f, cx, *body, header, cl::hold(s1, x, t));
                    match cl::cl_next_s(cx, *body, header, cl::hold(s1, x, t)) {
                        Ok(s2) => lemma_release(f, s2, 1),
                        Err(_) => {},
                    }
                },
                Err(_) => {},
            }
        },
        CoreView::Match { scrutinee, branches } => lemma_next_match(
            f,
            cx,
            scrutinee,
            branches,
            header,
            s,
        ),
        _ => {
            lemma_eval(f, cx, c, s);
            match cl::cl_eval_s(cx, c, s) {
                Ok((RegValue::Tuple { tag, fields }, s1)) => {
                    lemma_reg_words(f, fields, fields.len(), s1);
                    match cl_code::reg_words_s(fields, fields.len(), s1) {
                        Ok((v, s2)) => lemma_act(f, s2, StepView::Jump(header, v)),
                        Err(_) => {},
                    }
                },
                _ => {},
            }
        },
    }
}

proof fn lemma_next_match(
    f: Frame,
    cx: ClCxView,
    scrutinee: AtomView,
    branches: Seq<BranchView>,
    header: u32,
    s: ClSt,
)
    requires
        framed(f, cx),
        sound(f, s),
        has_block(f, s, header),
    ensures
        state_kept(f, s, cl::cl_next_match_s(cx, scrutinee, branches, header, s)),
    decreases branches, 1nat, 0nat,
{
    match cl::cl_block_type(cx, scrutinee, s) {
        Some(ty) => {
            lemma_tagged(f, cx, scrutinee, s);
            match cl::tagged_s(cx, scrutinee, s) {
                Ok(((ptr, tag), s1)) => {
                    let (arms, s2) = cl::table_s(tag, branches.len(), s1);
                    lemma_table(f, tag, branches.len(), s1);
                    lemma_next_arms(f, cx, branches, branches.len(), arms, ptr, ty, header, s2);
                },
                Err(_) => {},
            }
        },
        None => if wasm_eval::is_if(branches) {
            lemma_atom_word(f, cx, scrutinee, s);
            match cl_eval::atom_word_s(cx, scrutinee, s) {
                Ok((cond, s1)) => {
                    let (yes, s2) = cl_code::fork(s1);
                    lemma_fork(f, s1);
                    let (no, s3) = cl_code::fork(s2);
                    lemma_fork(f, s2);
                    let s4 = cl::choose_s(cond, yes, no, s3);
                    lemma_choose(f, cond, yes, no, s3);
                    lemma_next(f, cx, branches[1].body, header, s4);
                    match cl::cl_next_s(cx, branches[1].body, header, s4) {
                        Ok(s5) => {
                            lemma_at_sealed(f, s5, no);
                            lemma_next(
                                f,
                                cx,
                                branches[0].body,
                                header,
                                cl_code::at_sealed(s5, no),
                            );
                        },
                        Err(_) => {},
                    }
                },
                Err(_) => {},
            }
        },
    }
}

proof fn lemma_next_arms(
    f: Frame,
    cx: ClCxView,
    branches: Seq<BranchView>,
    n: nat,
    arms: Seq<u32>,
    ptr: u32,
    ty: TypeView,
    header: u32,
    s: ClSt,
)
    requires
        framed(f, cx),
        sound(f, s),
        arms.len() == branches.len(),
        forall|i: int| 0 <= i < arms.len() ==> has_block(f, s, #[trigger] arms[i]),
        has(f, s, ptr),
        has_block(f, s, header),
    ensures
        state_kept(f, s, cl::cl_next_arms_s(cx, branches, n, arms, ptr, ty, header, s)),
    decreases branches, 0nat, n,
{
    if n == 0 || n > branches.len() {
    } else {
        lemma_next_arms(f, cx, branches, (n - 1) as nat, arms, ptr, ty, header, s);
        match cl::cl_next_arms_s(cx, branches, (n - 1) as nat, arms, ptr, ty, header, s) {
            Ok(s1) => {
                let b = branches[n - 1];
                let fields = world::fields_of(cx.world, ty, (((n - 1) as usize) as u32) as int);
                assert(has_block(f, s, arms[n - 1]));
                let s2 = cl_code::at_sealed(s1, arms[n - 1]);
                lemma_at_sealed(f, s1, arms[n - 1]);
                let s3 = cl::hold_fields_s(ptr, fields, b.binds as nat, s2);
                lemma_hold_fields(f, ptr, fields, b.binds as nat, s2);
                lemma_next(f, cx, b.body, header, s3);
                match cl::cl_next_s(cx, b.body, header, s3) {
                    Ok(s4) => lemma_release(f, s4, b.binds as nat),
                    Err(_) => {},
                }
            },
            Err(_) => {},
        }
    }
}

// ---- functions ---------------------------------------------------------------------------------------

proof fn lemma_non_units_grow(v: Seq<TypeView>, i: nat, n: nat)
    requires
        i <= n,
    ensures
        cl::non_units(v, i) <= cl::non_units(v, n) <= n,
    decreases n,
{
    if i < n {
        lemma_non_units_grow(v, i, (n - 1) as nat);
    } else if n > 0 {
        lemma_non_units_grow(v, (n - 1) as nat, (n - 1) as nat);
    }
}

proof fn lemma_param_regs(v: Seq<TypeView>, n: nat, words: nat)
    requires
        cl::non_units(v, n) <= words <= CODE_LIMIT,
    ensures
        regs_below(cl::param_regs(v, n), words),
    decreases n,
{
    if n > 0 {
        lemma_non_units_grow(v, (n - 1) as nat, n);
        lemma_param_regs(v, (n - 1) as nat, words);
        let before = cl::param_regs(v, (n - 1) as nat);
        let all = cl::param_regs(v, n);
        assert forall|i: int| #![trigger all[i]] 0 <= i < all.len() implies reg_below(
            all[i],
            words,
        ) by {
            if i < before.len() {
                assert(all[i] == before[i]);
            }
        }
    }
}

proof fn lemma_opening(f: Frame, v: Seq<TypeView>)
    requires
        f.words == cl::non_units(v, v.len()),
    ensures
        sound(f, cl::opening_s(v)),
{
    reveal(tidy);
    if small(f, cl::opening_s(v)) {
        lemma_param_regs(v, v.len(), f.words);
    }
}

proof fn lemma_fn_steps(f: Frame, cx: ClCxView, d: DefView, v: Seq<TypeView>)
    requires
        framed(f, cx),
        f.words == cl::non_units(v, v.len()),
    ensures
        cl::fn_steps_s(cx, d, v) matches Ok(steps) ==> f.words + steps.len() + 1 <= CODE_LIMIT
            ==> refers_back(f, steps),
{
    match d.body {
        Some(c) => {
            let s = cl::opening_s(v);
            lemma_opening(f, v);
            lemma_word(f, cx, wasm::inside_lams(c), s);
            match cl::cl_word_s(cx, wasm::inside_lams(c), s) {
                Ok((w, t)) => {
                    lemma_act(f, t, StepView::Return(w));
                    reveal(tidy);
                },
                Err(_) => {},
            }
        },
        None => {},
    }
}

proof fn lemma_functions(cx: ClCxView, v: Seq<PickView>, n: nat)
    requires
        n <= v.len(),
        cx.fns == cl::cl_metas_of(v),
        v.len() <= usize::MAX,
        forall|k: int|
            0 <= k < v.len() ==> wasm::params_of((#[trigger] v[k]).def.ty).len() <= usize::MAX,
    ensures
        cl::functions_s(cx, v, n) matches Ok(out) ==> out.len() == n && forall|i: int|
            #![trigger out[i]]
            0 <= i < n ==> {
                let f = Frame { fns: v.len(), words: out[i].words as nat };
                f.words + out[i].steps.len() + 1 <= CODE_LIMIT ==> refers_back(f, out[i].steps)
            },
    decreases n,
{
    if n > 0 {
        lemma_functions(cx, v, (n - 1) as nat);
        let p = v[n - 1];
        let params = cl::params_for(cx.fns, p.hash);
        find::lemma_last_below(cl_eval::is_meta(cx.fns, p.hash), cx.fns.len() as int);
        assert(params.len() <= usize::MAX);
        lemma_non_units_grow(params, params.len(), params.len());
        let f = Frame { fns: v.len(), words: cl::non_units(params, params.len()) };
        lemma_fn_steps(f, cx, p.def, params);
    }
}

proof fn lemma_symbols(cx: ClCxView, v: Seq<PickView>, n: nat)
    ensures
        cl::functions_s(cx, v, n) matches Ok(out) ==> out.len() == n && forall|i: int, j: int|
            0 <= i < j < n ==> (#[trigger] out[i]).symbol != (#[trigger] out[j]).symbol,
    decreases n,
{
    if n > 0 {
        lemma_symbols(cx, v, (n - 1) as nat);
    }
}

/// A compiled program defines each symbol once.
pub proof fn lemma_a_symbol_is_defined_once(
    w: WorldView,
    v: Seq<PickView>,
    names: Seq<(Seq<char>, Seq<u8>)>,
    checks: bool,
)
    ensures
        cl::jit_s(w, v, names, checks) matches Ok(p) ==> p.functions.len() == v.len() && forall|
            i: int,
            j: int,
        |
            0 <= i < j < v.len() ==> (#[trigger] p.functions[i]).symbol != (
            #[trigger] p.functions[j]).symbol,
{
    lemma_symbols(ClCxView { world: w, fns: cl::cl_metas_of(v), checks }, v, v.len());
}

/// What the compiler plans for a function can be carried out: its steps refer to
/// values, blocks and functions that are there, so that the plan is well formed if the
/// code generator has room for it.
pub proof fn lemma_compiled_functions_are_well_formed(
    w: WorldView,
    v: Seq<PickView>,
    names: Seq<(Seq<char>, Seq<u8>)>,
    checks: bool,
    i: int,
)
    requires
        cl::jit_s(w, v, names, checks) is Ok,
        0 <= i < v.len() <= usize::MAX,
        forall|k: int|
            0 <= k < v.len() ==> wasm::params_of((#[trigger] v[k]).def.ty).len() <= usize::MAX,
        ({
            let p = cl::jit_s(w, v, names, checks)->Ok_0.functions[i];
            has_room(Frame { fns: v.len(), words: p.words as nat }, p.steps)
        }),
    ensures
        ({
            let p = cl::jit_s(w, v, names, checks)->Ok_0.functions[i];
            cl_jit::well_formed(v.len(), p.words, p.steps)
        }),
{
    let cx = ClCxView { world: w, fns: cl::cl_metas_of(v), checks };
    lemma_functions(cx, v, v.len());
    let p = cl::jit_s(w, v, names, checks)->Ok_0.functions[i];
    lemma_a_grounded_plan_is_well_formed(cl_jit::unlinked(v.len()), p.words, p.steps);
}

/// A compiled program whose functions the code generator has room for is never refused:
/// a module that verifies functions is given it, unless the code generator fails.
pub proof fn lemma_a_compiled_program_is_never_refused(
    w: WorldView,
    v: Seq<PickView>,
    names: Seq<(Seq<char>, Seq<u8>)>,
    checks: bool,
)
    requires
        cl::jit_s(w, v, names, checks) is Ok,
        v.len() <= usize::MAX,
        forall|k: int|
            0 <= k < v.len() ==> wasm::params_of((#[trigger] v[k]).def.ty).len() <= usize::MAX,
        ({
            let p = cl::jit_s(w, v, names, checks)->Ok_0;
            forall|i: int|
                0 <= i < v.len() ==> has_room(
                    Frame { fns: v.len(), words: (#[trigger] p.functions[i]).words as nat },
                    p.functions[i].steps,
                )
        }),
    ensures
        cl_jit::refusal(cl::jit_s(w, v, names, checks)->Ok_0.functions) is None,
{
    let fns = cl::jit_s(w, v, names, checks)->Ok_0.functions;
    lemma_a_symbol_is_defined_once(w, v, names, checks);
    let p = cl_jit::unfit(fns);
    find::lemma_first_from(p, 0, fns.len() as int);
    if let Some(i) = find::first_from(p, 0, fns.len() as int) {
        assert(p(i));
        assert(has_room(Frame { fns: v.len(), words: fns[i].words as nat }, fns[i].steps));
        lemma_compiled_functions_are_well_formed(w, v, names, checks, i);
    }
}

} // verus!
