//! WebAssembly code for the terms that have no terms inside.
use vstd::prelude::*;
use vstd::string::*;

use crate::indices::deeper;
use crate::ir;
use crate::ir::{Atom, AtomView, IntTy, PrimOp, Type, TypeView};
use crate::wasm_code::{Arith, Inst, Test};
use crate::wasm_seq;
use crate::wasm_seq::{arith_code_of, call_code_of, diff_code_of, double_code_of, else_code_of, end_code_of, get_code_of, index_code_of, index_stash_code_of, len_code_of, len_plus_code_of, load_code_of, move_code_of, narrow_signed_code_of, narrow_unsigned_code_of, neg_code_of, not_code_of, push_room_code_of, set_word_code_of, slice_check_code_of, store_local_code_of, store_minus_code_of, store_plus_code_of, store_tag_code_of, sum_code_of, test_code_of, truth_code_of};
use crate::wasm_trans;
use crate::wasm_trans::{ArgVal, ArgValView, Cx, CxView, Out, OutView, Slot, SlotView, TrSt, Trans, WasmError, WasmErrorView, unsupported, word_offset};
use crate::world;
use crate::world::{World, WorldView, atom_type, cap_op, is_list_type, resolve_cap_def};

verus! {

// ---- operands -------------------------------------------------------------------------------------

/// Locals with the words of two atoms.
pub open spec fn words2_s(cx: CxView, a: AtomView, b: AtomView, s: TrSt) -> Result<
    ((u32, u32), TrSt),
    WasmErrorView,
> {
    match wasm_trans::word_local_s(cx, a, s) {
        Ok((x, s1)) => match wasm_trans::word_local_s(cx, b, s1) {
            Ok((y, s2)) => Ok(((x, y), s2)),
            Err(e) => Err(e),
        },
        Err(e) => Err(e),
    }
}

/// Locals with the words of three atoms.
pub open spec fn words3_s(cx: CxView, a: AtomView, b: AtomView, c: AtomView, s: TrSt) -> Result<
    ((u32, u32, u32), TrSt),
    WasmErrorView,
> {
    match words2_s(cx, a, b, s) {
        Ok(((x, y), s1)) => match wasm_trans::word_local_s(cx, c, s1) {
            Ok((z, s2)) => Ok(((x, y, z), s2)),
            Err(e) => Err(e),
        },
        Err(e) => Err(e),
    }
}

impl Trans {
    fn two_words(&mut self, cx: &Cx, a: &Atom, b: &Atom) -> (r: Result<(u32, u32), WasmError>)
        ensures
            match words2_s(cx@, a@, b@, old(self)@) {
                Ok((p, s)) => r is Ok && r->Ok_0 == p && final(self)@ == s,
                Err(e) => r is Err && r->Err_0@ == e,
            },
    {
        let x = match self.atom_to_word_local(cx, a) {
            Ok(v) => v,
            Err(e) => {
                return Err(e);
            },
        };
        let y = match self.atom_to_word_local(cx, b) {
            Ok(v) => v,
            Err(e) => {
                return Err(e);
            },
        };
        Ok((x, y))
    }

    fn three_words(&mut self, cx: &Cx, a: &Atom, b: &Atom, c: &Atom) -> (r: Result<
        (u32, u32, u32),
        WasmError,
    >)
        ensures
            match words3_s(cx@, a@, b@, c@, old(self)@) {
                Ok((p, s)) => r is Ok && r->Ok_0 == p && final(self)@ == s,
                Err(e) => r is Err && r->Err_0@ == e,
            },
    {
        let p = match self.two_words(cx, a, b) {
            Ok(v) => v,
            Err(e) => {
                return Err(e);
            },
        };
        let z = match self.atom_to_word_local(cx, c) {
            Ok(v) => v,
            Err(e) => {
                return Err(e);
            },
        };
        Ok((p.0, p.1, z))
    }
}


// ---- sequences ---------------------------------------------------------------------------------------

/// A copy of the block at `ptr` in which element `i` is `v`.
pub open spec fn set_copy_s(cx: CxView, ptr: u32, i: u32, v: u32, s: TrSt) -> TrSt {
    let (total, s1) = wasm_trans::fresh(wasm_trans::bounds_s(cx, ptr, i, s));
    let (new, s2) = wasm_trans::bump_dyn_s(total, wasm_trans::em(s1, wasm_seq::len_plus_code(ptr, 1, total)));
    wasm_trans::em(wasm_trans::em(wasm_trans::copy_words_s(ptr, new, total, s2), wasm_seq::set_word_code(new, i, 1, v)), wasm_seq::get_code(new))
}

/// A sequence with one element replaced.
pub open spec fn index_set_s(cx: CxView, base: AtomView, index: AtomView, value: AtomView, s: TrSt) -> Result<
    (OutView, TrSt),
    WasmErrorView,
> {
    match words3_s(cx, base, index, value, s) {
        Ok(((ptr, i, v), s1)) => Ok((OutView::Stack, set_copy_s(cx, ptr, i, v, s1))),
        Err(e) => Err(e),
    }
}

/// A new list: its length, its capacity, and room for the elements.
pub open spec fn list_new_s(cx: CxView, capacity: AtomView, s: TrSt) -> Result<
    (OutView, TrSt),
    WasmErrorView,
> {
    match wasm_trans::word_local_s(cx, capacity, s) {
        Ok((cap, s1)) => {
            let (total, s2) = wasm_trans::plus_s(cap, 2, s1);
            let (ptr, s3) = wasm_trans::bump_dyn_s(total, s2);
            Ok(
                (
                    OutView::Stack,
                    wasm_trans::em(
                        wasm_trans::em(wasm_trans::em(s3, wasm_seq::store_tag_code(ptr, 0)), wasm_seq::store_local_code(ptr, 8, cap)),
                        wasm_seq::get_code(ptr),
                    ),
                ),
            )
        },
        Err(e) => Err(e),
    }
}

/// The list has room: the element is stored in it.
pub open spec fn push_in_place_s(ptr: u32, val: u32, len: u32, result: u32, s: TrSt) -> TrSt {
    wasm_trans::em(
        wasm_trans::em(wasm_trans::em(s, wasm_seq::store_plus_code(ptr, len, 1)), wasm_seq::set_word_code(ptr, len, 2, val)),
        wasm_seq::move_code(ptr, result),
    )
}

/// The list is full: it is copied to a block of twice the capacity, or of four.
pub open spec fn push_grown_s(ptr: u32, val: u32, len: u32, cap: u32, result: u32, s: TrSt) -> TrSt {
    let (new_cap, s1) = wasm_trans::fresh(s);
    let (total, s2) = wasm_trans::plus_s(new_cap, 2, wasm_trans::em(s1, wasm_seq::double_code(cap, new_cap)));
    let (new, s3) = wasm_trans::bump_dyn_s(total, s2);
    let (count, s4) = wasm_trans::plus_s(len, 2, s3);
    let s5 = wasm_trans::em(wasm_trans::copy_words_s(ptr, new, count, s4), wasm_seq::store_plus_code(new, len, 1));
    wasm_trans::em(
        wasm_trans::em(wasm_trans::em(s5, wasm_seq::store_local_code(new, 8, new_cap)), wasm_seq::set_word_code(new, len, 2, val)),
        wasm_seq::move_code(new, result),
    )
}

/// A list with an element added at its end.
pub open spec fn list_push_s(cx: CxView, list: AtomView, value: AtomView, s: TrSt) -> Result<
    (OutView, TrSt),
    WasmErrorView,
> {
    match words2_s(cx, list, value, s) {
        Ok(((ptr, val), s1)) => {
            let (len, s2) = wasm_trans::load_word_s(ptr, 0, s1);
            let (cap, s3) = wasm_trans::load_word_s(ptr, 8, s2);
            let (result, s4) = wasm_trans::fresh(s3);
            let s5 = push_in_place_s(ptr, val, len, result, wasm_trans::em(s4, wasm_seq::push_room_code(len, cap)));
            let s6 = push_grown_s(ptr, val, len, cap, result, wasm_trans::em(s5, wasm_seq::else_code()));
            Ok((OutView::Stack, wasm_trans::em(wasm_trans::em(s6, wasm_seq::end_code()), wasm_seq::get_code(result))))
        },
        Err(e) => Err(e),
    }
}

/// A list without its last element.
pub open spec fn list_pop_s(cx: CxView, list: AtomView, s: TrSt) -> Result<
    (OutView, TrSt),
    WasmErrorView,
> {
    match wasm_trans::word_local_s(cx, list, s) {
        Ok((ptr, s1)) => {
            let (zero, s2) = wasm_trans::const_local_s(0, s1);
            let (len, s3) = wasm_trans::load_word_s(ptr, 0, wasm_trans::bounds_s(cx, ptr, zero, s2));
            Ok((OutView::Stack, wasm_trans::em(wasm_trans::em(s3, wasm_seq::store_minus_code(ptr, len, 1)), wasm_seq::get_code(ptr))))
        },
        Err(e) => Err(e),
    }
}

/// A list with one element replaced.
pub open spec fn list_set_s(cx: CxView, list: AtomView, index: AtomView, value: AtomView, s: TrSt) -> Result<
    (OutView, TrSt),
    WasmErrorView,
> {
    match words3_s(cx, list, index, value, s) {
        Ok(((ptr, i, v), s1)) => Ok(
            (
                OutView::Stack,
                wasm_trans::em(wasm_trans::em(wasm_trans::bounds_s(cx, ptr, i, s1), wasm_seq::set_word_code(ptr, i, 2, v)), wasm_seq::get_code(ptr)),
            ),
        ),
        Err(e) => Err(e),
    }
}

impl Trans {
    pub fn eval_index_set(&mut self, cx: &Cx, base: &Atom, index: &Atom, value: &Atom) -> (r: Result<
        Out,
        WasmError,
    >)
        ensures
            wasm_trans::did_out(r, *final(self), index_set_s(cx@, base@, index@, value@, old(self)@)),
    {
        let p = match self.three_words(cx, base, index, value) {
            Ok(v) => v,
            Err(e) => {
                return Err(e);
            },
        };
        self.check_bounds(cx, p.0, p.1);
        let total = self.local();
        self.emit(len_plus_code_of(p.0, 1, total));
        let new = self.bump_alloc_dyn(total);
        self.copy_words(p.0, new, total);
        self.emit(set_word_code_of(new, p.1, 1, p.2));
        self.emit(get_code_of(new));
        Ok(Out::Stack)
    }

    pub fn eval_list_new(&mut self, cx: &Cx, capacity: &Atom) -> (r: Result<Out, WasmError>)
        ensures
            wasm_trans::did_out(r, *final(self), list_new_s(cx@, capacity@, old(self)@)),
    {
        let cap = match self.atom_to_word_local(cx, capacity) {
            Ok(v) => v,
            Err(e) => {
                return Err(e);
            },
        };
        let total = self.plus(cap, 2);
        let ptr = self.bump_alloc_dyn(total);
        self.emit(store_tag_code_of(ptr, 0));
        self.emit(store_local_code_of(ptr, 8, cap));
        self.emit(get_code_of(ptr));
        Ok(Out::Stack)
    }

    fn push_in_place(&mut self, ptr: u32, val: u32, len: u32, result: u32)
        ensures
            final(self)@ == push_in_place_s(ptr, val, len, result, old(self)@),
    {
        self.emit(store_plus_code_of(ptr, len, 1));
        self.emit(set_word_code_of(ptr, len, 2, val));
        self.emit(move_code_of(ptr, result));
    }

    fn push_grown(&mut self, ptr: u32, val: u32, len: u32, cap: u32, result: u32)
        ensures
            final(self)@ == push_grown_s(ptr, val, len, cap, result, old(self)@),
    {
        let new_cap = self.local();
        self.emit(double_code_of(cap, new_cap));
        let total = self.plus(new_cap, 2);
        let new = self.bump_alloc_dyn(total);
        let count = self.plus(len, 2);
        self.copy_words(ptr, new, count);
        self.emit(store_plus_code_of(new, len, 1));
        self.emit(store_local_code_of(new, 8, new_cap));
        self.emit(set_word_code_of(new, len, 2, val));
        self.emit(move_code_of(new, result));
    }

    pub fn eval_list_push(&mut self, cx: &Cx, list: &Atom, value: &Atom) -> (r: Result<Out, WasmError>)
        ensures
            wasm_trans::did_out(r, *final(self), list_push_s(cx@, list@, value@, old(self)@)),
    {
        let p = match self.two_words(cx, list, value) {
            Ok(v) => v,
            Err(e) => {
                return Err(e);
            },
        };
        let len = self.load_word(p.0, 0);
        let cap = self.load_word(p.0, 8);
        let result = self.local();
        self.emit(push_room_code_of(len, cap));
        self.push_in_place(p.0, p.1, len, result);
        self.emit(else_code_of());
        self.push_grown(p.0, p.1, len, cap, result);
        self.emit(end_code_of());
        self.emit(get_code_of(result));
        Ok(Out::Stack)
    }

    pub fn eval_list_pop(&mut self, cx: &Cx, list: &Atom) -> (r: Result<Out, WasmError>)
        ensures
            wasm_trans::did_out(r, *final(self), list_pop_s(cx@, list@, old(self)@)),
    {
        let ptr = match self.atom_to_word_local(cx, list) {
            Ok(v) => v,
            Err(e) => {
                return Err(e);
            },
        };
        let zero = self.const_local(0);
        self.check_bounds(cx, ptr, zero);
        let len = self.load_word(ptr, 0);
        self.emit(store_minus_code_of(ptr, len, 1));
        self.emit(get_code_of(ptr));
        Ok(Out::Stack)
    }

    pub fn eval_list_set(&mut self, cx: &Cx, list: &Atom, index: &Atom, value: &Atom) -> (r: Result<
        Out,
        WasmError,
    >)
        ensures
            wasm_trans::did_out(r, *final(self), list_set_s(cx@, list@, index@, value@, old(self)@)),
    {
        let p = match self.three_words(cx, list, index, value) {
            Ok(v) => v,
            Err(e) => {
                return Err(e);
            },
        };
        self.check_bounds(cx, p.0, p.1);
        self.emit(set_word_code_of(p.0, p.1, 2, p.2));
        self.emit(get_code_of(p.0));
        Ok(Out::Stack)
    }
}

// ---- strings --------------------------------------------------------------------------------------------

/// A block for a string whose length is in the local `count`.
pub open spec fn string_block_s(count: u32, s: TrSt) -> (u32, TrSt) {
    let (words, s1) = wasm_trans::plus_s(count, 1, s);
    let (out, s2) = wasm_trans::bump_dyn_s(words, s1);
    (out, wasm_trans::em(s2, wasm_seq::store_local_code(out, 0, count)))
}

/// One string after another.
pub open spec fn concat_s(cx: CxView, left: AtomView, right: AtomView, s: TrSt) -> Result<
    (OutView, TrSt),
    WasmErrorView,
> {
    match words2_s(cx, left, right, s) {
        Ok(((l, r), s1)) => {
            let (llen, s2) = wasm_trans::load_word_s(l, 0, s1);
            let (rlen, s3) = wasm_trans::load_word_s(r, 0, s2);
            let (total, s4) = wasm_trans::fresh(s3);
            let (out, s5) = string_block_s(total, wasm_trans::em(s4, wasm_seq::sum_code(llen, rlen, total)));
            let (one, s6) = wasm_trans::const_local_s(1, s5);
            let (to, s7) = wasm_trans::plus_s(llen, 1, wasm_trans::copy_range_s(l, one, out, one, llen, s6));
            Ok((OutView::Stack, wasm_trans::em(wasm_trans::copy_range_s(r, one, out, to, rlen, s7), wasm_seq::get_code(out))))
        },
        Err(e) => Err(e),
    }
}

/// The part of a string between two positions.
pub open spec fn slice_s(cx: CxView, base: AtomView, start: AtomView, end: AtomView, s: TrSt) -> Result<
    (OutView, TrSt),
    WasmErrorView,
> {
    match words3_s(cx, base, start, end, s) {
        Ok(((ptr, lo, hi), s1)) => {
            let (len, s2) = wasm_trans::load_word_s(ptr, 0, s1);
            let s3 = if cx.checks {
                wasm_trans::em(s2, wasm_seq::slice_check_code(lo, hi, len))
            } else {
                s2
            };
            let (count, s4) = wasm_trans::fresh(s3);
            let (out, s5) = string_block_s(count, wasm_trans::em(s4, wasm_seq::diff_code(hi, lo, count)));
            let (from, s6) = wasm_trans::plus_s(lo, 1, s5);
            let (to, s7) = wasm_trans::const_local_s(1, s6);
            Ok((OutView::Stack, wasm_trans::em(wasm_trans::copy_range_s(ptr, from, out, to, count, s7), wasm_seq::get_code(out))))
        },
        Err(e) => Err(e),
    }
}

/// The string of a list of characters.
pub open spec fn from_chars_s(cx: CxView, chars: AtomView, s: TrSt) -> Result<
    (OutView, TrSt),
    WasmErrorView,
> {
    match wasm_trans::word_local_s(cx, chars, s) {
        Ok((list, s1)) => {
            let (len, s2) = wasm_trans::load_word_s(list, 0, s1);
            let (out, s3) = string_block_s(len, s2);
            let (from, s4) = wasm_trans::const_local_s(2, s3);
            let (to, s5) = wasm_trans::const_local_s(1, s4);
            Ok((OutView::Stack, wasm_trans::em(wasm_trans::copy_range_s(list, from, out, to, len, s5), wasm_seq::get_code(out))))
        },
        Err(e) => Err(e),
    }
}

impl Trans {
    fn string_block(&mut self, count: u32) -> (r: u32)
        ensures
            (r, final(self)@) == string_block_s(count, old(self)@),
    {
        let words = self.plus(count, 1);
        let out = self.bump_alloc_dyn(words);
        self.emit(store_local_code_of(out, 0, count));
        out
    }

    pub fn eval_string_concat(&mut self, cx: &Cx, left: &Atom, right: &Atom) -> (r: Result<
        Out,
        WasmError,
    >)
        ensures
            wasm_trans::did_out(r, *final(self), concat_s(cx@, left@, right@, old(self)@)),
    {
        let p = match self.two_words(cx, left, right) {
            Ok(v) => v,
            Err(e) => {
                return Err(e);
            },
        };
        let llen = self.load_word(p.0, 0);
        let rlen = self.load_word(p.1, 0);
        let total = self.local();
        self.emit(sum_code_of(llen, rlen, total));
        let out = self.string_block(total);
        let one = self.const_local(1);
        self.copy_word_range(p.0, one, out, one, llen);
        let to = self.plus(llen, 1);
        self.copy_word_range(p.1, one, out, to, rlen);
        self.emit(get_code_of(out));
        Ok(Out::Stack)
    }

    pub fn eval_string_slice(&mut self, cx: &Cx, base: &Atom, start: &Atom, end: &Atom) -> (r: Result<
        Out,
        WasmError,
    >)
        ensures
            wasm_trans::did_out(r, *final(self), slice_s(cx@, base@, start@, end@, old(self)@)),
    {
        let p = match self.three_words(cx, base, start, end) {
            Ok(v) => v,
            Err(e) => {
                return Err(e);
            },
        };
        let len = self.load_word(p.0, 0);
        if cx.checks {
            self.emit(slice_check_code_of(p.1, p.2, len));
        }
        let count = self.local();
        self.emit(diff_code_of(p.2, p.1, count));
        let out = self.string_block(count);
        let from = self.plus(p.1, 1);
        let to = self.const_local(1);
        self.copy_word_range(p.0, from, out, to, count);
        self.emit(get_code_of(out));
        Ok(Out::Stack)
    }

    pub fn eval_string_from_chars(&mut self, cx: &Cx, chars: &Atom) -> (r: Result<Out, WasmError>)
        ensures
            wasm_trans::did_out(r, *final(self), from_chars_s(cx@, chars@, old(self)@)),
    {
        let list = match self.atom_to_word_local(cx, chars) {
            Ok(v) => v,
            Err(e) => {
                return Err(e);
            },
        };
        let len = self.load_word(list, 0);
        let out = self.string_block(len);
        let from = self.const_local(2);
        let to = self.const_local(1);
        self.copy_word_range(list, from, out, to, len);
        self.emit(get_code_of(out));
        Ok(Out::Stack)
    }
}

// ---- primitive operations -----------------------------------------------------------------------------------

/// The code of an operation whose operands are on the stack.
pub open spec fn op_code(op: PrimOp) -> Seq<Inst> {
    match op {
        PrimOp::Add => wasm_seq::arith_code(Arith::Add),
        PrimOp::Sub => wasm_seq::arith_code(Arith::Sub),
        PrimOp::Mul => wasm_seq::arith_code(Arith::Mul),
        PrimOp::Div => wasm_seq::arith_code(Arith::DivS),
        PrimOp::Rem => wasm_seq::arith_code(Arith::RemS),
        PrimOp::Eq => wasm_seq::test_code(Test::Eq),
        PrimOp::Ne => wasm_seq::test_code(Test::Ne),
        PrimOp::Lt => wasm_seq::test_code(Test::LtS),
        PrimOp::Le => wasm_seq::test_code(Test::LeS),
        PrimOp::Gt => wasm_seq::test_code(Test::GtS),
        PrimOp::Ge => wasm_seq::test_code(Test::GeS),
        PrimOp::And => wasm_seq::arith_code(Arith::And),
        PrimOp::Or => wasm_seq::arith_code(Arith::Or),
        PrimOp::Not => wasm_seq::not_code(),
        PrimOp::Neg => wasm_seq::neg_code(),
        PrimOp::Len => wasm_seq::len_code(),
        PrimOp::Index | PrimOp::Slice | PrimOp::FromChars => Seq::empty(),
    }
}

/// An element of a sequence, whose pointer and position are on the stack; the
/// elements of a list come after two words, those of other sequences after one.
pub open spec fn index_s(cx: CxView, list: bool, s: TrSt) -> TrSt {
    let s1 = if cx.checks {
        let (i, t1) = wasm_trans::fresh(s);
        let (p, t2) = wasm_trans::fresh(t1);
        wasm_trans::em(wasm_trans::bounds_s(cx, p, i, wasm_trans::em(t2, wasm_seq::index_stash_code(i, p))), wasm_seq::get_code(i))
    } else {
        s
    };
    wasm_trans::em(
        s1,
        wasm_seq::index_code(
            if list {
                16
            } else {
                8
            },
        ),
    )
}

/// Whether an atom is a string.
pub open spec fn is_str_atom(cx: CxView, a: AtomView, s: TrSt) -> bool {
    world::type_of_atom(cx.world, a, s.tys) == Some(TypeView::Str)
}

/// Whether an atom is a list.
pub open spec fn is_list_atom(cx: CxView, a: AtomView, s: TrSt) -> bool {
    match world::type_of_atom(cx.world, a, s.tys) {
        Some(t) => world::is_list(t),
        None => false,
    }
}

/// Whether an operand is missing as a word.
pub open spec fn has_unit(v: Seq<ArgValView>) -> bool {
    exists|i: int| 0 <= i < v.len() && #[trigger] v[i] == ArgValView::Unit
}

/// A primitive operation. Strings have operations of their own.
pub open spec fn prim_s(cx: CxView, op: PrimOp, args: Seq<AtomView>, s: TrSt) -> Result<
    (OutView, TrSt),
    WasmErrorView,
> {
    if op == PrimOp::Add && args.len() > 0 && is_str_atom(cx, args[0], s) {
        if args.len() < 2 {
            Err(wasm_trans::unsupported_view("a primitive without its operands"@))
        } else {
            concat_s(cx, args[0], args[1], s)
        }
    } else if op == PrimOp::Slice {
        if args.len() < 3 {
            Err(wasm_trans::unsupported_view("a primitive without its operands"@))
        } else {
            slice_s(cx, args[0], args[1], args[2], s)
        }
    } else if op == PrimOp::FromChars {
        if args.len() < 2 {
            Err(wasm_trans::unsupported_view("a primitive without its operands"@))
        } else {
            from_chars_s(cx, args[1], s)
        }
    } else {
        match wasm_trans::atom_args(s.env, args, args.len()) {
            Ok(v) => if has_unit(v) {
                Err(wasm_trans::unsupported_view("unit operand to a primitive"@))
            } else {
                let s1 = wasm_trans::push_args_s(v, v.len(), s);
                if op == PrimOp::Index {
                    Ok((OutView::Stack, index_s(cx, args.len() > 0 && is_list_atom(cx, args[0], s), s1)))
                } else {
                    Ok((OutView::Stack, wasm_trans::em(s1, op_code(op))))
                }
            },
            Err(e) => Err(e),
        }
    }
}

fn op_code_of(op: PrimOp) -> (code: Vec<Inst>)
    ensures
        code@ == op_code(op),
{
    match op {
        PrimOp::Add => arith_code_of(Arith::Add),
        PrimOp::Sub => arith_code_of(Arith::Sub),
        PrimOp::Mul => arith_code_of(Arith::Mul),
        PrimOp::Div => arith_code_of(Arith::DivS),
        PrimOp::Rem => arith_code_of(Arith::RemS),
        PrimOp::Eq => test_code_of(Test::Eq),
        PrimOp::Ne => test_code_of(Test::Ne),
        PrimOp::Lt => test_code_of(Test::LtS),
        PrimOp::Le => test_code_of(Test::LeS),
        PrimOp::Gt => test_code_of(Test::GtS),
        PrimOp::Ge => test_code_of(Test::GeS),
        PrimOp::And => arith_code_of(Arith::And),
        PrimOp::Or => arith_code_of(Arith::Or),
        PrimOp::Not => not_code_of(),
        PrimOp::Neg => neg_code_of(),
        PrimOp::Len => len_code_of(),
        PrimOp::Index | PrimOp::Slice | PrimOp::FromChars => Vec::new(),
    }
}

fn any_unit(v: &Vec<ArgVal>) -> (r: bool)
    ensures
        r == has_unit(wasm_trans::argvals_view(v@)),
{
    broadcast use wasm_trans::lemma_argvals_view;

    let ghost av = wasm_trans::argvals_view(v@);
    let mut i: usize = 0;
    while i < v.len()
        invariant
            i <= v@.len(),
            av == wasm_trans::argvals_view(v@),
            av.len() == v@.len(),
            forall|k: int| 0 <= k < i ==> #[trigger] av[k] != ArgValView::Unit,
        decreases v@.len() - i,
    {
        assert(av[i as int] == v@[i as int]@);
        if let ArgVal::Unit = &v[i] {
            return true;
        }
        i = i + 1;
    }
    false
}

impl Trans {
    fn atom_is_str(&self, cx: &Cx, a: &Atom) -> (r: bool)
        ensures
            r == is_str_atom(cx@, a@, self@),
    {
        matches!(atom_type(cx.world, a, &self.tys), Some(Type::Str))
    }

    fn atom_is_list(&self, cx: &Cx, a: &Atom) -> (r: bool)
        ensures
            r == is_list_atom(cx@, a@, self@),
    {
        match atom_type(cx.world, a, &self.tys) {
            Some(t) => is_list_type(&t),
            None => false,
        }
    }

    fn emit_index(&mut self, cx: &Cx, list: bool)
        ensures
            final(self)@ == index_s(cx@, list, old(self)@),
    {
        if cx.checks {
            let i = self.local();
            let p = self.local();
            self.emit(index_stash_code_of(i, p));
            self.check_bounds(cx, p, i);
            self.emit(get_code_of(i));
        }
        if list {
            self.emit(index_code_of(16));
        } else {
            self.emit(index_code_of(8));
        }
    }

    pub fn eval_prim(&mut self, cx: &Cx, op: PrimOp, args: &Vec<Atom>) -> (r: Result<Out, WasmError>)
        ensures
            wasm_trans::did_out(r, *final(self), prim_s(cx@, op, ir::atoms_view(args@), old(self)@)),
    {
        let ghost av = ir::atoms_view(args@);
        assert(args@.len() > 0 ==> av[0] == args@[0]@);
        assert(args@.len() > 1 ==> av[1] == args@[1]@);
        assert(args@.len() > 2 ==> av[2] == args@[2]@);
        if op == PrimOp::Add && args.len() > 0 && self.atom_is_str(cx, &args[0]) {
            if args.len() < 2 {
                return Err(unsupported("a primitive without its operands"));
            }
            return self.eval_string_concat(cx, &args[0], &args[1]);
        }
        if op == PrimOp::Slice {
            if args.len() < 3 {
                return Err(unsupported("a primitive without its operands"));
            }
            return self.eval_string_slice(cx, &args[0], &args[1], &args[2]);
        }
        if op == PrimOp::FromChars {
            if args.len() < 2 {
                return Err(unsupported("a primitive without its operands"));
            }
            return self.eval_string_from_chars(cx, &args[1]);
        }
        let list = args.len() > 0 && self.atom_is_list(cx, &args[0]);
        let v = match self.resolve_args(args) {
            Ok(v) => v,
            Err(e) => {
                return Err(e);
            },
        };
        if any_unit(&v) {
            return Err(unsupported("unit operand to a primitive"));
        }
        assert(wasm_trans::argvals_view(v@).len() == v@.len()) by {
            broadcast use wasm_trans::lemma_argvals_view;

        }
        self.push_argvals(&v);
        if op == PrimOp::Index {
            self.emit_index(cx, list);
        } else {
            self.emit(op_code_of(op));
        }
        Ok(Out::Stack)
    }
}

// ---- casts ------------------------------------------------------------------------------------------------------

/// The top word cut to an integer type: sign- or zero-extended from its width.
pub open spec fn narrow_code(t: IntTy) -> Seq<Inst> {
    match t {
        IntTy::I8 => wasm_seq::narrow_signed_code(56),
        IntTy::I16 => wasm_seq::narrow_signed_code(48),
        IntTy::I32 => wasm_seq::narrow_signed_code(32),
        IntTy::U8 => wasm_seq::narrow_unsigned_code(56),
        IntTy::U16 => wasm_seq::narrow_unsigned_code(48),
        IntTy::U32 => wasm_seq::narrow_unsigned_code(32),
        IntTy::I64 | IntTy::Isize | IntTy::U64 | IntTy::Usize => Seq::empty(),
    }
}

fn narrow_code_of(t: IntTy) -> (code: Vec<Inst>)
    ensures
        code@ == narrow_code(t),
{
    match t {
        IntTy::I8 => narrow_signed_code_of(56),
        IntTy::I16 => narrow_signed_code_of(48),
        IntTy::I32 => narrow_signed_code_of(32),
        IntTy::U8 => narrow_unsigned_code_of(56),
        IntTy::U16 => narrow_unsigned_code_of(48),
        IntTy::U32 => narrow_unsigned_code_of(32),
        IntTy::I64 | IntTy::Isize | IntTy::U64 | IntTy::Usize => Vec::new(),
    }
}

/// A cast: an integer wraps to its width, a character is its code point, and a
/// truth value is whether the word is not zero.
pub open spec fn cast_s(value: AtomView, to: TypeView, s: TrSt) -> Result<(OutView, TrSt), WasmErrorView> {
    match wasm_trans::atom_arg(s.env, value) {
        Ok(ArgValView::Unit) => Err(wasm_trans::unsupported_view("unit operand to a cast"@)),
        Ok(a) => {
            let s1 = wasm_trans::push_arg_s(a, s);
            match to {
                TypeView::Int(t) => Ok((OutView::Stack, wasm_trans::em(s1, narrow_code(t)))),
                TypeView::Char => Ok((OutView::Stack, s1)),
                TypeView::Bool => Ok((OutView::Stack, wasm_trans::em(s1, wasm_seq::truth_code()))),
                TypeView::Float(_) => Err(
                    wasm_trans::unsupported_view("float cast (the backend is integer-only)"@),
                ),
                _ => Err(wasm_trans::unsupported_view("cast to a non-scalar type"@)),
            }
        },
        Err(e) => Err(e),
    }
}

impl Trans {
    pub fn eval_cast(&mut self, value: &Atom, to: &Type) -> (r: Result<Out, WasmError>)
        ensures
            wasm_trans::did_out(r, *final(self), cast_s(value@, to@, old(self)@)),
    {
        let a = match self.resolve_arg(value) {
            Ok(v) => v,
            Err(e) => {
                return Err(e);
            },
        };
        if let ArgVal::Unit = &a {
            return Err(unsupported("unit operand to a cast"));
        }
        self.push_argval(&a);
        match to {
            Type::Int(t) => {
                self.emit(narrow_code_of(*t));
                Ok(Out::Stack)
            },
            Type::Char => Ok(Out::Stack),
            Type::Bool => {
                self.emit(truth_code_of());
                Ok(Out::Stack)
            },
            Type::Float(_) => Err(unsupported("float cast (the backend is integer-only)")),
            _ => Err(unsupported("cast to a non-scalar type")),
        }
    }
}

// ---- fields --------------------------------------------------------------------------------------------------------

/// A field: of an aggregate in locals it is chosen, of a block it is loaded.
pub open spec fn proj_s(base: AtomView, idx: u32, s: TrSt) -> Result<(OutView, TrSt), WasmErrorView> {
    match base {
        AtomView::Var(i) => match wasm_trans::slot_at(s.env, i) {
            Ok(SlotView::Tuple { tag, fields }) => if idx < fields.len() {
                Ok(wasm_trans::slot_out_s(fields[idx as int], s))
            } else {
                Err(wasm_trans::unsupported_view("projection out of range"@))
            },
            Ok(SlotView::Local(l)) => Ok((OutView::Stack, wasm_trans::em(s, wasm_seq::load_code(l, wasm_trans::word_at(idx as nat))))),
            Ok(_) => Err(wasm_trans::unsupported_view("projection of a non-aggregate"@)),
            Err(e) => Err(e),
        },
        _ => Err(wasm_trans::unsupported_view("projection of a non-aggregate base"@)),
    }
}

impl Trans {
    pub fn eval_proj(&mut self, base: &Atom, idx: u32) -> (r: Result<Out, WasmError>)
        ensures
            wasm_trans::did_out(r, *final(self), proj_s(base@, idx, old(self)@)),
    {
        broadcast use wasm_trans::lemma_slots_view;

        match base {
            Atom::Var(i) => {
                let x = match self.slot(*i) {
                    Ok(v) => v,
                    Err(e) => {
                        return Err(e);
                    },
                };
                match &x {
                    Slot::Tuple { tag: _, fields } => {
                        if (idx as usize) < fields.len() {
                            assert(wasm_trans::slots_view(fields@)[idx as int] == fields@[idx as int]@);
                            let f = fields[idx as usize].clone();
                            Ok(self.slot_to_out(f))
                        } else {
                            Err(unsupported("projection out of range"))
                        }
                    },
                    Slot::Local(l) => {
                        self.emit(load_code_of(*l, word_offset(idx as usize)));
                        Ok(Out::Stack)
                    },
                    _ => Err(unsupported("projection of a non-aggregate")),
                }
            },
            _ => Err(unsupported("projection of a non-aggregate base")),
        }
    }
}

// ---- calls ----------------------------------------------------------------------------------------------------------

/// What an atom in function position is: a function, and the arguments that it
/// has already.
pub open spec fn callee_of(cx: CxView, func: AtomView, env: Seq<SlotView>) -> Result<
    (Seq<u8>, Seq<ArgValView>),
    WasmErrorView,
> {
    match func {
        AtomView::Global(h) => if wasm_trans::fn_pos(cx, h) is Some {
            Ok((h, Seq::empty()))
        } else {
            Err(wasm_trans::unsupported_view("application of a non-function"@))
        },
        AtomView::Var(i) => match wasm_trans::slot_at(env, i) {
            Ok(SlotView::Partial { func, args }) => Ok((func, args)),
            Ok(_) => Err(wasm_trans::unsupported_view("application of a non-function value"@)),
            Err(e) => Err(e),
        },
        _ => Err(wasm_trans::unsupported_view("application of a non-function"@)),
    }
}

/// An application: a call once the function has all of its arguments.
pub open spec fn app_s(cx: CxView, func: AtomView, arg: AtomView, s: TrSt) -> Result<
    (OutView, TrSt),
    WasmErrorView,
> {
    match callee_of(cx, func, s.env) {
        Ok((h, args)) => match wasm_trans::atom_arg(s.env, arg) {
            Ok(a) => match wasm_trans::fn_pos(cx, h) {
                Some(i) => if args.len() + 1 < cx.fns[i].arity {
                    Ok((OutView::Held(SlotView::Partial { func: h, args: args.push(a) }), s))
                } else {
                    Ok(
                        (
                            OutView::Stack,
                            wasm_trans::em(
                                wasm_trans::push_args_s(args.push(a), args.len() + 1, s),
                                wasm_seq::call_code(wasm_trans::fn_index(cx, i)),
                            ),
                        ),
                    )
                },
                None => Err(WasmErrorView::UnknownGlobal(h)),
            },
            Err(e) => Err(e),
        },
        Err(e) => Err(e),
    }
}

/// Whether values of a type are no words: nothing, and capabilities, whose
/// authority is an import.
pub open spec fn no_slot(w: WorldView, t: TypeView) -> bool {
    match t {
        TypeView::Unit => true,
        TypeView::Nominal { def, args } => world::cap_of(w, def) is Some,
        _ => false,
    }
}

/// Whether values of a type are no words.
pub fn is_no_slot(w: &World, t: &Type) -> (r: bool)
    ensures
        r == no_slot(w@, t@),
{
    match t {
        Type::Unit => true,
        Type::Nominal { def, args: _ } => w.is_cap(def),
        _ => false,
    }
}

/// Whether an operation of a capability leaves a word.
pub open spec fn op_returns(w: WorldView, h: Seq<u8>, op: u32) -> bool {
    match world::op_of(w, h, op) {
        Some(o) => !no_slot(w, o.ret),
        None => false,
    }
}

/// The name of a capability.
pub open spec fn cap_name_of(w: WorldView, h: Seq<u8>) -> Seq<char> {
    match world::cap_of(w, h) {
        Some(c) => c.name,
        None => Seq::empty(),
    }
}

/// The name of a capability.
pub fn cap_name(w: &World, h: &crate::ir::Hash) -> (r: String)
    ensures
        r@ == cap_name_of(w@, h@),
{
    match w.cap(h) {
        Some(c) => c.name.as_str().to_owned(),
        None => {
            let s = String::new();
            assert(s@ =~= Seq::empty());
            s
        },
    }
}

/// An operation of a capability: a call of its import.
pub open spec fn perform_s(cx: CxView, cap: AtomView, op: u32, args: Seq<AtomView>, s: TrSt) -> Result<
    (OutView, TrSt),
    WasmErrorView,
> {
    match world::cap_def(cx.world, cap, s.tys) {
        Some(h) => match wasm_trans::import_pos(cx, cap_name_of(cx.world, h), op) {
            Some(i) => match wasm_trans::atom_args(s.env, args, args.len()) {
                Ok(v) => {
                    let s1 = wasm_trans::em(wasm_trans::push_args_s(v, v.len(), s), wasm_seq::call_code((i as usize) as u32));
                    if op_returns(cx.world, h, op) {
                        Ok((OutView::Stack, s1))
                    } else {
                        Ok((OutView::Held(SlotView::Unit), s1))
                    }
                },
                Err(e) => Err(e),
            },
            None => Err(WasmErrorView::UnresolvedCapability),
        },
        None => Err(WasmErrorView::UnresolvedCapability),
    }
}

impl Trans {
    fn callee(&self, cx: &Cx, func: &Atom) -> (r: Result<(crate::ir::Hash, Vec<ArgVal>), WasmError>)
        ensures
            match callee_of(cx@, func@, self@.env) {
                Ok((h, args)) => r is Ok && (r->Ok_0).0@ == h && wasm_trans::argvals_view((r->Ok_0).1@) == args,
                Err(e) => r is Err && r->Err_0@ == e,
            },
    {
        match func {
            Atom::Global(h) => {
                if cx.find_fn(h).is_some() {
                    let none: Vec<ArgVal> = Vec::new();
                    assert(wasm_trans::argvals_view(none@) =~= Seq::empty());
                    Ok((*h, none))
                } else {
                    Err(unsupported("application of a non-function"))
                }
            },
            Atom::Var(i) => {
                let x = match self.slot(*i) {
                    Ok(v) => v,
                    Err(e) => {
                        return Err(e);
                    },
                };
                match x {
                    Slot::Partial { func, args } => Ok((func, args)),
                    _ => Err(unsupported("application of a non-function value")),
                }
            },
            _ => Err(unsupported("application of a non-function")),
        }
    }

    pub fn eval_app(&mut self, cx: &Cx, func: &Atom, arg: &Atom) -> (r: Result<Out, WasmError>)
        ensures
            wasm_trans::did_out(r, *final(self), app_s(cx@, func@, arg@, old(self)@)),
    {
        let p = match self.callee(cx, func) {
            Ok(v) => v,
            Err(e) => {
                return Err(e);
            },
        };
        let h = p.0;
        let mut args = p.1;
        let a = match self.resolve_arg(arg) {
            Ok(v) => v,
            Err(e) => {
                return Err(e);
            },
        };
        let ghost before = args@;
        args.push(a);
        assert(wasm_trans::argvals_view(args@) == wasm_trans::argvals_view(before).push(a@)
            && wasm_trans::argvals_view(before).len() == before.len()) by {
            broadcast use wasm_trans::lemma_argvals_view;

            assert(wasm_trans::argvals_view(args@) =~= wasm_trans::argvals_view(before).push(a@));
        }
        match cx.find_fn(&h) {
            Some(i) => {
                assert(cx@.fns[i as int] == cx.fns@[i as int]@);
                if args.len() < cx.fns[i].arity {
                    return Ok(Out::Held(Slot::Partial { func: h, args }));
                }
                self.push_argvals(&args);
                let f = deeper(cx.imports.len() as u32, i as u32);
                self.emit(call_code_of(f));
                Ok(Out::Stack)
            },
            None => Err(WasmError::UnknownGlobal(h)),
        }
    }

    pub fn eval_perform(&mut self, cx: &Cx, cap: &Atom, op: u32, args: &Vec<Atom>) -> (r: Result<
        Out,
        WasmError,
    >)
        ensures
            wasm_trans::did_out(r, *final(self), perform_s(cx@, cap@, op, ir::atoms_view(args@), old(self)@)),
    {
        match resolve_cap_def(cap, &self.tys, cx.world) {
            Some(h) => {
                let name = cap_name(cx.world, &h);
                match cx.find_import_op(name.as_str(), op) {
                    Some(i) => {
                        let v = match self.resolve_args(args) {
                            Ok(v) => v,
                            Err(e) => {
                                return Err(e);
                            },
                        };
                        assert(wasm_trans::argvals_view(v@).len() == v@.len()) by {
                            broadcast use wasm_trans::lemma_argvals_view;

                        }
                        self.push_argvals(&v);
                        self.emit(call_code_of(i as u32));
                        let leaves = match cap_op(cx.world, &h, op) {
                            Some(o) => !is_no_slot(cx.world, &o.ret),
                            None => false,
                        };
                        if leaves {
                            Ok(Out::Stack)
                        } else {
                            Ok(Out::Held(Slot::Unit))
                        }
                    },
                    None => Err(WasmError::UnresolvedCapability),
                }
            },
            None => Err(WasmError::UnresolvedCapability),
        }
    }
}

} // verus!
