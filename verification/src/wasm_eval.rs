//! WebAssembly code for whole terms: bindings, branches and loops.
//!
//! The state that a loop carries lives in locals; every branch of its body writes
//! the next state into them, so a loop over scalars needs no memory of its own.
use vstd::prelude::*;

use crate::ir;
use crate::ir::{Atom, AtomView, Branch, BranchView, Core, CoreView, Type, TypeView};
use crate::wasm_ops;
use crate::wasm_seq;
use crate::wasm_seq::{else_code_of, end_code_of, if_code_of, if_word_code_of, loop_end_code_of, loop_head_code_of, loop_next_code_of, loop_test_code_of, mark_code_of, move_code_of, nonzero_code_of, put_code_of, reset_code_of, return_code_of, tag_test_code_of};
use crate::wasm_trans;
use crate::wasm_trans::{ArgVal, ArgValView, Cx, CxView, Out, OutView, Slot, SlotView, TrSt, Trans, WasmError, WasmErrorView, unsupported, word_offset};
use crate::world;
use crate::world::{World, WorldView, atom_type, clone_opt_type, is_boxed, type_of, variant_fields};

verus! {

// ---- scopes ------------------------------------------------------------------------------------------

/// One more binder.
pub open spec fn enter(s: TrSt, x: SlotView, t: Option<TypeView>) -> TrSt {
    TrSt { env: s.env.push(x), tys: s.tys.push(t), ..s }
}

/// A list without its last `n` members.
pub open spec fn without_last<A>(v: Seq<A>, n: nat) -> Seq<A> {
    if n <= v.len() {
        v.take(v.len() - n)
    } else {
        Seq::empty()
    }
}

/// The innermost `n` binders are gone.
pub open spec fn leave(s: TrSt, n: nat) -> TrSt {
    TrSt { env: without_last(s.env, n), tys: without_last(s.tys, n), ..s }
}

/// The type of the field at a position, if it is known.
pub open spec fn field_ty(fields: Option<Seq<TypeView>>, i: int) -> Option<TypeView> {
    match fields {
        Some(v) => if i < v.len() {
            Some(v[i])
        } else {
            None
        },
        None => None,
    }
}

/// The first `n` fields of the block at `ptr`, as binders.
pub open spec fn bind_fields_s(ptr: u32, fields: Option<Seq<TypeView>>, n: nat, s: TrSt) -> TrSt
    decreases n,
{
    if n == 0 {
        s
    } else {
        let s1 = bind_fields_s(ptr, fields, (n - 1) as nat, s);
        let (l, s2) = wasm_trans::load_word_s(ptr, wasm_trans::word_at((n - 1) as nat), s1);
        enter(s2, SlotView::Local(l), field_ty(fields, n - 1))
    }
}

impl Trans {
    fn enter_binder(&mut self, x: Slot, t: Option<Type>)
        ensures
            final(self)@ == enter(old(self)@, x@, world::opt_type_view(t)),
    {
        broadcast use wasm_trans::lemma_slots_view;

        self.env.push(x);
        self.tys.push(t);
        assert(wasm_trans::slots_view(self.env@) =~= wasm_trans::slots_view(old(self).env@).push(x@));
        assert(world::opt_types_view(self.tys@) =~= world::opt_types_view(old(self).tys@).push(world::opt_type_view(t)));
    }

    fn leave_binders(&mut self, n: usize)
        ensures
            final(self)@ == leave(old(self)@, n as nat),
    {
        broadcast use wasm_trans::lemma_slots_view;

        let ghost e0 = self.env@;
        let ghost t0 = self.tys@;
        let ghost first = *self;
        let mut k: usize = 0;
        while k < n
            invariant
                k <= n,
                self.env@ == without_last(e0, k as nat),
                self.tys@ == without_last(t0, k as nat),
                self.insts == first.insts,
                self.next == first.next,
            decreases n - k,
        {
            let _x = self.env.pop();
            let _t = self.tys.pop();
            assert(self.env@ =~= without_last(e0, (k + 1) as nat));
            assert(self.tys@ =~= without_last(t0, (k + 1) as nat));
            k = k + 1;
        }
        assert(wasm_trans::slots_view(without_last(e0, n as nat)) =~= without_last(wasm_trans::slots_view(e0), n as nat));
        assert(world::opt_types_view(without_last(t0, n as nat)) =~= without_last(
            world::opt_types_view(t0),
            n as nat,
        ));
    }

    fn bind_fields(&mut self, ptr: u32, fields: &Option<Vec<Type>>, n: u32)
        ensures
            final(self)@ == bind_fields_s(ptr, world::opt_list_view(*fields), n as nat, old(self)@),
    {
        broadcast use ir::lemma_types_view;

        let ghost s0 = self@;
        let ghost fv = world::opt_list_view(*fields);
        let mut k: u32 = 0;
        while k < n
            invariant
                k <= n,
                fv == world::opt_list_view(*fields),
                self@ == bind_fields_s(ptr, fv, k as nat, s0),
            decreases n - k,
        {
            let l = self.load_word(ptr, word_offset(k as usize));
            let t = match fields {
                Some(v) => {
                    if (k as usize) < v.len() {
                        Some(v[k as usize].clone())
                    } else {
                        None
                    }
                },
                None => None,
            };
            assert(world::opt_type_view(t) == field_ty(fv, k as int));
            self.enter_binder(Slot::Local(l), t);
            k = k + 1;
        }
    }
}

// ---- the state of a loop -----------------------------------------------------------------------------------

/// As many new locals.
pub open spec fn fresh_n(n: nat, s: TrSt) -> (Seq<u32>, TrSt)
    decreases n,
{
    if n == 0 {
        (Seq::empty(), s)
    } else {
        let (out, s1) = fresh_n((n - 1) as nat, s);
        let (l, s2) = wasm_trans::fresh(s1);
        (out.push(l), s2)
    }
}

/// The first `n` initial values, stored in their locals.
pub open spec fn store_inits_s(v: Seq<ArgValView>, dest: Seq<u32>, n: nat, s: TrSt) -> TrSt
    decreases n,
{
    if n == 0 {
        s
    } else {
        wasm_trans::em(
            wasm_trans::push_arg_s(v[n - 1], store_inits_s(v, dest, (n - 1) as nat, s)),
            wasm_seq::put_code(dest[n - 1]),
        )
    }
}

/// The types of atoms, as far as they are known.
pub open spec fn atom_tys(w: WorldView, v: Seq<AtomView>, tys: Seq<Option<TypeView>>) -> Seq<
    Option<TypeView>,
> {
    Seq::new(v.len(), |i: int| world::type_of_atom(w, v[i], tys))
}

/// Whether all types are known and none is that of a block: then nothing that an
/// iteration makes in memory outlives it.
pub open spec fn all_words(w: WorldView, v: Seq<Option<TypeView>>) -> bool {
    forall|i: int| 0 <= i < v.len() ==> #[trigger] v[i] is Some && !world::boxed(w, v[i]->0)
}

/// The binders of the first `n` carried variables.
pub open spec fn enter_carried(dest: Seq<u32>, tys: Seq<Option<TypeView>>, n: nat, s: TrSt) -> TrSt
    decreases n,
{
    if n == 0 {
        s
    } else {
        enter(enter_carried(dest, tys, (n - 1) as nat, s), SlotView::Local(dest[n - 1]), tys[n - 1])
    }
}

/// The mark that memory is taken back to, if it may be.
pub open spec fn mark_s(reset: bool, s: TrSt) -> (u32, TrSt) {
    if reset {
        let (l, s1) = wasm_trans::fresh(s);
        (l, wasm_trans::em(s1, wasm_seq::mark_code(l)))
    } else {
        (0, s)
    }
}

pub open spec fn reset_s(reset: bool, mark: u32, s: TrSt) -> TrSt {
    if reset {
        wasm_trans::em(s, wasm_seq::reset_code(mark))
    } else {
        s
    }
}

/// The first `n` values of the next state, copied to the carried locals. Nothing
/// is copied for a value that is nothing.
pub open spec fn copy_carried_s(dest: Seq<u32>, next: Seq<SlotView>, n: nat, s: TrSt) -> Result<
    TrSt,
    WasmErrorView,
>
    decreases n,
{
    if n == 0 {
        Ok(s)
    } else {
        match copy_carried_s(dest, next, (n - 1) as nat, s) {
            Ok(s1) => match next[n - 1] {
                SlotView::Local(src) => Ok(wasm_trans::em(s1, wasm_seq::move_code(src, dest[n - 1]))),
                SlotView::Unit => Ok(s1),
                _ => Err(wasm_trans::unsupported_view("non-scalar loop-carried value"@)),
            },
            Err(e) => Err(e),
        }
    }
}

/// The shorter of two lengths.
pub open spec fn both_len(a: nat, b: nat) -> nat {
    if a < b {
        a
    } else {
        b
    }
}

proof fn lemma_copy_fail(dest: Seq<u32>, next: Seq<SlotView>, i: nat, n: nat, s: TrSt)
    requires
        i <= n,
        copy_carried_s(dest, next, i, s) is Err,
    ensures
        copy_carried_s(dest, next, n, s) == copy_carried_s(dest, next, i, s),
    decreases n - i,
{
    if i < n {
        assert(copy_carried_s(dest, next, i + 1, s) == copy_carried_s(dest, next, i, s));
        lemma_copy_fail(dest, next, i + 1, n, s);
    }
}

fn local_slots(v: &Vec<u32>) -> (r: Vec<Slot>)
    ensures
        wasm_trans::slots_view(r@) == v@.map_values(|l: u32| SlotView::Local(l)),
{
    broadcast use wasm_trans::lemma_slots_view;

    let mut out: Vec<Slot> = Vec::new();
    let mut i: usize = 0;
    while i < v.len()
        invariant
            i <= v@.len(),
            out@.len() == i,
            forall|k: int| 0 <= k < i ==> #[trigger] out@[k]@ == SlotView::Local(v@[k]),
        decreases v@.len() - i,
    {
        out.push(Slot::Local(v[i]));
        i = i + 1;
    }
    assert(wasm_trans::slots_view(out@) =~= v@.map_values(|l: u32| SlotView::Local(l)));
    out
}

fn all_words_of(w: &World, v: &Vec<Option<Type>>) -> (r: bool)
    ensures
        r == all_words(w@, world::opt_types_view(v@)),
{
    let ghost ov = world::opt_types_view(v@);
    let mut i: usize = 0;
    while i < v.len()
        invariant
            i <= v@.len(),
            ov == world::opt_types_view(v@),
            forall|k: int| 0 <= k < i ==> #[trigger] ov[k] is Some && !world::boxed(w@, ov[k]->0),
        decreases v@.len() - i,
    {
        assert(ov[i as int] == world::opt_type_view(v@[i as int]));
        match &v[i] {
            Some(t) => {
                if is_boxed(w, t) {
                    return false;
                }
            },
            None => {
                return false;
            },
        }
        i = i + 1;
    }
    true
}

impl Trans {
    fn locals(&mut self, n: usize) -> (r: Vec<u32>)
        ensures
            (r@, final(self)@) == fresh_n(n as nat, old(self)@),
            r@.len() == n,
    {
        let ghost s0 = self@;
        let mut out: Vec<u32> = Vec::new();
        let mut i: usize = 0;
        assert(out@ =~= Seq::empty());
        while i < n
            invariant
                i <= n,
                out@.len() == i,
                (out@, self@) == fresh_n(i as nat, s0),
            decreases n - i,
        {
            let l = self.local();
            out.push(l);
            i = i + 1;
        }
        out
    }

    fn store_inits(&mut self, v: &Vec<ArgVal>, dest: &Vec<u32>)
        requires
            v@.len() == dest@.len(),
        ensures
            final(self)@ == store_inits_s(wasm_trans::argvals_view(v@), dest@, v@.len(), old(self)@),
    {
        broadcast use wasm_trans::lemma_argvals_view;

        let ghost s0 = self@;
        let mut i: usize = 0;
        while i < v.len()
            invariant
                i <= v@.len(),
                v@.len() == dest@.len(),
                self@ == store_inits_s(wasm_trans::argvals_view(v@), dest@, i as nat, s0),
            decreases v@.len() - i,
        {
            assert(wasm_trans::argvals_view(v@)[i as int] == v@[i as int]@);
            self.push_argval(&v[i]);
            self.emit(put_code_of(dest[i]));
            i = i + 1;
        }
    }

    fn types_of_atoms(&self, cx: &Cx, v: &Vec<Atom>) -> (r: Vec<Option<Type>>)
        ensures
            world::opt_types_view(r@) == atom_tys(cx@.world, ir::atoms_view(v@), self@.tys),
    {
        let ghost av = ir::atoms_view(v@);
        let mut out: Vec<Option<Type>> = Vec::new();
        let mut i: usize = 0;
        while i < v.len()
            invariant
                i <= v@.len(),
                av == ir::atoms_view(v@),
                out@.len() == i,
                forall|k: int|
                    0 <= k < i ==> world::opt_type_view(#[trigger] out@[k]) == world::type_of_atom(
                        cx@.world,
                        av[k],
                        self@.tys,
                    ),
            decreases v@.len() - i,
        {
            assert(av[i as int] == v@[i as int]@);
            let t = atom_type(cx.world, &v[i], &self.tys);
            out.push(t);
            i = i + 1;
        }
        assert(world::opt_types_view(out@) =~= atom_tys(cx@.world, av, self@.tys));
        out
    }

    fn enter_state(&mut self, dest: &Vec<u32>, tys: &Vec<Option<Type>>)
        requires
            dest@.len() == tys@.len(),
        ensures
            final(self)@ == enter_carried(dest@, world::opt_types_view(tys@), dest@.len(), old(self)@),
    {
        let ghost s0 = self@;
        let ghost tv = world::opt_types_view(tys@);
        let mut i: usize = 0;
        while i < dest.len()
            invariant
                i <= dest@.len(),
                tv == world::opt_types_view(tys@),
                dest@.len() == tys@.len(),
                self@ == enter_carried(dest@, tv, i as nat, s0),
            decreases dest@.len() - i,
        {
            assert(tv[i as int] == world::opt_type_view(tys@[i as int]));
            let t = clone_opt_type(&tys[i]);
            self.enter_binder(Slot::Local(dest[i]), t);
            i = i + 1;
        }
    }

    fn mark(&mut self, reset: bool) -> (r: u32)
        ensures
            (r, final(self)@) == mark_s(reset, old(self)@),
    {
        if reset {
            let l = self.local();
            self.emit(mark_code_of(l));
            l
        } else {
            0
        }
    }

    fn reset_heap(&mut self, reset: bool, mark: u32)
        ensures
            final(self)@ == reset_s(reset, mark, old(self)@),
    {
        if reset {
            self.emit(reset_code_of(mark));
        }
    }

    fn copy_into_carried(&mut self, dest: &Vec<u32>, next: &Vec<Slot>) -> (r: Result<(), WasmError>)
        ensures
            wasm_trans::did(
                r,
                *final(self),
                copy_carried_s(
                    dest@,
                    wasm_trans::slots_view(next@),
                    both_len(dest@.len(), next@.len()),
                    old(self)@,
                ),
            ),
    {
        broadcast use wasm_trans::lemma_slots_view;

        let ghost s0 = self@;
        let ghost nv = wasm_trans::slots_view(next@);
        let ghost n = both_len(dest@.len(), next@.len());
        let mut i: usize = 0;
        while i < dest.len() && i < next.len()
            invariant
                i <= n,
                s0 == old(self)@,
                n == both_len(dest@.len(), next@.len()),
                nv == wasm_trans::slots_view(next@),
                copy_carried_s(dest@, nv, i as nat, s0) == Ok::<TrSt, WasmErrorView>(self@),
            decreases n - i,
        {
            assert(nv[i as int] == next@[i as int]@);
            match &next[i] {
                Slot::Local(src) => {
                    self.emit(move_code_of(*src, dest[i]));
                },
                Slot::Unit => {},
                _ => {
                    proof {
                        lemma_copy_fail(dest@, nv, (i + 1) as nat, n, s0);
                    }
                    return Err(unsupported("non-scalar loop-carried value"));
                },
            }
            i = i + 1;
        }
        Ok(())
    }
}

// ---- terms ---------------------------------------------------------------------------------------------------

/// Whether a scrutinee is a block, and its type then.
pub open spec fn block_type(cx: CxView, a: AtomView, s: TrSt) -> Option<TypeView> {
    match world::type_of_atom(cx.world, a, s.tys) {
        Some(t) => if world::boxed(cx.world, t) {
            Some(t)
        } else {
            None
        },
        None => None,
    }
}

/// Whether branches are those of a truth value: two, without binders.
pub open spec fn is_if(v: Seq<BranchView>) -> bool {
    v.len() == 2 && v[0].binds == 0 && v[1].binds == 0
}

/// The scrutinee of a two-way branch, as a condition.
pub open spec fn condition_s(a: AtomView, s: TrSt) -> Result<TrSt, WasmErrorView> {
    match wasm_trans::atom_arg(s.env, a) {
        Ok(ArgValView::Unit) => Err(wasm_trans::unsupported_view("unit match scrutinee"@)),
        Ok(x) => Ok(wasm_trans::em(wasm_trans::push_arg_s(x, s), wasm_seq::nonzero_code())),
        Err(e) => Err(e),
    }
}

/// Locals with the pointer of a scrutinee and with its tag.
pub open spec fn scrutinee_s(a: AtomView, s: TrSt) -> Result<((u32, u32), TrSt), WasmErrorView> {
    let (ptr, s1) = wasm_trans::fresh(s);
    match wasm_trans::atom_arg(s1.env, a) {
        Ok(x) => {
            let (tag, s2) = wasm_trans::load_word_s(ptr, 0, wasm_trans::em(wasm_trans::push_arg_s(x, s1), wasm_seq::put_code(ptr)));
            Ok(((ptr, tag), s2))
        },
        Err(e) => Err(e),
    }
}

/// The code of a term, and what the term leaves behind.
pub open spec fn eval_s(cx: CxView, c: CoreView, s: TrSt) -> Result<(OutView, TrSt), WasmErrorView>
    decreases c, 2nat, 0nat,
{
    match c {
        CoreView::Atom(a) => wasm_trans::atom_out_s(cx, a, s),
        CoreView::Let { value, body } => match eval_s(cx, *value, s) {
            Ok((out, s1)) => match wasm_trans::bind_out_s(out, s1) {
                Some((x, s2)) => match eval_s(
                    cx,
                    *body,
                    enter(s2, x, world::type_of_s(cx.world, *value, s2.tys)),
                ) {
                    Ok((o, s3)) => Ok((o, leave(s3, 1))),
                    Err(e) => Err(e),
                },
                None => Ok((OutView::Returned, s1)),
            },
            Err(e) => Err(e),
        },
        CoreView::App { func, arg } => wasm_ops::app_s(cx, func, arg, s),
        CoreView::Prim { op, args } => wasm_ops::prim_s(cx, op, args, s),
        CoreView::Cast { value, to } => wasm_ops::cast_s(value, to, s),
        CoreView::Match { scrutinee, branches } => match_s(cx, scrutinee, branches, s),
        CoreView::Perform { cap, op, args } => wasm_ops::perform_s(cx, cap, op, args, s),
        CoreView::Ctor { ty, tag, fields } => match wasm_trans::local_slots_s(cx, fields, fields.len(), s) {
            Ok((v, s1)) => Ok((OutView::Held(SlotView::Tuple { tag, fields: v }), s1)),
            Err(e) => Err(e),
        },
        CoreView::Array { elem, items } => match wasm_trans::local_slots_s(cx, items, items.len(), s) {
            Ok((v, s1)) => Ok(
                (
                    OutView::Held(
                        SlotView::Tuple { tag: (items.len() as usize) as u32, fields: v },
                    ),
                    s1,
                ),
            ),
            Err(e) => Err(e),
        },
        CoreView::IndexSet { base, index, value } => wasm_ops::index_set_s(cx, base, index, value, s),
        CoreView::ListNew { elem, alloc, capacity } => wasm_ops::list_new_s(cx, capacity, s),
        CoreView::ListPush { alloc, list, value } => wasm_ops::list_push_s(cx, list, value, s),
        CoreView::ListPop { list } => wasm_ops::list_pop_s(cx, list, s),
        CoreView::ListSet { list, index, value } => wasm_ops::list_set_s(cx, list, index, value, s),
        CoreView::Proj { base, idx } => wasm_ops::proj_s(base, idx, s),
        CoreView::Loop { state, inv, cond, body } => loop_s(cx, c, s),
        CoreView::Ref { mutable, of } => wasm_trans::atom_out_s(cx, of, s),
        CoreView::Lam { param, effects, body } => Err(wasm_trans::unsupported_view("first-class lambda"@)),
        CoreView::Raise { error, args } => Err(wasm_trans::unsupported_view("raise"@)),
        CoreView::Return { value } => match wasm_trans::atom_out_s(cx, value, s) {
            Ok((out, s1)) => match wasm_trans::coerce_s(out, s1) {
                Ok(s2) => Ok((OutView::Returned, wasm_trans::em(s2, wasm_seq::return_code()))),
                Err(e) => Err(e),
            },
            Err(e) => Err(e),
        },
    }
}

/// A loop: `block { loop { test; body; again } }`.
pub open spec fn loop_s(cx: CxView, c: CoreView, s: TrSt) -> Result<(OutView, TrSt), WasmErrorView>
    decreases c, 1nat, 0nat,
{
    match c {
        CoreView::Loop { state, inv, cond, body } => {
            let k = state.len();
            match wasm_trans::atom_args(s.env, state, k) {
                Ok(inits) => {
                    let (dest, s1) = fresh_n(k, s);
                    let s2 = store_inits_s(inits, dest, k, s1);
                    let tys = atom_tys(cx.world, state, s2.tys);
                    let reset = all_words(cx.world, tys);
                    let (mark, s3) = mark_s(reset, s2);
                    let s4 = wasm_trans::em(enter_carried(dest, tys, k, s3), wasm_seq::loop_head_code());
                    match eval_s(cx, *cond, s4) {
                        Ok((out, s5)) => match wasm_trans::coerce_s(out, s5) {
                            Ok(s6) => match loop_body_s(cx, *body, dest, wasm_trans::em(s6, wasm_seq::loop_test_code())) {
                                Ok((goes_on, s7)) => {
                                    let s8 = if goes_on {
                                        wasm_trans::em(reset_s(reset, mark, s7), wasm_seq::loop_next_code())
                                    } else {
                                        s7
                                    };
                                    let s9 = reset_s(reset, mark, wasm_trans::em(s8, wasm_seq::loop_end_code()));
                                    Ok(
                                        (
                                            OutView::Held(
                                                SlotView::Tuple {
                                                    tag: 0,
                                                    fields: dest.map_values(
                                                        |l: u32| SlotView::Local(l),
                                                    ),
                                                },
                                            ),
                                            leave(s9, k),
                                        ),
                                    )
                                },
                                Err(e) => Err(e),
                            },
                            Err(e) => Err(e),
                        },
                        Err(e) => Err(e),
                    }
                },
                Err(e) => Err(e),
            }
        },
        _ => Err(wasm_trans::unsupported_view("loop"@)),
    }
}

/// The body of a loop: the next state goes to the carried locals. Whether the
/// loop goes on is the first part of the result.
pub open spec fn loop_body_s(cx: CxView, c: CoreView, dest: Seq<u32>, s: TrSt) -> Result<
    (bool, TrSt),
    WasmErrorView,
>
    decreases c, 3nat, 0nat,
{
    match c {
        CoreView::Let { value, body } => match eval_s(cx, *value, s) {
            Ok((out, s1)) => match wasm_trans::bind_out_s(out, s1) {
                Some((x, s2)) => match loop_body_s(
                    cx,
                    *body,
                    dest,
                    enter(s2, x, world::type_of_s(cx.world, *value, s2.tys)),
                ) {
                    Ok((g, s3)) => Ok((g, leave(s3, 1))),
                    Err(e) => Err(e),
                },
                None => Ok((false, s1)),
            },
            Err(e) => Err(e),
        },
        CoreView::Match { scrutinee, branches } => loop_match_s(cx, scrutinee, branches, dest, s),
        _ => match eval_s(cx, c, s) {
            Ok((OutView::Held(SlotView::Tuple { tag, fields }), s1)) => match copy_carried_s(
                dest,
                fields,
                both_len(dest.len(), fields.len()),
                s1,
            ) {
                Ok(s2) => Ok((true, s2)),
                Err(e) => Err(e),
            },
            Ok((OutView::Returned, s1)) => Ok((false, s1)),
            Ok((OutView::Held(SlotView::Unit), s1)) => if dest.len() == 0 {
                Ok((true, s1))
            } else {
                Err(wasm_trans::unsupported_view("loop body did not produce its carried state"@))
            },
            Ok(_) => Err(wasm_trans::unsupported_view("loop body did not produce its carried state"@)),
            Err(e) => Err(e),
        },
    }
}

/// A branch at the end of a loop's body.
pub open spec fn loop_match_s(
    cx: CxView,
    scrutinee: AtomView,
    branches: Seq<BranchView>,
    dest: Seq<u32>,
    s: TrSt,
) -> Result<(bool, TrSt), WasmErrorView>
    decreases branches, 1nat, 0nat,
{
    match block_type(cx, scrutinee, s) {
        Some(t) => if branches.len() == 0 {
            Err(wasm_trans::unsupported_view("match with no branches"@))
        } else {
            match scrutinee_s(scrutinee, s) {
                Ok(((ptr, tag), s1)) => loop_arms_s(cx, branches, 0, ptr, tag, t, dest, s1),
                Err(e) => Err(e),
            }
        },
        None => if !is_if(branches) {
            Err(
                wasm_trans::unsupported_view(
                    "loop branch join on a value whose layout could not be determined"@,
                ),
            )
        } else {
            match condition_s(scrutinee, s) {
                Ok(s1) => match loop_body_s(cx, branches[1].body, dest, wasm_trans::em(s1, wasm_seq::if_code())) {
                    Ok((g1, s2)) => match loop_body_s(
                        cx,
                        branches[0].body,
                        dest,
                        wasm_trans::em(s2, wasm_seq::else_code()),
                    ) {
                        Ok((g0, s3)) => Ok((g1 || g0, wasm_trans::em(s3, wasm_seq::end_code()))),
                        Err(e) => Err(e),
                    },
                    Err(e) => Err(e),
                },
                Err(e) => Err(e),
            }
        },
    }
}

/// The branches from `t` on, in a loop's body: the tag is tested for each but the
/// last.
pub open spec fn loop_arms_s(
    cx: CxView,
    branches: Seq<BranchView>,
    t: nat,
    ptr: u32,
    tag: u32,
    ty: TypeView,
    dest: Seq<u32>,
    s: TrSt,
) -> Result<(bool, TrSt), WasmErrorView>
    decreases branches, 0nat, branches.len() - t,
{
    if t >= branches.len() {
        Ok((false, s))
    } else if t + 1 == branches.len() {
        loop_arm_s(cx, branches[t as int], t, ptr, ty, dest, s)
    } else {
        match loop_arm_s(
            cx,
            branches[t as int],
            t,
            ptr,
            ty,
            dest,
            wasm_trans::em(wasm_trans::em(s, wasm_seq::tag_test_code(tag, (t as usize) as i64)), wasm_seq::if_code()),
        ) {
            Ok((g1, s1)) => match loop_arms_s(
                cx,
                branches,
                t + 1,
                ptr,
                tag,
                ty,
                dest,
                wasm_trans::em(s1, wasm_seq::else_code()),
            ) {
                Ok((g0, s2)) => Ok((g1 || g0, wasm_trans::em(s2, wasm_seq::end_code()))),
                Err(e) => Err(e),
            },
            Err(e) => Err(e),
        }
    }
}

/// One branch in a loop's body.
pub open spec fn loop_arm_s(
    cx: CxView,
    b: BranchView,
    t: nat,
    ptr: u32,
    ty: TypeView,
    dest: Seq<u32>,
    s: TrSt,
) -> Result<(bool, TrSt), WasmErrorView>
    decreases b, 0nat, 0nat,
{
    let fields = world::fields_of(cx.world, ty, ((t as usize) as u32) as int);
    match loop_body_s(cx, b.body, dest, bind_fields_s(ptr, fields, b.binds as nat, s)) {
        Ok((g, s1)) => Ok((g, leave(s1, b.binds as nat))),
        Err(e) => Err(e),
    }
}

/// A branch: by the truth of a word, or by the tag of a block.
pub open spec fn match_s(cx: CxView, scrutinee: AtomView, branches: Seq<BranchView>, s: TrSt) -> Result<
    (OutView, TrSt),
    WasmErrorView,
>
    decreases branches, 1nat, 0nat,
{
    match block_type(cx, scrutinee, s) {
        Some(t) => if branches.len() == 0 {
            Err(wasm_trans::unsupported_view("match with no branches"@))
        } else {
            match scrutinee_s(scrutinee, s) {
                Ok(((ptr, tag), s1)) => match arms_s(cx, branches, 0, ptr, tag, t, s1) {
                    Ok(s2) => Ok((OutView::Stack, s2)),
                    Err(e) => Err(e),
                },
                Err(e) => Err(e),
            }
        },
        None => if !is_if(branches) {
            Err(wasm_trans::unsupported_view("match on a value whose layout could not be determined"@))
        } else {
            match condition_s(scrutinee, s) {
                Ok(s1) => match word_s(cx, branches[1].body, wasm_trans::em(s1, wasm_seq::if_word_code())) {
                    Ok(s2) => match word_s(cx, branches[0].body, wasm_trans::em(s2, wasm_seq::else_code())) {
                        Ok(s3) => Ok((OutView::Stack, wasm_trans::em(s3, wasm_seq::end_code()))),
                        Err(e) => Err(e),
                    },
                    Err(e) => Err(e),
                },
                Err(e) => Err(e),
            }
        },
    }
}

/// A term as a word on the stack.
pub open spec fn word_s(cx: CxView, c: CoreView, s: TrSt) -> Result<TrSt, WasmErrorView>
    decreases c, 3nat, 0nat,
{
    match eval_s(cx, c, s) {
        Ok((out, s1)) => wasm_trans::coerce_s(out, s1),
        Err(e) => Err(e),
    }
}

/// The branches from `t` on: the tag is tested for each but the last.
pub open spec fn arms_s(
    cx: CxView,
    branches: Seq<BranchView>,
    t: nat,
    ptr: u32,
    tag: u32,
    ty: TypeView,
    s: TrSt,
) -> Result<TrSt, WasmErrorView>
    decreases branches, 0nat, branches.len() - t,
{
    if t >= branches.len() {
        Ok(s)
    } else if t + 1 == branches.len() {
        arm_s(cx, branches[t as int], t, ptr, ty, s)
    } else {
        match arm_s(
            cx,
            branches[t as int],
            t,
            ptr,
            ty,
            wasm_trans::em(wasm_trans::em(s, wasm_seq::tag_test_code(tag, (t as usize) as i64)), wasm_seq::if_word_code()),
        ) {
            Ok(s1) => match arms_s(cx, branches, t + 1, ptr, tag, ty, wasm_trans::em(s1, wasm_seq::else_code())) {
                Ok(s2) => Ok(wasm_trans::em(s2, wasm_seq::end_code())),
                Err(e) => Err(e),
            },
            Err(e) => Err(e),
        }
    }
}

/// One branch.
pub open spec fn arm_s(cx: CxView, b: BranchView, t: nat, ptr: u32, ty: TypeView, s: TrSt) -> Result<
    TrSt,
    WasmErrorView,
>
    decreases b, 0nat, 0nat,
{
    let fields = world::fields_of(cx.world, ty, ((t as usize) as u32) as int);
    match word_s(cx, b.body, bind_fields_s(ptr, fields, b.binds as nat, s)) {
        Ok(s1) => Ok(leave(s1, b.binds as nat)),
        Err(e) => Err(e),
    }
}

/// What compiling a loop's body did: `want`.
pub open spec fn did_loop(
    r: Result<bool, WasmError>,
    t: Trans,
    want: Result<(bool, TrSt), WasmErrorView>,
) -> bool {
    match want {
        Ok((g, s)) => r is Ok && r->Ok_0 == g && t@ == s,
        Err(e) => r is Err && r->Err_0@ == e,
    }
}

impl Trans {
    fn block_scrutinee(&self, cx: &Cx, a: &Atom) -> (r: Option<Type>)
        ensures
            world::opt_type_view(r) == block_type(cx@, a@, self@),
    {
        match atom_type(cx.world, a, &self.tys) {
            Some(t) => {
                if is_boxed(cx.world, &t) {
                    Some(t)
                } else {
                    None
                }
            },
            None => None,
        }
    }

    fn emit_condition(&mut self, a: &Atom) -> (r: Result<(), WasmError>)
        ensures
            wasm_trans::did(r, *final(self), condition_s(a@, old(self)@)),
    {
        let x = match self.resolve_arg(a) {
            Ok(v) => v,
            Err(e) => {
                return Err(e);
            },
        };
        if let ArgVal::Unit = &x {
            return Err(unsupported("unit match scrutinee"));
        }
        self.push_argval(&x);
        self.emit(nonzero_code_of());
        Ok(())
    }

    fn emit_scrutinee(&mut self, a: &Atom) -> (r: Result<(u32, u32), WasmError>)
        ensures
            match scrutinee_s(a@, old(self)@) {
                Ok((p, s)) => r is Ok && r->Ok_0 == p && final(self)@ == s,
                Err(e) => r is Err && r->Err_0@ == e,
            },
    {
        let ptr = self.local();
        let x = match self.resolve_arg(a) {
            Ok(v) => v,
            Err(e) => {
                return Err(e);
            },
        };
        self.push_argval(&x);
        self.emit(put_code_of(ptr));
        let tag = self.load_word(ptr, 0);
        Ok((ptr, tag))
    }

    /// Emit a term.
    pub fn eval(&mut self, cx: &Cx, c: &Core) -> (r: Result<Out, WasmError>)
        ensures
            wasm_trans::did_out(r, *final(self), eval_s(cx@, c@, old(self)@)),
        decreases c, 2nat, 0nat,
    {
        match c {
            Core::Atom(a) => self.eval_atom(cx, a),
            Core::Let { value, body } => {
                let out = match self.eval(cx, value) {
                    Ok(v) => v,
                    Err(e) => {
                        return Err(e);
                    },
                };
                match self.bind_out(out) {
                    Some(x) => {
                        let t = type_of(cx.world, value, &mut self.tys);
                        self.enter_binder(x, t);
                        let o = match self.eval(cx, body) {
                            Ok(v) => v,
                            Err(e) => {
                                return Err(e);
                            },
                        };
                        self.leave_binders(1);
                        Ok(o)
                    },
                    None => Ok(Out::Returned),
                }
            },
            Core::App { func, arg } => self.eval_app(cx, func, arg),
            Core::Prim { op, args } => self.eval_prim(cx, *op, args),
            Core::Cast { value, to } => self.eval_cast(value, to),
            Core::Match { scrutinee, branches } => self.eval_match(cx, scrutinee, branches),
            Core::Perform { cap, op, args } => self.eval_perform(cx, cap, op.0, args),
            Core::Ctor { ty: _, tag, fields } => {
                let v = match self.atoms_to_local_slots(cx, fields) {
                    Ok(v) => v,
                    Err(e) => {
                        return Err(e);
                    },
                };
                Ok(Out::Held(Slot::Tuple { tag: *tag, fields: v }))
            },
            Core::Array { elem: _, items } => {
                let v = match self.atoms_to_local_slots(cx, items) {
                    Ok(v) => v,
                    Err(e) => {
                        return Err(e);
                    },
                };
                Ok(Out::Held(Slot::Tuple { tag: items.len() as u32, fields: v }))
            },
            Core::IndexSet { base, index, value } => self.eval_index_set(cx, base, index, value),
            Core::ListNew { elem: _, alloc: _, capacity } => self.eval_list_new(cx, capacity),
            Core::ListPush { alloc: _, list, value } => self.eval_list_push(cx, list, value),
            Core::ListPop { list } => self.eval_list_pop(cx, list),
            Core::ListSet { list, index, value } => self.eval_list_set(cx, list, index, value),
            Core::Proj { base, idx } => self.eval_proj(base, *idx),
            Core::Loop { state: _, inv: _, cond: _, body: _ } => self.eval_loop(cx, c),
            Core::Ref { mutable: _, of } => self.eval_atom(cx, of),
            Core::Lam { param: _, effects: _, body: _ } => Err(unsupported("first-class lambda")),
            Core::Raise { error: _, args: _ } => Err(unsupported("raise")),
            Core::Return { value } => {
                let out = match self.eval_atom(cx, value) {
                    Ok(v) => v,
                    Err(e) => {
                        return Err(e);
                    },
                };
                if let Err(e) = self.coerce_to_word(out) {
                    return Err(e);
                }
                self.emit(return_code_of());
                Ok(Out::Returned)
            },
        }
    }

    fn eval_loop(&mut self, cx: &Cx, c: &Core) -> (r: Result<Out, WasmError>)
        ensures
            wasm_trans::did_out(r, *final(self), loop_s(cx@, c@, old(self)@)),
        decreases c, 1nat, 0nat,
    {
        match c {
            Core::Loop { state, inv: _, cond, body } => {
                let inits = match self.resolve_args(state) {
                    Ok(v) => v,
                    Err(e) => {
                        return Err(e);
                    },
                };
                let dest = self.locals(state.len());
                assert(wasm_trans::argvals_view(inits@).len() == inits@.len()) by {
                    broadcast use wasm_trans::lemma_argvals_view;

                }
                proof {
                    lemma_atom_args_len(old(self)@.env, ir::atoms_view(state@), state@.len());
                }
                self.store_inits(&inits, &dest);
                let tys = self.types_of_atoms(cx, state);
                assert(world::opt_types_view(tys@).len() == tys@.len());
                let reset = all_words_of(cx.world, &tys);
                let mark = self.mark(reset);
                self.enter_state(&dest, &tys);
                self.emit(loop_head_code_of());
                let out = match self.eval(cx, cond) {
                    Ok(v) => v,
                    Err(e) => {
                        return Err(e);
                    },
                };
                if let Err(e) = self.coerce_to_word(out) {
                    return Err(e);
                }
                self.emit(loop_test_code_of());
                let goes_on = match self.eval_loop_body(cx, body, &dest) {
                    Ok(v) => v,
                    Err(e) => {
                        return Err(e);
                    },
                };
                if goes_on {
                    self.reset_heap(reset, mark);
                    self.emit(loop_next_code_of());
                }
                self.emit(loop_end_code_of());
                self.reset_heap(reset, mark);
                self.leave_binders(state.len());
                Ok(Out::Held(Slot::Tuple { tag: 0, fields: local_slots(&dest) }))
            },
            _ => Err(unsupported("loop")),
        }
    }

    fn eval_loop_body(&mut self, cx: &Cx, c: &Core, dest: &Vec<u32>) -> (r: Result<bool, WasmError>)
        ensures
            did_loop(r, *final(self), loop_body_s(cx@, c@, dest@, old(self)@)),
        decreases c, 3nat, 0nat,
    {
        match c {
            Core::Let { value, body } => {
                let out = match self.eval(cx, value) {
                    Ok(v) => v,
                    Err(e) => {
                        return Err(e);
                    },
                };
                match self.bind_out(out) {
                    Some(x) => {
                        let t = type_of(cx.world, value, &mut self.tys);
                        self.enter_binder(x, t);
                        let g = match self.eval_loop_body(cx, body, dest) {
                            Ok(v) => v,
                            Err(e) => {
                                return Err(e);
                            },
                        };
                        self.leave_binders(1);
                        Ok(g)
                    },
                    None => Ok(false),
                }
            },
            Core::Match { scrutinee, branches } => self.eval_loop_match(cx, scrutinee, branches, dest),
            _ => {
                let out = match self.eval(cx, c) {
                    Ok(v) => v,
                    Err(e) => {
                        return Err(e);
                    },
                };
                match out {
                    Out::Held(Slot::Tuple { tag: _, fields }) => {
                        assert(wasm_trans::slots_view(fields@).len() == fields@.len()) by {
                            broadcast use wasm_trans::lemma_slots_view;

                        }
                        if let Err(e) = self.copy_into_carried(dest, &fields) {
                            return Err(e);
                        }
                        Ok(true)
                    },
                    Out::Returned => Ok(false),
                    Out::Held(Slot::Unit) => {
                        if dest.len() == 0 {
                            Ok(true)
                        } else {
                            Err(unsupported("loop body did not produce its carried state"))
                        }
                    },
                    _ => Err(unsupported("loop body did not produce its carried state")),
                }
            },
        }
    }

    fn eval_loop_match(
        &mut self,
        cx: &Cx,
        scrutinee: &Atom,
        branches: &Vec<Branch>,
        dest: &Vec<u32>,
    ) -> (r: Result<bool, WasmError>)
        ensures
            did_loop(
                r,
                *final(self),
                loop_match_s(cx@, scrutinee@, ir::branches_view(branches@), dest@, old(self)@),
            ),
        decreases branches@, 1nat, 0nat,
    {
        broadcast use ir::lemma_branches_view;

        let ghost bv = ir::branches_view(branches@);
        match self.block_scrutinee(cx, scrutinee) {
            Some(t) => {
                if branches.len() == 0 {
                    return Err(unsupported("match with no branches"));
                }
                let p = match self.emit_scrutinee(scrutinee) {
                    Ok(v) => v,
                    Err(e) => {
                        return Err(e);
                    },
                };
                self.emit_loop_arms(cx, branches, 0, p.0, p.1, &t, dest)
            },
            None => {
                assert(branches@.len() == 2 ==> bv[0] == branches@[0]@ && bv[1] == branches@[1]@);
                if branches.len() != 2 || branches[0].binds != 0 || branches[1].binds != 0 {
                    return Err(
                        unsupported(
                            "loop branch join on a value whose layout could not be determined",
                        ),
                    );
                }
                if let Err(e) = self.emit_condition(scrutinee) {
                    return Err(e);
                }
                self.emit(if_code_of());
                let g1 = match self.eval_loop_body(cx, &branches[1].body, dest) {
                    Ok(v) => v,
                    Err(e) => {
                        return Err(e);
                    },
                };
                self.emit(else_code_of());
                let g0 = match self.eval_loop_body(cx, &branches[0].body, dest) {
                    Ok(v) => v,
                    Err(e) => {
                        return Err(e);
                    },
                };
                self.emit(end_code_of());
                Ok(g1 || g0)
            },
        }
    }

    fn emit_loop_arms(
        &mut self,
        cx: &Cx,
        branches: &Vec<Branch>,
        t: usize,
        ptr: u32,
        tag: u32,
        ty: &Type,
        dest: &Vec<u32>,
    ) -> (r: Result<bool, WasmError>)
        requires
            t < branches@.len(),
        ensures
            did_loop(
                r,
                *final(self),
                loop_arms_s(
                    cx@,
                    ir::branches_view(branches@),
                    t as nat,
                    ptr,
                    tag,
                    ty@,
                    dest@,
                    old(self)@,
                ),
            ),
        decreases branches@, 0nat, branches@.len() - t,
    {
        broadcast use ir::lemma_branches_view;

        assert(ir::branches_view(branches@)[t as int] == branches@[t as int]@);
        if t == branches.len() - 1 {
            return self.emit_loop_arm(cx, &branches[t], t, ptr, ty, dest);
        }
        self.emit(tag_test_code_of(tag, t as i64));
        self.emit(if_code_of());
        let g1 = match self.emit_loop_arm(cx, &branches[t], t, ptr, ty, dest) {
            Ok(v) => v,
            Err(e) => {
                return Err(e);
            },
        };
        self.emit(else_code_of());
        let g0 = match self.emit_loop_arms(cx, branches, t + 1, ptr, tag, ty, dest) {
            Ok(v) => v,
            Err(e) => {
                return Err(e);
            },
        };
        self.emit(end_code_of());
        Ok(g1 || g0)
    }

    fn emit_loop_arm(
        &mut self,
        cx: &Cx,
        b: &Branch,
        t: usize,
        ptr: u32,
        ty: &Type,
        dest: &Vec<u32>,
    ) -> (r: Result<bool, WasmError>)
        ensures
            did_loop(
                r,
                *final(self),
                loop_arm_s(cx@, b@, t as nat, ptr, ty@, dest@, old(self)@),
            ),
        decreases b, 0nat, 0nat,
    {
        let fields = variant_fields(cx.world, ty, t as u32);
        self.bind_fields(ptr, &fields, b.binds);
        let g = match self.eval_loop_body(cx, &b.body, dest) {
            Ok(v) => v,
            Err(e) => {
                return Err(e);
            },
        };
        self.leave_binders(b.binds as usize);
        Ok(g)
    }

    fn eval_match(&mut self, cx: &Cx, scrutinee: &Atom, branches: &Vec<Branch>) -> (r: Result<
        Out,
        WasmError,
    >)
        ensures
            wasm_trans::did_out(
                r,
                *final(self),
                match_s(cx@, scrutinee@, ir::branches_view(branches@), old(self)@),
            ),
        decreases branches@, 1nat, 0nat,
    {
        broadcast use ir::lemma_branches_view;

        let ghost bv = ir::branches_view(branches@);
        match self.block_scrutinee(cx, scrutinee) {
            Some(t) => {
                if branches.len() == 0 {
                    return Err(unsupported("match with no branches"));
                }
                let p = match self.emit_scrutinee(scrutinee) {
                    Ok(v) => v,
                    Err(e) => {
                        return Err(e);
                    },
                };
                if let Err(e) = self.emit_arms(cx, branches, 0, p.0, p.1, &t) {
                    return Err(e);
                }
                Ok(Out::Stack)
            },
            None => {
                assert(branches@.len() == 2 ==> bv[0] == branches@[0]@ && bv[1] == branches@[1]@);
                if branches.len() != 2 || branches[0].binds != 0 || branches[1].binds != 0 {
                    return Err(
                        unsupported("match on a value whose layout could not be determined"),
                    );
                }
                if let Err(e) = self.emit_condition(scrutinee) {
                    return Err(e);
                }
                self.emit(if_word_code_of());
                if let Err(e) = self.eval_word(cx, &branches[1].body) {
                    return Err(e);
                }
                self.emit(else_code_of());
                if let Err(e) = self.eval_word(cx, &branches[0].body) {
                    return Err(e);
                }
                self.emit(end_code_of());
                Ok(Out::Stack)
            },
        }
    }

    /// Emit a term as a word on the stack.
    pub fn eval_word(&mut self, cx: &Cx, c: &Core) -> (r: Result<(), WasmError>)
        ensures
            wasm_trans::did(r, *final(self), word_s(cx@, c@, old(self)@)),
        decreases c, 3nat, 0nat,
    {
        let out = match self.eval(cx, c) {
            Ok(v) => v,
            Err(e) => {
                return Err(e);
            },
        };
        self.coerce_to_word(out)
    }

    fn emit_arms(
        &mut self,
        cx: &Cx,
        branches: &Vec<Branch>,
        t: usize,
        ptr: u32,
        tag: u32,
        ty: &Type,
    ) -> (r: Result<(), WasmError>)
        requires
            t < branches@.len(),
        ensures
            wasm_trans::did(
                r,
                *final(self),
                arms_s(cx@, ir::branches_view(branches@), t as nat, ptr, tag, ty@, old(self)@),
            ),
        decreases branches@, 0nat, branches@.len() - t,
    {
        broadcast use ir::lemma_branches_view;

        assert(ir::branches_view(branches@)[t as int] == branches@[t as int]@);
        if t == branches.len() - 1 {
            return self.emit_arm(cx, &branches[t], t, ptr, ty);
        }
        self.emit(tag_test_code_of(tag, t as i64));
        self.emit(if_word_code_of());
        if let Err(e) = self.emit_arm(cx, &branches[t], t, ptr, ty) {
            return Err(e);
        }
        self.emit(else_code_of());
        if let Err(e) = self.emit_arms(cx, branches, t + 1, ptr, tag, ty) {
            return Err(e);
        }
        self.emit(end_code_of());
        Ok(())
    }

    fn emit_arm(&mut self, cx: &Cx, b: &Branch, t: usize, ptr: u32, ty: &Type) -> (r: Result<
        (),
        WasmError,
    >)
        ensures
            wasm_trans::did(r, *final(self), arm_s(cx@, b@, t as nat, ptr, ty@, old(self)@)),
        decreases b, 0nat, 0nat,
    {
        let fields = variant_fields(cx.world, ty, t as u32);
        self.bind_fields(ptr, &fields, b.binds);
        if let Err(e) = self.eval_word(cx, &b.body) {
            return Err(e);
        }
        self.leave_binders(b.binds as usize);
        Ok(())
    }
}

/// As many arguments come out as atoms go in.
proof fn lemma_atom_args_len(env: Seq<SlotView>, v: Seq<AtomView>, n: nat)
    ensures
        wasm_trans::atom_args(env, v, n) is Ok ==> wasm_trans::atom_args(env, v, n)->Ok_0.len() == n,
    decreases n,
{
    if n > 0 {
        lemma_atom_args_len(env, v, (n - 1) as nat);
    }
}

} // verus!
