//! The native backend: a program as steps for a code generator.
use vstd::prelude::*;

use crate::cl_code;
use crate::cl_code::{ClSt, CodegenError, CodegenErrorView, Reg, RegValue, Step, StepBuilder, StepView, cl_refuse, field_offset};
use crate::cl_eval;
use crate::cl_eval::{ClCx, ClCxView, ClMeta, ClMetaView, find_meta};
use crate::copies::clone_types;
use crate::find;
use crate::hash;
use crate::hash::symbol_hash;
use crate::hashed;
use crate::hashed::is_concrete;
use crate::ir;
use crate::ir::{Atom, AtomView, Branch, BranchView, Core, CoreView, Def, DefView, Type, TypeView};
use crate::llvm;
use crate::llvm::{add_aliases, find_last_name, hashed_names, hashed_symbol_name};
use crate::reach;
use crate::reach::reachable_mask;
use crate::text::str_eq;
use crate::wasm;
use crate::wasm::{Pick, PickView, hashed_pick, name_under, peel_lams, peel_param_types, pick};
use crate::wasm_eval;
use crate::world;
use crate::world::{World, WorldView, atom_type, clone_opt_type, is_boxed, type_of, variant_fields};

verus! {

// ---- scopes ----------------------------------------------------------------------------------------

/// One more binder.
pub open spec fn hold(s: ClSt, x: RegValue, t: Option<TypeView>) -> ClSt {
    ClSt { env: s.env.push(x), tys: s.tys.push(t), ..s }
}

/// The innermost `n` binders are gone.
pub open spec fn release(s: ClSt, n: nat) -> ClSt {
    ClSt { env: wasm_eval::without_last(s.env, n), tys: wasm_eval::without_last(s.tys, n), ..s }
}

/// As many new blocks.
pub open spec fn forks(n: nat, s: ClSt) -> (Seq<u32>, ClSt)
    decreases n,
{
    if n == 0 {
        (Seq::empty(), s)
    } else {
        let (out, s1) = forks((n - 1) as nat, s);
        let (b, s2) = cl_code::fork(s1);
        (out.push(b), s2)
    }
}

/// The first `n` fields of the block of memory at `ptr`, as binders.
pub open spec fn hold_fields_s(ptr: u32, fields: Option<Seq<TypeView>>, n: nat, s: ClSt) -> ClSt
    decreases n,
{
    if n == 0 {
        s
    } else {
        let s1 = hold_fields_s(ptr, fields, (n - 1) as nat, s);
        let (v, s2) = cl_code::gain(s1, StepView::Load(ptr, cl_code::field_at_offset((n - 1) as nat)));
        hold(s2, RegValue::Val(v), wasm_eval::field_ty(fields, n - 1))
    }
}

/// A choice by number among `n` new blocks; another number is a failure.
#[verifier::opaque]
pub open spec fn table_s(tag: u32, n: nat, s: ClSt) -> (Seq<u32>, ClSt) {
    let (arms, s1) = forks(n, s);
    let (other, s2) = cl_code::fork(s1);
    (arms, cl_code::act(cl_code::at_sealed(cl_code::act(s2, StepView::Table(tag, arms, other)), other), StepView::Trap))
}

/// The pointer of a scrutinee, and its tag.
#[verifier::opaque]
pub open spec fn tagged_s(cx: ClCxView, a: AtomView, s: ClSt) -> Result<
    ((u32, u32), ClSt),
    CodegenErrorView,
> {
    match cl_eval::atom_word_s(cx, a, s) {
        Ok((ptr, s1)) => {
            let (wide, s2) = cl_code::gain(s1, StepView::Load(ptr, 0));
            let (tag, s3) = cl_code::gain(s2, StepView::Narrow(wide));
            Ok(((ptr, tag), s3))
        },
        Err(e) => Err(e),
    }
}

/// The two blocks of a choice by a word; control goes on in the first.
#[verifier::opaque]
pub open spec fn choose_s(cond: u32, yes: u32, no: u32, s: ClSt) -> ClSt {
    cl_code::at_sealed(cl_code::act(s, StepView::Branch(cond, yes, no, Seq::empty())), yes)
}

/// The parameters that the blocks of a loop have for the carried state: of the
/// first `n` variables, those of the head and those of the end.
pub open spec fn carried_params_s(header: u32, exit: u32, n: nat, s: ClSt) -> (
    (Seq<u32>, Seq<u32>),
    ClSt,
)
    decreases n,
{
    if n == 0 {
        ((Seq::empty(), Seq::empty()), s)
    } else {
        let ((a, b), s1) = carried_params_s(header, exit, (n - 1) as nat, s);
        let (x, s2) = cl_code::gain(s1, StepView::Param(header));
        let (y, s3) = cl_code::gain(s2, StepView::Param(exit));
        ((a.push(x), b.push(y)), s3)
    }
}

/// The binders of the first `n` carried variables.
pub open spec fn hold_carried(v: Seq<u32>, tys: Seq<Option<TypeView>>, n: nat, s: ClSt) -> ClSt
    decreases n,
{
    if n == 0 {
        s
    } else {
        hold(hold_carried(v, tys, (n - 1) as nat, s), RegValue::Val(v[n - 1]), tys[n - 1])
    }
}

/// The type of a scrutinee that is a block of memory.
pub open spec fn cl_block_type(cx: ClCxView, a: AtomView, s: ClSt) -> Option<TypeView> {
    match world::type_of_atom(cx.world, a, s.tys) {
        Some(t) => if world::boxed(cx.world, t) {
            Some(t)
        } else {
            None
        },
        None => None,
    }
}

// ---- terms --------------------------------------------------------------------------------------------

/// The steps of a term, and what the term has become.
pub open spec fn cl_eval_s(cx: ClCxView, c: CoreView, s: ClSt) -> Result<
    (RegValue, ClSt),
    CodegenErrorView,
>
    decreases c, 2nat, 0nat,
{
    match c {
        CoreView::Atom(a) => cl_eval::reg_atom_s(cx, a, s),
        CoreView::Let { value, body } => match cl_eval_s(cx, *value, s) {
            Ok((x, s1)) => match cl_eval_s(
                cx,
                *body,
                hold(s1, x, world::type_of_s(cx.world, *value, s1.tys)),
            ) {
                Ok((y, s2)) => Ok((y, release(s2, 1))),
                Err(e) => Err(e),
            },
            Err(e) => Err(e),
        },
        CoreView::App { func, arg } => cl_eval::reg_app_s(cx, func, arg, s),
        CoreView::Prim { op, args } => cl_eval::reg_prim_s(cx, op, args, s),
        CoreView::Cast { value, to } => cl_eval::reg_cast_s(cx, value, to, s),
        CoreView::Match { scrutinee, branches } => cl_match_s(cx, scrutinee, branches, s),
        CoreView::Ctor { ty, tag, fields } => match cl_eval::reg_atoms_s(cx, fields, fields.len(), s) {
            Ok((v, s1)) => Ok((RegValue::Tuple { tag, fields: v }, s1)),
            Err(e) => Err(e),
        },
        CoreView::Array { elem, items } => match cl_eval::reg_atoms_s(cx, items, items.len(), s) {
            Ok((v, s1)) => Ok(
                (RegValue::Tuple { tag: (items.len() as usize) as u32, fields: v }, s1),
            ),
            Err(e) => Err(e),
        },
        CoreView::IndexSet { base, index, value } => cl_eval::reg_index_set_s(cx, base, index, value, s),
        CoreView::Proj { base, idx } => cl_eval::reg_proj_s(cx, base, idx, s),
        CoreView::Loop { .. } => cl_loop_s(cx, c, s),
        CoreView::Ref { mutable, of } => cl_eval::reg_atom_s(cx, of, s),
        CoreView::Lam { .. } => Err(cl_code::cl_refused("first-class lambda"@)),
        CoreView::Perform { .. } => Err(cl_code::cl_refused("capability perform (use the interpreter)"@)),
        CoreView::Raise { .. } => Err(cl_code::cl_refused("raise"@)),
        CoreView::Return { .. } => Err(cl_code::cl_refused("early return"@)),
        CoreView::ListNew { .. }
        | CoreView::ListPush { .. }
        | CoreView::ListPop { .. }
        | CoreView::ListSet { .. } => Err(cl_code::cl_refused("std.collections.List runtime operations"@)),
    }
}

/// A term as a word.
pub open spec fn cl_word_s(cx: ClCxView, c: CoreView, s: ClSt) -> Result<
    (u32, ClSt),
    CodegenErrorView,
>
    decreases c, 3nat, 0nat,
{
    match cl_eval_s(cx, c, s) {
        Ok((x, s1)) => cl_code::reg_word_s(x, s1),
        Err(e) => Err(e),
    }
}

/// A branch: by the truth of a word, or by the tag of a block of memory. The
/// branches join in a block whose parameter is the result.
pub open spec fn cl_match_s(cx: ClCxView, scrutinee: AtomView, branches: Seq<BranchView>, s: ClSt) -> Result<
    (RegValue, ClSt),
    CodegenErrorView,
>
    decreases branches, 2nat, 0nat,
{
    match cl_block_type(cx, scrutinee, s) {
        Some(ty) => match tagged_s(cx, scrutinee, s) {
            Ok(((ptr, tag), s1)) => {
                let (merge, s2) = cl_code::fork(s1);
                let (result, s3) = cl_code::gain(s2, StepView::Param(merge));
                let (arms, s4) = table_s(tag, branches.len(), s3);
                match cl_arms_s(cx, branches, branches.len(), arms, ptr, ty, merge, s4) {
                    Ok(s5) => Ok((RegValue::Val(result), cl_code::at_sealed(s5, merge))),
                    Err(e) => Err(e),
                }
            },
            Err(e) => Err(e),
        },
        None => if !wasm_eval::is_if(branches) {
            Err(cl_code::cl_refused("match on a value whose layout could not be determined"@))
        } else {
            cl_if_s(cx, scrutinee, branches, s)
        },
    }
}

/// A branch by the truth of a word.
pub open spec fn cl_if_s(cx: ClCxView, scrutinee: AtomView, branches: Seq<BranchView>, s: ClSt) -> Result<
    (RegValue, ClSt),
    CodegenErrorView,
>
    decreases branches, 1nat, 0nat,
{
    if branches.len() < 2 {
        Err(cl_code::cl_refused("match on a value whose layout could not be determined"@))
    } else {
        match cl_eval::atom_word_s(cx, scrutinee, s) {
            Ok((cond, s1)) => {
                let (yes, s2) = cl_code::fork(s1);
                let (no, s3) = cl_code::fork(s2);
                let (merge, s4) = cl_code::fork(s3);
                let (result, s5) = cl_code::gain(s4, StepView::Param(merge));
                match cl_word_s(cx, branches[1].body, choose_s(cond, yes, no, s5)) {
                    Ok((t, s6)) => match cl_word_s(
                        cx,
                        branches[0].body,
                        cl_code::at_sealed(cl_code::act(s6, StepView::Jump(merge, seq![t])), no),
                    ) {
                        Ok((e, s7)) => Ok(
                            (
                                RegValue::Val(result),
                                cl_code::at_sealed(cl_code::act(s7, StepView::Jump(merge, seq![e])), merge),
                            ),
                        ),
                        Err(e) => Err(e),
                    },
                    Err(e) => Err(e),
                }
            },
            Err(e) => Err(e),
        }
    }
}

/// The first `n` branches of a choice by tag.
pub open spec fn cl_arms_s(
    cx: ClCxView,
    branches: Seq<BranchView>,
    n: nat,
    arms: Seq<u32>,
    ptr: u32,
    ty: TypeView,
    merge: u32,
    s: ClSt,
) -> Result<ClSt, CodegenErrorView>
    decreases branches, 0nat, n,
{
    if n == 0 || n > branches.len() {
        Ok(s)
    } else {
        match cl_arms_s(cx, branches, (n - 1) as nat, arms, ptr, ty, merge, s) {
            Ok(s1) => {
                let b = branches[n - 1];
                let fields = world::fields_of(cx.world, ty, (((n - 1) as usize) as u32) as int);
                match cl_word_s(
                    cx,
                    b.body,
                    hold_fields_s(ptr, fields, b.binds as nat, cl_code::at_sealed(s1, arms[n - 1])),
                ) {
                    Ok((w, s2)) => Ok(
                        cl_code::act(release(s2, b.binds as nat), StepView::Jump(merge, seq![w])),
                    ),
                    Err(e) => Err(e),
                }
            },
            Err(e) => Err(e),
        }
    }
}

/// A loop: the carried state is the parameters of its head.
pub open spec fn cl_loop_s(cx: ClCxView, c: CoreView, s: ClSt) -> Result<
    (RegValue, ClSt),
    CodegenErrorView,
>
    decreases c, 1nat, 0nat,
{
    match c {
        CoreView::Loop { state, inv, cond, body } => {
            let k = state.len();
            match cl_eval::atom_words_s(cx, state, k, s) {
                Ok((init, s1)) => {
                    let tys = wasm_eval::atom_tys(cx.world, state, s1.tys);
                    let (header, s2) = cl_code::fork(s1);
                    let (inside, s3) = cl_code::fork(s2);
                    let (exit, s4) = cl_code::fork(s3);
                    let ((carried, last), s5) = carried_params_s(header, exit, k, s4);
                    let s6 = cl_code::act(cl_code::act(s5, StepView::Jump(header, init)), StepView::Switch(header));
                    match cl_word_s(cx, *cond, hold_carried(carried, tys, k, s6)) {
                        Ok((v, s7)) => match cl_next_s(
                            cx,
                            *body,
                            header,
                            cl_code::at_sealed(cl_code::act(s7, StepView::Branch(v, inside, exit, carried)), inside),
                        ) {
                            Ok(s8) => Ok(
                                (
                                    RegValue::Tuple {
                                        tag: 0,
                                        fields: last.map_values(|v: u32| RegValue::Val(v)),
                                    },
                                    cl_code::at_sealed(cl_code::act(release(s8, k), StepView::Seal(header)), exit),
                                ),
                            ),
                            Err(e) => Err(e),
                        },
                        Err(e) => Err(e),
                    }
                },
                Err(e) => Err(e),
            }
        },
        _ => Err(cl_code::cl_refused("loop"@)),
    }
}

/// The body of a loop: every way through it jumps back to the head with the
/// next state.
pub open spec fn cl_next_s(cx: ClCxView, c: CoreView, header: u32, s: ClSt) -> Result<
    ClSt,
    CodegenErrorView,
>
    decreases c, 3nat, 0nat,
{
    match c {
        CoreView::Let { value, body } => match cl_eval_s(cx, *value, s) {
            Ok((x, s1)) => match cl_next_s(
                cx,
                *body,
                header,
                hold(s1, x, world::type_of_s(cx.world, *value, s1.tys)),
            ) {
                Ok(s2) => Ok(release(s2, 1)),
                Err(e) => Err(e),
            },
            Err(e) => Err(e),
        },
        CoreView::Match { scrutinee, branches } => cl_next_match_s(
            cx,
            scrutinee,
            branches,
            header,
            s,
        ),
        _ => match cl_eval_s(cx, c, s) {
            Ok((RegValue::Tuple { tag, fields }, s1)) => match cl_code::reg_words_s(
                fields,
                fields.len(),
                s1,
            ) {
                Ok((v, s2)) => Ok(cl_code::act(s2, StepView::Jump(header, v))),
                Err(e) => Err(e),
            },
            Ok(_) => Err(cl_code::cl_refused("loop body did not produce its carried state"@)),
            Err(e) => Err(e),
        },
    }
}

/// A branch at the end of a loop's body.
pub open spec fn cl_next_match_s(
    cx: ClCxView,
    scrutinee: AtomView,
    branches: Seq<BranchView>,
    header: u32,
    s: ClSt,
) -> Result<ClSt, CodegenErrorView>
    decreases branches, 1nat, 0nat,
{
    match cl_block_type(cx, scrutinee, s) {
        Some(ty) => match tagged_s(cx, scrutinee, s) {
            Ok(((ptr, tag), s1)) => {
                let (arms, s2) = table_s(tag, branches.len(), s1);
                cl_next_arms_s(cx, branches, branches.len(), arms, ptr, ty, header, s2)
            },
            Err(e) => Err(e),
        },
        None => if !wasm_eval::is_if(branches) {
            Err(
                cl_code::cl_refused("loop branch join on a value whose layout could not be determined"@),
            )
        } else {
            match cl_eval::atom_word_s(cx, scrutinee, s) {
                Ok((cond, s1)) => {
                    let (yes, s2) = cl_code::fork(s1);
                    let (no, s3) = cl_code::fork(s2);
                    match cl_next_s(cx, branches[1].body, header, choose_s(cond, yes, no, s3)) {
                        Ok(s4) => cl_next_s(cx, branches[0].body, header, cl_code::at_sealed(s4, no)),
                        Err(e) => Err(e),
                    }
                },
                Err(e) => Err(e),
            }
        },
    }
}

/// The first `n` branches of a choice by tag, at the end of a loop's body.
pub open spec fn cl_next_arms_s(
    cx: ClCxView,
    branches: Seq<BranchView>,
    n: nat,
    arms: Seq<u32>,
    ptr: u32,
    ty: TypeView,
    header: u32,
    s: ClSt,
) -> Result<ClSt, CodegenErrorView>
    decreases branches, 0nat, n,
{
    if n == 0 || n > branches.len() {
        Ok(s)
    } else {
        match cl_next_arms_s(cx, branches, (n - 1) as nat, arms, ptr, ty, header, s) {
            Ok(s1) => {
                let b = branches[n - 1];
                let fields = world::fields_of(cx.world, ty, (((n - 1) as usize) as u32) as int);
                match cl_next_s(
                    cx,
                    b.body,
                    header,
                    hold_fields_s(ptr, fields, b.binds as nat, cl_code::at_sealed(s1, arms[n - 1])),
                ) {
                    Ok(s2) => Ok(release(s2, b.binds as nat)),
                    Err(e) => Err(e),
                }
            },
            Err(e) => Err(e),
        }
    }
}

proof fn lemma_cl_arms_fail(
    cx: ClCxView,
    branches: Seq<BranchView>,
    i: nat,
    n: nat,
    arms: Seq<u32>,
    ptr: u32,
    ty: TypeView,
    merge: u32,
    s: ClSt,
)
    requires
        i <= n <= branches.len(),
        cl_arms_s(cx, branches, i, arms, ptr, ty, merge, s) is Err,
    ensures
        cl_arms_s(cx, branches, n, arms, ptr, ty, merge, s) == cl_arms_s(
            cx,
            branches,
            i,
            arms,
            ptr,
            ty,
            merge,
            s,
        ),
    decreases n - i,
{
    if i < n {
        assert(cl_arms_s(cx, branches, i + 1, arms, ptr, ty, merge, s) == cl_arms_s(
            cx,
            branches,
            i,
            arms,
            ptr,
            ty,
            merge,
            s,
        ));
        lemma_cl_arms_fail(cx, branches, i + 1, n, arms, ptr, ty, merge, s);
    }
}

proof fn lemma_cl_next_fail(
    cx: ClCxView,
    branches: Seq<BranchView>,
    i: nat,
    n: nat,
    arms: Seq<u32>,
    ptr: u32,
    ty: TypeView,
    header: u32,
    s: ClSt,
)
    requires
        i <= n <= branches.len(),
        cl_next_arms_s(cx, branches, i, arms, ptr, ty, header, s) is Err,
    ensures
        cl_next_arms_s(cx, branches, n, arms, ptr, ty, header, s) == cl_next_arms_s(
            cx,
            branches,
            i,
            arms,
            ptr,
            ty,
            header,
            s,
        ),
    decreases n - i,
{
    if i < n {
        assert(cl_next_arms_s(cx, branches, i + 1, arms, ptr, ty, header, s) == cl_next_arms_s(
            cx,
            branches,
            i,
            arms,
            ptr,
            ty,
            header,
            s,
        ));
        lemma_cl_next_fail(cx, branches, i + 1, n, arms, ptr, ty, header, s);
    }
}

fn value_regs(v: &Vec<u32>) -> (r: Vec<Reg>)
    ensures
        cl_code::regs_view(r@) == v@.map_values(|v: u32| RegValue::Val(v)),
{
    broadcast use cl_code::lemma_regs_view;

    let mut out: Vec<Reg> = Vec::new();
    let mut i: usize = 0;
    while i < v.len()
        invariant
            i <= v@.len(),
            out@.len() == i,
            forall|k: int| 0 <= k < i ==> #[trigger] out@[k]@ == RegValue::Val(v@[k]),
        decreases v@.len() - i,
    {
        out.push(Reg::Val(v[i]));
        i = i + 1;
    }
    assert(cl_code::regs_view(out@) =~= v@.map_values(|v: u32| RegValue::Val(v)));
    out
}

impl StepBuilder {
    fn hold_reg(&mut self, x: Reg, t: Option<Type>)
        ensures
            final(self)@ == hold(old(self)@, x@, world::opt_type_view(t)),
    {
        broadcast use cl_code::lemma_regs_view;

        self.env.push(x);
        self.tys.push(t);
        assert(cl_code::regs_view(self.env@) =~= cl_code::regs_view(old(self).env@).push(x@));
        assert(world::opt_types_view(self.tys@) =~= world::opt_types_view(old(self).tys@).push(world::opt_type_view(t)));
    }

    fn release_regs(&mut self, n: usize)
        ensures
            final(self)@ == release(old(self)@, n as nat),
    {
        broadcast use cl_code::lemma_regs_view;

        let ghost e0 = self.env@;
        let ghost t0 = self.tys@;
        let ghost first = *self;
        let mut k: usize = 0;
        while k < n
            invariant
                k <= n,
                self.env@ == wasm_eval::without_last(e0, k as nat),
                self.tys@ == wasm_eval::without_last(t0, k as nat),
                self.steps == first.steps,
                self.values == first.values,
                self.blocks == first.blocks,
            decreases n - k,
        {
            let _x = self.env.pop();
            let _t = self.tys.pop();
            assert(self.env@ =~= wasm_eval::without_last(e0, (k + 1) as nat));
            assert(self.tys@ =~= wasm_eval::without_last(t0, (k + 1) as nat));
            k = k + 1;
        }
        assert(cl_code::regs_view(wasm_eval::without_last(e0, n as nat)) =~= wasm_eval::without_last(cl_code::regs_view(e0), n as nat));
        assert(world::opt_types_view(wasm_eval::without_last(t0, n as nat)) =~= wasm_eval::without_last(
            world::opt_types_view(t0),
            n as nat,
        ));
    }

    fn blocks_for(&mut self, n: usize) -> (r: Vec<u32>)
        ensures
            (r@, final(self)@) == forks(n as nat, old(self)@),
            r@.len() == n,
    {
        let ghost s0 = self@;
        let mut out: Vec<u32> = Vec::new();
        let mut i: usize = 0;
        assert(out@ =~= Seq::empty());
        while i < n
            invariant
                i <= n,
                out@.len() == i,
                (out@, self@) == forks(i as nat, s0),
            decreases n - i,
        {
            let b = self.block();
            out.push(b);
            i = i + 1;
        }
        out
    }

    fn hold_fields(&mut self, ptr: u32, fields: &Option<Vec<Type>>, n: u32)
        ensures
            final(self)@ == hold_fields_s(ptr, world::opt_list_view(*fields), n as nat, old(self)@),
    {
        broadcast use ir::lemma_types_view;

        let ghost s0 = self@;
        let ghost fv = world::opt_list_view(*fields);
        let mut k: u32 = 0;
        while k < n
            invariant
                k <= n,
                fv == world::opt_list_view(*fields),
                self@ == hold_fields_s(ptr, fv, k as nat, s0),
            decreases n - k,
        {
            let v = self.value(Step::Load(ptr, field_offset(k as usize)));
            let t = match fields {
                Some(l) => {
                    if (k as usize) < l.len() {
                        Some(l[k as usize].clone())
                    } else {
                        None
                    }
                },
                None => None,
            };
            assert(world::opt_type_view(t) == wasm_eval::field_ty(fv, k as int));
            self.hold_reg(Reg::Val(v), t);
            k = k + 1;
        }
    }

    fn table(&mut self, tag: u32, n: usize) -> (r: Vec<u32>)
        ensures
            (r@, final(self)@) == table_s(tag, n as nat, old(self)@),
            r@.len() == n,
    {
        reveal(table_s);
        let arms = self.blocks_for(n);
        let other = self.block();
        let list = copy_numbers(&arms);
        self.emit(Step::Table(tag, list, other));
        self.go_sealed(other);
        self.emit(Step::Trap);
        arms
    }

    fn tagged(&mut self, cx: &ClCx, a: &Atom) -> (r: Result<(u32, u32), CodegenError>)
        ensures
            match tagged_s(cx@, a@, old(self)@) {
                Ok((p, s)) => r is Ok && r->Ok_0 == p && final(self)@ == s,
                Err(e) => r is Err && r->Err_0@ == e,
            },
    {
        reveal(tagged_s);
        let ptr = match self.word(cx, a) {
            Ok(v) => v,
            Err(e) => {
                return Err(e);
            },
        };
        let wide = self.value(Step::Load(ptr, 0));
        let tag = self.value(Step::Narrow(wide));
        Ok((ptr, tag))
    }

    fn choose_block(&mut self, cond: u32, yes: u32, no: u32)
        ensures
            final(self)@ == choose_s(cond, yes, no, old(self)@),
    {
        reveal(choose_s);
        let none: Vec<u32> = Vec::new();
        assert(none@ =~= Seq::empty());
        self.emit(Step::Branch(cond, yes, no, none));
        self.go_sealed(yes);
    }

    fn carried_params(&mut self, header: u32, exit: u32, n: usize) -> (r: (Vec<u32>, Vec<u32>))
        ensures
            ((r.0@, r.1@), final(self)@) == carried_params_s(header, exit, n as nat, old(self)@),
            r.0@.len() == n,
    {
        let ghost s0 = self@;
        let mut a: Vec<u32> = Vec::new();
        let mut b: Vec<u32> = Vec::new();
        let mut i: usize = 0;
        assert(a@ =~= Seq::empty());
        assert(b@ =~= Seq::empty());
        while i < n
            invariant
                i <= n,
                a@.len() == i,
                ((a@, b@), self@) == carried_params_s(header, exit, i as nat, s0),
            decreases n - i,
        {
            let x = self.value(Step::Param(header));
            let y = self.value(Step::Param(exit));
            a.push(x);
            b.push(y);
            i = i + 1;
        }
        (a, b)
    }

    fn state_types(&self, cx: &ClCx, v: &Vec<Atom>) -> (r: Vec<Option<Type>>)
        ensures
            world::opt_types_view(r@) == wasm_eval::atom_tys(cx@.world, ir::atoms_view(v@), self@.tys),
            r@.len() == v@.len(),
    {
        let ghost av = ir::atoms_view(v@);
        let mut out: Vec<Option<Type>> = Vec::new();
        let mut i: usize = 0;
        while i < v.len()
            invariant
                i <= v@.len(),
                av == ir::atoms_view(v@),
                out@.len() == i,
                forall|k: int|
                    0 <= k < i ==> world::opt_type_view(#[trigger] out@[k]) == world::type_of_atom(
                        cx@.world,
                        av[k],
                        self@.tys,
                    ),
            decreases v@.len() - i,
        {
            assert(av[i as int] == v@[i as int]@);
            let t = atom_type(cx.world, &v[i], &self.tys);
            out.push(t);
            i = i + 1;
        }
        assert(world::opt_types_view(out@) =~= wasm_eval::atom_tys(cx@.world, av, self@.tys));
        out
    }

    fn hold_state(&mut self, v: &Vec<u32>, tys: &Vec<Option<Type>>)
        requires
            v@.len() == tys@.len(),
        ensures
            final(self)@ == hold_carried(v@, world::opt_types_view(tys@), v@.len(), old(self)@),
    {
        let ghost s0 = self@;
        let ghost tv = world::opt_types_view(tys@);
        let mut i: usize = 0;
        while i < v.len()
            invariant
                i <= v@.len(),
                tv == world::opt_types_view(tys@),
                v@.len() == tys@.len(),
                self@ == hold_carried(v@, tv, i as nat, s0),
            decreases v@.len() - i,
        {
            assert(tv[i as int] == world::opt_type_view(tys@[i as int]));
            let t = clone_opt_type(&tys[i]);
            self.hold_reg(Reg::Val(v[i]), t);
            i = i + 1;
        }
    }

    fn block_scrutinee(&self, cx: &ClCx, a: &Atom) -> (r: Option<Type>)
        ensures
            world::opt_type_view(r) == cl_block_type(cx@, a@, self@),
    {
        match atom_type(cx.world, a, &self.tys) {
            Some(t) => {
                if is_boxed(cx.world, &t) {
                    Some(t)
                } else {
                    None
                }
            },
            None => None,
        }
    }

    /// Build a term.
    pub fn eval(&mut self, cx: &ClCx, c: &Core) -> (r: Result<Reg, CodegenError>)
        ensures
            cl_code::did_reg(r, *final(self), cl_eval_s(cx@, c@, old(self)@)),
        decreases c, 2nat, 0nat,
    {
        match c {
            Core::Atom(a) => self.eval_atom(cx, a),
            Core::Let { value, body } => {
                let x = match self.eval(cx, value) {
                    Ok(v) => v,
                    Err(e) => {
                        return Err(e);
                    },
                };
                let t = type_of(cx.world, value, &mut self.tys);
                self.hold_reg(x, t);
                let y = match self.eval(cx, body) {
                    Ok(v) => v,
                    Err(e) => {
                        return Err(e);
                    },
                };
                self.release_regs(1);
                Ok(y)
            },
            Core::App { func, arg } => self.eval_app(cx, func, arg),
            Core::Prim { op, args } => self.eval_prim(cx, *op, args),
            Core::Cast { value, to } => self.eval_cast(cx, value, to),
            Core::Match { scrutinee, branches } => self.eval_match(cx, scrutinee, branches),
            Core::Ctor { ty: _, tag, fields } => {
                let v = match self.eval_atoms(cx, fields) {
                    Ok(v) => v,
                    Err(e) => {
                        return Err(e);
                    },
                };
                Ok(Reg::Tuple { tag: *tag, fields: v })
            },
            Core::Array { elem: _, items } => {
                let v = match self.eval_atoms(cx, items) {
                    Ok(v) => v,
                    Err(e) => {
                        return Err(e);
                    },
                };
                Ok(Reg::Tuple { tag: items.len() as u32, fields: v })
            },
            Core::IndexSet { base, index, value } => self.eval_index_set(cx, base, index, value),
            Core::Proj { base, idx } => self.eval_proj(cx, base, *idx),
            Core::Loop { .. } => self.eval_loop(cx, c),
            Core::Ref { mutable: _, of } => self.eval_atom(cx, of),
            Core::Lam { .. } => Err(cl_refuse("first-class lambda")),
            Core::Perform { .. } => Err(cl_refuse("capability perform (use the interpreter)")),
            Core::Raise { .. } => Err(cl_refuse("raise")),
            Core::Return { .. } => Err(cl_refuse("early return")),
            Core::ListNew { .. } | Core::ListPush { .. } | Core::ListPop { .. } | Core::ListSet { .. } => {
                Err(cl_refuse("std.collections.List runtime operations"))
            },
        }
    }

    /// Build a term as a word.
    pub fn eval_word(&mut self, cx: &ClCx, c: &Core) -> (r: Result<u32, CodegenError>)
        ensures
            cl_code::did_reg_word(r, *final(self), cl_word_s(cx@, c@, old(self)@)),
        decreases c, 3nat, 0nat,
    {
        let x = match self.eval(cx, c) {
            Ok(v) => v,
            Err(e) => {
                return Err(e);
            },
        };
        self.as_word(&x)
    }

    fn eval_match(&mut self, cx: &ClCx, scrutinee: &Atom, branches: &Vec<Branch>) -> (r: Result<
        Reg,
        CodegenError,
    >)
        ensures
            cl_code::did_reg(
                r,
                *final(self),
                cl_match_s(cx@, scrutinee@, ir::branches_view(branches@), old(self)@),
            ),
        decreases branches@, 2nat, 0nat,
    {
        broadcast use ir::lemma_branches_view;

        let ghost bv = ir::branches_view(branches@);
        match self.block_scrutinee(cx, scrutinee) {
            Some(ty) => {
                let p = match self.tagged(cx, scrutinee) {
                    Ok(v) => v,
                    Err(e) => {
                        return Err(e);
                    },
                };
                let merge = self.block();
                let result = self.value(Step::Param(merge));
                let arms = self.table(p.1, branches.len());
                if let Err(e) = self.eval_arms(cx, branches, &arms, p.0, &ty, merge) {
                    return Err(e);
                }
                self.go_sealed(merge);
                Ok(Reg::Val(result))
            },
            None => {
                assert(branches@.len() == 2 ==> bv[0] == branches@[0]@ && bv[1] == branches@[1]@);
                if branches.len() != 2 || branches[0].binds != 0 || branches[1].binds != 0 {
                    return Err(
                        cl_refuse("match on a value whose layout could not be determined"),
                    );
                }
                self.eval_if(cx, scrutinee, branches)
            },
        }
    }

    fn eval_if(&mut self, cx: &ClCx, scrutinee: &Atom, branches: &Vec<Branch>) -> (r: Result<
        Reg,
        CodegenError,
    >)
        requires
            branches@.len() >= 2,
        ensures
            cl_code::did_reg(
                r,
                *final(self),
                cl_if_s(cx@, scrutinee@, ir::branches_view(branches@), old(self)@),
            ),
        decreases branches@, 1nat, 0nat,
    {
        broadcast use ir::lemma_branches_view;

        let ghost bv = ir::branches_view(branches@);
        assert(bv[0] == branches@[0]@ && bv[1] == branches@[1]@);
        let cond = match self.word(cx, scrutinee) {
            Ok(v) => v,
            Err(e) => {
                return Err(e);
            },
        };
        let yes = self.block();
        let no = self.block();
        let merge = self.block();
        let result = self.value(Step::Param(merge));
        self.choose_block(cond, yes, no);
        let t = match self.eval_word(cx, &branches[1].body) {
            Ok(v) => v,
            Err(e) => {
                return Err(e);
            },
        };
        self.jump_with(merge, t);
        self.go_sealed(no);
        let e = match self.eval_word(cx, &branches[0].body) {
            Ok(v) => v,
            Err(e) => {
                return Err(e);
            },
        };
        self.jump_with(merge, e);
        self.go_sealed(merge);
        Ok(Reg::Val(result))
    }

    fn eval_arms(
        &mut self,
        cx: &ClCx,
        branches: &Vec<Branch>,
        arms: &Vec<u32>,
        ptr: u32,
        ty: &Type,
        merge: u32,
    ) -> (r: Result<(), CodegenError>)
        requires
            arms@.len() == branches@.len(),
        ensures
            cl_code::did_act(
                r,
                *final(self),
                cl_arms_s(
                    cx@,
                    ir::branches_view(branches@),
                    branches@.len(),
                    arms@,
                    ptr,
                    ty@,
                    merge,
                    old(self)@,
                ),
            ),
        decreases branches@, 0nat, branches@.len(),
    {
        broadcast use ir::lemma_branches_view;

        let ghost c = cx@;
        let ghost s0 = self@;
        let ghost bv = ir::branches_view(branches@);
        let mut i: usize = 0;
        while i < branches.len()
            invariant
                i <= branches@.len(),
                arms@.len() == branches@.len(),
                c == cx@,
                s0 == old(self)@,
                bv == ir::branches_view(branches@),
                bv.len() == branches@.len(),
                cl_arms_s(c, bv, i as nat, arms@, ptr, ty@, merge, s0) == Ok::<
                    ClSt,
                    CodegenErrorView,
                >(self@),
            decreases branches@.len() - i,
        {
            assert(bv[i as int] == branches@[i as int]@);
            self.go_sealed(arms[i]);
            let fields = variant_fields(cx.world, ty, i as u32);
            self.hold_fields(ptr, &fields, branches[i].binds);
            match self.eval_word(cx, &branches[i].body) {
                Ok(w) => {
                    self.release_regs(branches[i].binds as usize);
                    self.jump_with(merge, w);
                },
                Err(e) => {
                    proof {
                        lemma_cl_arms_fail(
                            c,
                            bv,
                            (i + 1) as nat,
                            branches@.len(),
                            arms@,
                            ptr,
                            ty@,
                            merge,
                            s0,
                        );
                    }
                    return Err(e);
                },
            }
            i = i + 1;
        }
        Ok(())
    }

    fn eval_loop(&mut self, cx: &ClCx, c: &Core) -> (r: Result<Reg, CodegenError>)
        ensures
            cl_code::did_reg(r, *final(self), cl_loop_s(cx@, c@, old(self)@)),
        decreases c, 1nat, 0nat,
    {
        match c {
            Core::Loop { state, inv: _, cond, body } => {
                let init = match self.words(cx, state) {
                    Ok(v) => v,
                    Err(e) => {
                        return Err(e);
                    },
                };
                let tys = self.state_types(cx, state);
                let header = self.block();
                let inside = self.block();
                let exit = self.block();
                let p = self.carried_params(header, exit, state.len());
                self.emit(Step::Jump(header, init));
                self.emit(Step::Switch(header));
                self.hold_state(&p.0, &tys);
                let v = match self.eval_word(cx, cond) {
                    Ok(v) => v,
                    Err(e) => {
                        return Err(e);
                    },
                };
                let out = copy_numbers(&p.0);
                self.emit(Step::Branch(v, inside, exit, out));
                self.go_sealed(inside);
                if let Err(e) = self.eval_next(cx, body, header) {
                    return Err(e);
                }
                self.release_regs(state.len());
                self.emit(Step::Seal(header));
                self.go_sealed(exit);
                Ok(Reg::Tuple { tag: 0, fields: value_regs(&p.1) })
            },
            _ => Err(cl_refuse("loop")),
        }
    }

    fn eval_next(&mut self, cx: &ClCx, c: &Core, header: u32) -> (r: Result<(), CodegenError>)
        ensures
            cl_code::did_act(r, *final(self), cl_next_s(cx@, c@, header, old(self)@)),
        decreases c, 3nat, 0nat,
    {
        match c {
            Core::Let { value, body } => {
                let x = match self.eval(cx, value) {
                    Ok(v) => v,
                    Err(e) => {
                        return Err(e);
                    },
                };
                let t = type_of(cx.world, value, &mut self.tys);
                self.hold_reg(x, t);
                if let Err(e) = self.eval_next(cx, body, header) {
                    return Err(e);
                }
                self.release_regs(1);
                Ok(())
            },
            Core::Match { scrutinee, branches } => self.eval_next_match(
                cx,
                scrutinee,
                branches,
                header,
            ),
            _ => {
                let x = match self.eval(cx, c) {
                    Ok(v) => v,
                    Err(e) => {
                        return Err(e);
                    },
                };
                match x {
                    Reg::Tuple { tag: _, fields } => {
                        assert(cl_code::regs_view(fields@).len() == fields@.len()) by {
                            broadcast use cl_code::lemma_regs_view;

                        }
                        let v = match self.as_words(&fields) {
                            Ok(v) => v,
                            Err(e) => {
                                return Err(e);
                            },
                        };
                        self.emit(Step::Jump(header, v));
                        Ok(())
                    },
                    _ => Err(cl_refuse("loop body did not produce its carried state")),
                }
            },
        }
    }

    fn eval_next_match(
        &mut self,
        cx: &ClCx,
        scrutinee: &Atom,
        branches: &Vec<Branch>,
        header: u32,
    ) -> (r: Result<(), CodegenError>)
        ensures
            cl_code::did_act(
                r,
                *final(self),
                cl_next_match_s(cx@, scrutinee@, ir::branches_view(branches@), header, old(self)@),
            ),
        decreases branches@, 1nat, 0nat,
    {
        broadcast use ir::lemma_branches_view;

        let ghost bv = ir::branches_view(branches@);
        match self.block_scrutinee(cx, scrutinee) {
            Some(ty) => {
                let p = match self.tagged(cx, scrutinee) {
                    Ok(v) => v,
                    Err(e) => {
                        return Err(e);
                    },
                };
                let arms = self.table(p.1, branches.len());
                self.eval_next_arms(cx, branches, &arms, p.0, &ty, header)
            },
            None => {
                assert(branches@.len() == 2 ==> bv[0] == branches@[0]@ && bv[1] == branches@[1]@);
                if branches.len() != 2 || branches[0].binds != 0 || branches[1].binds != 0 {
                    return Err(
                        cl_refuse(
                            "loop branch join on a value whose layout could not be determined",
                        ),
                    );
                }
                let cond = match self.word(cx, scrutinee) {
                    Ok(v) => v,
                    Err(e) => {
                        return Err(e);
                    },
                };
                let yes = self.block();
                let no = self.block();
                self.choose_block(cond, yes, no);
                if let Err(e) = self.eval_next(cx, &branches[1].body, header) {
                    return Err(e);
                }
                self.go_sealed(no);
                self.eval_next(cx, &branches[0].body, header)
            },
        }
    }

    fn eval_next_arms(
        &mut self,
        cx: &ClCx,
        branches: &Vec<Branch>,
        arms: &Vec<u32>,
        ptr: u32,
        ty: &Type,
        header: u32,
    ) -> (r: Result<(), CodegenError>)
        requires
            arms@.len() == branches@.len(),
        ensures
            cl_code::did_act(
                r,
                *final(self),
                cl_next_arms_s(
                    cx@,
                    ir::branches_view(branches@),
                    branches@.len(),
                    arms@,
                    ptr,
                    ty@,
                    header,
                    old(self)@,
                ),
            ),
        decreases branches@, 0nat, branches@.len(),
    {
        broadcast use ir::lemma_branches_view;

        let ghost c = cx@;
        let ghost s0 = self@;
        let ghost bv = ir::branches_view(branches@);
        let mut i: usize = 0;
        while i < branches.len()
            invariant
                i <= branches@.len(),
                arms@.len() == branches@.len(),
                c == cx@,
                s0 == old(self)@,
                bv == ir::branches_view(branches@),
                bv.len() == branches@.len(),
                cl_next_arms_s(c, bv, i as nat, arms@, ptr, ty@, header, s0) == Ok::<
                    ClSt,
                    CodegenErrorView,
                >(self@),
            decreases branches@.len() - i,
        {
            assert(bv[i as int] == branches@[i as int]@);
            self.go_sealed(arms[i]);
            let fields = variant_fields(cx.world, ty, i as u32);
            self.hold_fields(ptr, &fields, branches[i].binds);
            match self.eval_next(cx, &branches[i].body, header) {
                Ok(_) => {
                    self.release_regs(branches[i].binds as usize);
                },
                Err(e) => {
                    proof {
                        lemma_cl_next_fail(
                            c,
                            bv,
                            (i + 1) as nat,
                            branches@.len(),
                            arms@,
                            ptr,
                            ty@,
                            header,
                            s0,
                        );
                    }
                    return Err(e);
                },
            }
            i = i + 1;
        }
        Ok(())
    }
}

fn copy_numbers(v: &Vec<u32>) -> (r: Vec<u32>)
    ensures
        r@ == v@,
{
    let mut out: Vec<u32> = Vec::new();
    let mut i: usize = 0;
    while i < v.len()
        invariant
            i <= v@.len(),
            out@ == v@.take(i as int),
        decreases v@.len() - i,
    {
        out.push(v[i]);
        assert(out@ =~= v@.take(i + 1));
        i = i + 1;
    }
    assert(v@.take(v@.len() as int) =~= v@);
    out
}

// ---- programs -----------------------------------------------------------------------------------------

/// Options of a build.
#[derive(Debug, Clone, Copy, PartialEq, Eq, Structural)]
pub struct Options {
    /// Whether positions are tested at run time; a release build leaves it out.
    pub bounds_checks: bool,
}

impl Default for Options {
    fn default() -> (r: Self)
        ensures
            r.bounds_checks,
    {
        Options { bounds_checks: true }
    }
}

/// A function to be generated: its symbol, how many words it takes, and its
/// steps.
#[derive(Debug, PartialEq, Eq)]
pub struct ClFunc {
    pub symbol: String,
    pub words: usize,
    pub steps: Vec<Step>,
}

/// The mathematical counterpart of [`ClFunc`].
#[verifier::ext_equal]
pub struct ClFuncView {
    pub symbol: Seq<char>,
    pub words: usize,
    pub steps: Seq<StepView>,
}

impl View for ClFunc {
    type V = ClFuncView;

    open spec fn view(&self) -> ClFuncView {
        ClFuncView { symbol: self.symbol@, words: self.words, steps: cl_code::steps_view(self.steps@) }
    }
}

pub open spec fn cl_funcs_view(v: Seq<ClFunc>) -> Seq<ClFuncView> {
    Seq::new(v.len(), |i: int| v[i]@)
}

/// A program: its functions, the hashes that they are called by, and the names
/// that entry points are found under.
#[derive(Debug, PartialEq, Eq)]
pub struct JitProgram {
    pub functions: Vec<ClFunc>,
    pub metas: Vec<ClMeta>,
    pub names: Vec<(String, crate::ir::Hash)>,
}

/// The mathematical counterpart of [`JitProgram`].
#[verifier::ext_equal]
pub struct JitView {
    pub functions: Seq<ClFuncView>,
    pub metas: Seq<ClMetaView>,
    pub names: Seq<(Seq<char>, Seq<u8>)>,
}

impl View for JitProgram {
    type V = JitView;

    open spec fn view(&self) -> JitView {
        JitView {
            functions: cl_funcs_view(self.functions@),
            metas: cl_eval::cl_metas_view(self.metas@),
            names: hashed::aliases_view(self.names@),
        }
    }
}

/// How many of the first `n` parameters are words: all but those of unit type.
pub open spec fn non_units(v: Seq<TypeView>, n: nat) -> nat
    decreases n,
{
    if n == 0 {
        0
    } else {
        non_units(v, (n - 1) as nat) + if v[n - 1] == TypeView::Unit {
            0nat
        } else {
            1nat
        }
    }
}

/// The binders of the first `n` parameters.
pub open spec fn param_regs(v: Seq<TypeView>, n: nat) -> Seq<RegValue>
    decreases n,
{
    if n == 0 {
        Seq::empty()
    } else {
        param_regs(v, (n - 1) as nat).push(
            if v[n - 1] == TypeView::Unit {
                RegValue::Unit
            } else {
                RegValue::Val((non_units(v, (n - 1) as nat) as usize) as u32)
            },
        )
    }
}

/// The state in which a function starts.
pub open spec fn opening_s(v: Seq<TypeView>) -> ClSt {
    ClSt {
        steps: Seq::empty(),
        env: param_regs(v, v.len()),
        tys: Seq::new(v.len(), |i: int| Some(v[i])),
        values: (non_units(v, v.len()) as usize) as u32,
        blocks: 1,
    }
}

/// The steps of a function.
pub open spec fn fn_steps_s(cx: ClCxView, d: DefView, v: Seq<TypeView>) -> Result<
    Seq<StepView>,
    CodegenErrorView,
> {
    match d.body {
        Some(c) => match cl_word_s(cx, wasm::inside_lams(c), opening_s(v)) {
            Ok((w, s)) => Ok(s.steps.push(StepView::Return(w))),
            Err(e) => Err(e),
        },
        None => Err(cl_code::cl_refused("function without a body"@)),
    }
}

/// The functions that calls know.
pub open spec fn cl_metas_of(v: Seq<PickView>) -> Seq<ClMetaView> {
    Seq::new(v.len(), |i: int| ClMetaView { hash: v[i].hash, params: wasm::params_of(v[i].def.ty) })
}

/// The parameter types that the calls of a hash go by.
pub open spec fn params_for(fns: Seq<ClMetaView>, h: Seq<u8>) -> Seq<TypeView> {
    match cl_eval::meta_pos(fns, h) {
        Some(i) => fns[i].params,
        None => Seq::empty(),
    }
}

pub open spec fn has_symbol(v: Seq<ClFuncView>, name: Seq<char>) -> bool {
    exists|k: int| 0 <= k < v.len() && (#[trigger] v[k]).symbol == name
}

/// The refusal of a second function of one symbol.
pub open spec fn duplicate(name: Seq<char>) -> CodegenErrorView {
    CodegenErrorView::Backend("Duplicate definition of identifier: "@ + name)
}

/// The first `n` functions. A symbol is defined once.
pub open spec fn functions_s(cx: ClCxView, v: Seq<PickView>, n: nat) -> Result<
    Seq<ClFuncView>,
    CodegenErrorView,
>
    decreases n,
{
    if n == 0 {
        Ok(Seq::empty())
    } else {
        match functions_s(cx, v, (n - 1) as nat) {
            Ok(out) => {
                let p = v[n - 1];
                let params = params_for(cx.fns, p.hash);
                match fn_steps_s(cx, p.def, params) {
                    Ok(steps) => if has_symbol(out, p.name) {
                        Err(duplicate(p.name))
                    } else {
                        Ok(
                            out.push(
                                ClFuncView {
                                    symbol: p.name,
                                    words: non_units(params, params.len()) as usize,
                                    steps,
                                },
                            ),
                        )
                    },
                    Err(e) => Err(e),
                }
            },
            Err(e) => Err(e),
        }
    }
}

/// How many words a function takes by its own type.
pub open spec fn own_words(p: PickView) -> nat {
    non_units(wasm::params_of(p.def.ty), wasm::params_of(p.def.ty).len())
}

/// Functions of one symbol that take different numbers of words.
pub open spec fn at_odds(p: PickView, q: PickView) -> bool {
    p.name == q.name && own_words(p) != own_words(q)
}

/// Whether a symbol is declared with another signature before: by a function of the
/// build, or as the allocator that every build imports.
pub open spec fn clashes(v: Seq<PickView>) -> spec_fn(int) -> bool {
    |j: int|
        {
            ||| v[j].name == "marv_rt_alloc"@ && own_words(v[j]) != 1
            ||| exists|i: int| 0 <= i < j && #[trigger] at_odds(v[i], v[j])
        }
}

/// The first function whose symbol has another signature already.
#[verifier::opaque]
pub open spec fn clash(v: Seq<PickView>) -> Option<int> {
    find::first_from(clashes(v), 0, v.len() as int)
}

/// The refusal of a second signature of one symbol.
pub open spec fn incompatible(name: Seq<char>) -> CodegenErrorView {
    CodegenErrorView::Backend(
        "Function "@ + name + " signature is incompatible with previous declaration"@,
    )
}

/// The program of functions that are declared.
pub open spec fn compiled_s(
    w: WorldView,
    v: Seq<PickView>,
    names: Seq<(Seq<char>, Seq<u8>)>,
    checks: bool,
) -> Result<JitView, CodegenErrorView> {
    let metas = cl_metas_of(v);
    match functions_s(ClCxView { world: w, fns: metas, checks }, v, v.len()) {
        Ok(functions) => Ok(JitView { functions, metas, names }),
        Err(e) => Err(e),
    }
}

/// The program of a build: every function is declared before one is compiled.
pub open spec fn jit_s(
    w: WorldView,
    v: Seq<PickView>,
    names: Seq<(Seq<char>, Seq<u8>)>,
    checks: bool,
) -> Result<JitView, CodegenErrorView> {
    match clash(v) {
        Some(j) => Err(incompatible(v[j].name)),
        None => compiled_s(w, v, names, checks),
    }
}

/// The names of the functions of a build among the first `n` definitions: the
/// bare one, then the one under the module.
pub open spec fn module_names(
    path: Seq<char>,
    m: Seq<(Seq<char>, DefView)>,
    entry: Option<Seq<char>>,
    n: nat,
) -> Seq<(Seq<char>, Seq<u8>)>
    decreases n,
{
    if n == 0 {
        Seq::empty()
    } else {
        let rest = module_names(path, m, entry, (n - 1) as nat);
        if reach::concrete_fn(m[n - 1].1) && wasm::wanted(path, m, entry, n - 1) {
            let full = wasm::under(path, m[n - 1].0);
            rest.push((m[n - 1].0, hash::symbol_id(full))).push((full, hash::symbol_id(full)))
        } else {
            rest
        }
    }
}

/// What building did: `want`.
pub open spec fn did_jit(r: Result<JitProgram, CodegenError>, want: Result<JitView, CodegenErrorView>) -> bool {
    match want {
        Ok(p) => r is Ok && r->Ok_0@ == p,
        Err(e) => r is Err && r->Err_0@ == e,
    }
}

fn count_non_units(v: &Vec<Type>) -> (r: usize)
    ensures
        r == non_units(ir::types_view(v@), v@.len()),
        r <= v@.len(),
{
    broadcast use ir::lemma_types_view;

    let ghost tv = ir::types_view(v@);
    let mut n: usize = 0;
    let mut i: usize = 0;
    while i < v.len()
        invariant
            i <= v@.len(),
            n <= i,
            tv == ir::types_view(v@),
            n == non_units(tv, i as nat),
        decreases v@.len() - i,
    {
        assert(tv[i as int] == v@[i as int]@);
        match &v[i] {
            Type::Unit => {},
            _ => {
                n = n + 1;
            },
        }
        i = i + 1;
    }
    n
}

fn opening(v: &Vec<Type>) -> (r: StepBuilder)
    ensures
        r@ == opening_s(ir::types_view(v@)),
{
    broadcast use ir::lemma_types_view;
    broadcast use cl_code::lemma_regs_view;

    let ghost tv = ir::types_view(v@);
    let mut env: Vec<Reg> = Vec::new();
    let mut tys: Vec<Option<Type>> = Vec::new();
    let mut n: usize = 0;
    let mut i: usize = 0;
    assert(cl_code::regs_view(env@) =~= Seq::empty());
    while i < v.len()
        invariant
            i <= v@.len(),
            n <= i,
            tv == ir::types_view(v@),
            n == non_units(tv, i as nat),
            cl_code::regs_view(env@) == param_regs(tv, i as nat),
            tys@.len() == i,
            forall|k: int| 0 <= k < i ==> world::opt_type_view(#[trigger] tys@[k]) == Some(tv[k]),
        decreases v@.len() - i,
    {
        assert(tv[i as int] == v@[i as int]@);
        let ghost before = env@;
        let x = match &v[i] {
            Type::Unit => Reg::Unit,
            _ => {
                n = n + 1;
                Reg::Val((n - 1) as u32)
            },
        };
        let ghost xv = x@;
        env.push(x);
        assert(cl_code::regs_view(env@) =~= cl_code::regs_view(before).push(xv));
        tys.push(Some(v[i].clone()));
        i = i + 1;
    }
    assert(world::opt_types_view(tys@) =~= Seq::new(tv.len(), |i: int| Some(tv[i])));
    let steps: Vec<Step> = Vec::new();
    assert(cl_code::steps_view(steps@) =~= Seq::empty());
    StepBuilder { steps, env, tys, values: n as u32, blocks: 1 }
}

fn compile_fn(cx: &ClCx, d: &Def, v: &Vec<Type>) -> (r: Result<Vec<Step>, CodegenError>)
    ensures
        match fn_steps_s(cx@, d@, ir::types_view(v@)) {
            Ok(x) => r is Ok && cl_code::steps_view(r->Ok_0@) == x,
            Err(e) => r is Err && r->Err_0@ == e,
        },
{
    match &d.body {
        Some(c) => {
            let mut b = opening(v);
            let inner = peel_lams(c);
            let w = match b.eval_word(cx, inner) {
                Ok(v) => v,
                Err(e) => {
                    return Err(e);
                },
            };
            b.emit(Step::Return(w));
            Ok(b.steps)
        },
        None => Err(cl_refuse("function without a body")),
    }
}

proof fn lemma_functions_fail(cx: ClCxView, v: Seq<PickView>, i: nat, n: nat)
    requires
        i <= n,
        functions_s(cx, v, i) is Err,
    ensures
        functions_s(cx, v, n) == functions_s(cx, v, i),
    decreases n - i,
{
    if i < n {
        assert(functions_s(cx, v, i + 1) == functions_s(cx, v, i));
        lemma_functions_fail(cx, v, i + 1, n);
    }
}

fn params_of_hash(fns: &Vec<ClMeta>, h: &crate::ir::Hash) -> (r: Vec<Type>)
    ensures
        ir::types_view(r@) == params_for(cl_eval::cl_metas_view(fns@), h@),
{
    match find_meta(fns, h) {
        Some(i) => {
            assert(cl_eval::cl_metas_view(fns@)[i as int] == fns@[i as int]@);
            clone_types(&fns[i].params)
        },
        None => {
            let none: Vec<Type> = Vec::new();
            assert(ir::types_view(none@) =~= Seq::empty()) by {
                broadcast use ir::lemma_types_view;

            }
            none
        },
    }
}

fn is_defined(v: &Vec<ClFunc>, name: &str) -> (r: bool)
    ensures
        r == has_symbol(cl_funcs_view(v@), name@),
{
    let mut i: usize = 0;
    while i < v.len()
        invariant
            i <= v@.len(),
            forall|k: int| 0 <= k < i ==> (#[trigger] cl_funcs_view(v@)[k]).symbol != name@,
        decreases v@.len() - i,
    {
        assert(cl_funcs_view(v@)[i as int] == v@[i as int]@);
        if str_eq(v[i].symbol.as_str(), name) {
            return true;
        }
        i = i + 1;
    }
    assert(cl_funcs_view(v@).len() == v@.len());
    false
}

fn word_counts(v: &Vec<Pick>) -> (r: Vec<usize>)
    ensures
        r@.len() == v@.len(),
        forall|i: int| 0 <= i < v@.len() ==> #[trigger] r@[i] == own_words(v@[i]@),
{
    let mut out: Vec<usize> = Vec::new();
    let mut i: usize = 0;
    while i < v.len()
        invariant
            i <= v@.len(),
            out@.len() == i,
            forall|k: int| 0 <= k < i ==> #[trigger] out@[k] == own_words(v@[k]@),
        decreases v@.len() - i,
    {
        let params = peel_param_types(&v[i].def.ty);
        assert(ir::types_view(params@).len() == params@.len()) by {
            broadcast use ir::lemma_types_view;

        }
        out.push(count_non_units(&params));
        i = i + 1;
    }
    out
}

fn find_clash(v: &Vec<Pick>) -> (r: Option<usize>)
    ensures
        match clash(wasm::picks_view(v@)) {
            Some(j) => r is Some && r->0 == j && 0 <= j < v@.len(),
            None => r is None,
        },
{
    let ghost pv = wasm::picks_view(v@);
    let counts = word_counts(v);
    let mut j: usize = 0;
    proof {
        reveal(clash);
        find::lemma_first_from(clashes(pv), 0, v@.len() as int);
    }
    while j < v.len()
        invariant
            j <= v@.len(),
            pv == wasm::picks_view(v@),
            counts@.len() == v@.len(),
            forall|i: int| 0 <= i < v@.len() ==> #[trigger] counts@[i] == own_words(v@[i]@),
            forall|k: int| 0 <= k < j ==> !(#[trigger] clashes(pv)(k)),
            match clash(pv) {
                Some(k) => j <= k < v@.len() && clashes(pv)(k) && forall|i: int|
                    0 <= i < k ==> !(#[trigger] clashes(pv)(i)),
                None => forall|i: int| 0 <= i < v@.len() ==> !(#[trigger] clashes(pv)(i)),
            },
        decreases v@.len() - j,
    {
        assert(pv[j as int] == v@[j as int]@);
        let mut odd = str_eq(v[j].name.as_str(), "marv_rt_alloc") && counts[j] != 1;
        let mut i: usize = 0;
        while i < j
            invariant
                i <= j < v@.len(),
                pv == wasm::picks_view(v@),
                pv[j as int] == v@[j as int]@,
                counts@.len() == v@.len(),
                forall|k: int| 0 <= k < v@.len() ==> #[trigger] counts@[k] == own_words(v@[k]@),
                odd == ((pv[j as int].name == "marv_rt_alloc"@ && own_words(pv[j as int]) != 1)
                    || exists|k: int| 0 <= k < i && #[trigger] at_odds(pv[k], pv[j as int])),
            decreases j - i,
        {
            assert(pv[i as int] == v@[i as int]@);
            if str_eq(v[i].name.as_str(), v[j].name.as_str()) && counts[i] != counts[j] {
                assert(at_odds(pv[i as int], pv[j as int]));
                odd = true;
            }
            i = i + 1;
        }
        assert(odd == clashes(pv)(j as int));
        if odd {
            return Some(j);
        }
        j = j + 1;
    }
    None
}

fn duplicate_error(name: &str) -> (r: CodegenError)
    ensures
        r@ == duplicate(name@),
{
    let mut s = "Duplicate definition of identifier: ".to_owned();
    s.append(name);
    CodegenError::Backend(s)
}

fn incompatible_error(name: &str) -> (r: CodegenError)
    ensures
        r@ == incompatible(name@),
{
    let mut s = "Function ".to_owned();
    s.append(name);
    s.append(" signature is incompatible with previous declaration");
    CodegenError::Backend(s)
}

fn compile_functions(cx: &ClCx, v: &Vec<Pick>) -> (r: Result<Vec<ClFunc>, CodegenError>)
    ensures
        match functions_s(cx@, wasm::picks_view(v@), v@.len()) {
            Ok(x) => r is Ok && cl_funcs_view(r->Ok_0@) == x,
            Err(e) => r is Err && r->Err_0@ == e,
        },
{
    let ghost c = cx@;
    let ghost pv = wasm::picks_view(v@);
    let mut out: Vec<ClFunc> = Vec::new();
    let mut i: usize = 0;
    assert(cl_funcs_view(out@) =~= Seq::empty());
    while i < v.len()
        invariant
            i <= v@.len(),
            c == cx@,
            pv == wasm::picks_view(v@),
            functions_s(c, pv, i as nat) == Ok::<Seq<ClFuncView>, CodegenErrorView>(
                cl_funcs_view(out@),
            ),
        decreases v@.len() - i,
    {
        assert(pv[i as int] == v@[i as int]@);
        let params = params_of_hash(cx.fns, &v[i].hash);
        assert(ir::types_view(params@).len() == params@.len()) by {
            broadcast use ir::lemma_types_view;

        }
        match compile_fn(cx, v[i].def, &params) {
            Ok(steps) => {
                if is_defined(&out, v[i].name.as_str()) {
                    proof {
                        lemma_functions_fail(c, pv, (i + 1) as nat, v@.len());
                    }
                    return Err(duplicate_error(v[i].name.as_str()));
                }
                let ghost before = out@;
                let f = ClFunc {
                    symbol: v[i].name.as_str().to_owned(),
                    words: count_non_units(&params),
                    steps,
                };
                let ghost fv = f@;
                out.push(f);
                assert(cl_funcs_view(out@) =~= cl_funcs_view(before).push(fv));
            },
            Err(e) => {
                proof {
                    lemma_functions_fail(c, pv, (i + 1) as nat, v@.len());
                }
                return Err(e);
            },
        }
        i = i + 1;
    }
    Ok(out)
}

fn list_metas(v: &Vec<Pick>) -> (r: Vec<ClMeta>)
    ensures
        cl_eval::cl_metas_view(r@) == cl_metas_of(wasm::picks_view(v@)),
{
    let ghost pv = wasm::picks_view(v@);
    let mut out: Vec<ClMeta> = Vec::new();
    let mut i: usize = 0;
    while i < v.len()
        invariant
            i <= v@.len(),
            pv == wasm::picks_view(v@),
            out@.len() == i,
            forall|k: int| 0 <= k < i ==> #[trigger] out@[k]@ == cl_metas_of(pv)[k],
        decreases v@.len() - i,
    {
        assert(pv[i as int] == v@[i as int]@);
        let m = ClMeta { hash: v[i].hash, params: peel_param_types(&v[i].def.ty) };
        assert(m@ == cl_metas_of(pv)[i as int]);
        out.push(m);
        i = i + 1;
    }
    assert(cl_eval::cl_metas_view(out@) =~= cl_metas_of(pv));
    out
}

fn build(w: &World, v: &Vec<Pick>, names: Vec<(String, crate::ir::Hash)>, checks: bool) -> (r: Result<
    JitProgram,
    CodegenError,
>)
    ensures
        did_jit(r, jit_s(w@, wasm::picks_view(v@), hashed::aliases_view(names@), checks)),
{
    match find_clash(v) {
        Some(j) => {
            assert(wasm::picks_view(v@)[j as int] == v@[j as int]@);
            Err(incompatible_error(v[j].name.as_str()))
        },
        None => build_declared(w, v, names, checks),
    }
}

fn build_declared(
    w: &World,
    v: &Vec<Pick>,
    names: Vec<(String, crate::ir::Hash)>,
    checks: bool,
) -> (r: Result<JitProgram, CodegenError>)
    ensures
        did_jit(r, compiled_s(w@, wasm::picks_view(v@), hashed::aliases_view(names@), checks)),
{
    let metas = list_metas(v);
    let cx = ClCx { world: w, fns: &metas, checks };
    let functions = match compile_functions(&cx, v) {
        Ok(v) => v,
        Err(e) => {
            return Err(e);
        },
    };
    Ok(JitProgram { functions, metas, names })
}

fn list_names(path: &str, defs: &[(String, Def)], entry: Option<&str>) -> (r: Vec<(String, crate::ir::Hash)>)
    ensures
        hashed::aliases_view(r@) == module_names(
            path@,
            reach::defs_view(defs@),
            wasm::opt_str_view(entry),
            defs@.len(),
        ),
{
    let ghost m = reach::defs_view(defs@);
    let ghost ev = wasm::opt_str_view(entry);
    let mask = match entry {
        Some(e) => Some(reachable_mask(path, defs, e)),
        None => None,
    };
    let mut out: Vec<(String, crate::ir::Hash)> = Vec::new();
    let mut i: usize = 0;
    assert(hashed::aliases_view(out@) =~= Seq::empty());
    while i < defs.len()
        invariant
            i <= defs@.len(),
            m == reach::defs_view(defs@),
            ev == wasm::opt_str_view(entry),
            match mask {
                Some(v) => v@.len() == defs@.len() && ev is Some && forall|j: int|
                    0 <= j < defs@.len() ==> #[trigger] v@[j] == reach::needed(path@, m, ev->0, j),
                None => ev is None,
            },
            hashed::aliases_view(out@) == module_names(path@, m, ev, i as nat),
        decreases defs@.len() - i,
    {
        let inside = match &mask {
            Some(v) => v[i],
            None => true,
        };
        if inside && is_concrete(&defs[i].1) {
            let full = name_under(path, defs[i].0.as_str());
            let h = symbol_hash(full.as_str());
            let bare = defs[i].0.as_str().to_owned();
            let ghost before = out@;
            let ghost fv = full@;
            let ghost bv = bare@;
            out.push((bare, h));
            out.push((full, h));
            assert(hashed::aliases_view(out@) =~= hashed::aliases_view(before).push((bv, h@)).push((fv, h@)));
        }
        i = i + 1;
    }
    out
}

/// Compile a set of definitions.
pub fn compile(path: &str, defs: &[(String, Def)], world: &World) -> (r: Result<
    JitProgram,
    CodegenError,
>)
    ensures
        did_jit(
            r,
            jit_s(
                world@,
                wasm::picked(path@, reach::defs_view(defs@), None, defs@.len()),
                module_names(path@, reach::defs_view(defs@), None, defs@.len()),
                true,
            ),
        ),
{
    let opts = Options { bounds_checks: true };
    compile_with(path, defs, world, &opts)
}

/// Compile a set of definitions with options.
pub fn compile_with(path: &str, defs: &[(String, Def)], world: &World, opts: &Options) -> (r: Result<
    JitProgram,
    CodegenError,
>)
    ensures
        did_jit(
            r,
            jit_s(
                world@,
                wasm::picked(path@, reach::defs_view(defs@), None, defs@.len()),
                module_names(path@, reach::defs_view(defs@), None, defs@.len()),
                opts.bounds_checks,
            ),
        ),
{
    let v = pick(path, defs, None);
    let names = list_names(path, defs, None);
    build(world, &v, names, opts.bounds_checks)
}

/// Compile the definitions that `entry` needs, or all of them if there is no
/// such entry.
pub fn compile_reachable(
    path: &str,
    defs: &[(String, Def)],
    world: &World,
    opts: &Options,
    entry: &str,
) -> (r: Result<JitProgram, CodegenError>)
    ensures
        did_jit(
            r,
            jit_s(
                world@,
                wasm::picked(path@, reach::defs_view(defs@), Some(entry@), defs@.len()),
                module_names(path@, reach::defs_view(defs@), Some(entry@), defs@.len()),
                opts.bounds_checks,
            ),
        ),
{
    let v = pick(path, defs, Some(entry));
    let names = list_names(path, defs, Some(entry));
    build(world, &v, names, opts.bounds_checks)
}

/// The functions of a build under symbols made of their hashes.
pub open spec fn by_hash(v: Seq<PickView>) -> Seq<PickView> {
    Seq::new(
        v.len(),
        |i: int| PickView { hash: v[i].hash, name: llvm::symbol_of(v[i].hash), def: v[i].def },
    )
}

fn rename_by_hash<'a>(v: Vec<Pick<'a>>) -> (r: Vec<Pick<'a>>)
    ensures
        wasm::picks_view(r@) == by_hash(wasm::picks_view(v@)),
{
    let ghost pv = wasm::picks_view(v@);
    let mut out: Vec<Pick<'a>> = Vec::new();
    let mut i: usize = 0;
    while i < v.len()
        invariant
            i <= v@.len(),
            pv == wasm::picks_view(v@),
            out@.len() == i,
            forall|k: int| 0 <= k < i ==> #[trigger] out@[k]@ == by_hash(pv)[k],
        decreases v@.len() - i,
    {
        assert(pv[i as int] == v@[i as int]@);
        let p = Pick { hash: v[i].hash, name: hashed_symbol_name(&v[i].hash), def: v[i].def };
        assert(p@ == by_hash(pv)[i as int]);
        out.push(p);
        i = i + 1;
    }
    assert(wasm::picks_view(out@) =~= by_hash(pv));
    out
}

/// Compile what `entry` needs of a program whose definitions have hashes.
pub fn compile_hashed_reachable(
    defs: &[(crate::ir::Hash, String, Def)],
    aliases: &[(String, crate::ir::Hash)],
    world: &World,
    opts: &Options,
    entry: &str,
) -> (r: Result<JitProgram, CodegenError>)
    ensures
        did_jit(
            r,
            jit_s(
                world@,
                by_hash(
                    wasm::hashed_picked(hashed::hashed_view(defs@), hashed::aliases_view(aliases@), entry@, defs@.len()),
                ),
                llvm::ll_names(hashed::hashed_view(defs@), hashed::aliases_view(aliases@), entry@, defs@.len())
                    + hashed::aliases_view(aliases@),
                opts.bounds_checks,
            ),
        ),
{
    let v = rename_by_hash(hashed_pick(defs, aliases, entry));
    let mut names = hashed_names(defs, aliases, entry);
    add_aliases(&mut names, aliases);
    build(world, &v, names, opts.bounds_checks)
}

// ---- entries ------------------------------------------------------------------------------------------

/// The function that a name stands for; the last meaning counts.
pub open spec fn named_meta(p: JitView, name: Seq<char>) -> Option<int> {
    match find::last_below(hashed::named_alias(p.names, name), p.names.len() as int) {
        Some(i) => cl_eval::meta_pos(p.metas, p.names[i].1),
        None => None,
    }
}

/// Whether all functions have one hash.
pub open spec fn lone_hash(fns: Seq<ClMetaView>) -> bool {
    fns.len() > 0 && forall|i: int| 0 <= i < fns.len() ==> #[trigger] fns[i].hash == fns[0].hash
}

/// The entry point: an explicit name; without one `main`, else the only function.
pub open spec fn entry_function(p: JitView, entry: Seq<char>) -> Result<int, CodegenErrorView> {
    if entry.len() > 0 {
        match named_meta(p, entry) {
            Some(i) => Ok(i),
            None => Err(CodegenErrorView::NoSuchEntry(entry)),
        }
    } else {
        match named_meta(p, "main"@) {
            Some(i) => Ok(i),
            None => if lone_hash(p.metas) {
                Ok(p.metas.len() - 1)
            } else {
                Err(CodegenErrorView::NoSuchEntry("main"@))
            },
        }
    }
}

/// How many words the function at a position takes.
pub open spec fn words_at(p: JitView, i: int) -> usize {
    non_units(p.metas[i].params, p.metas[i].params.len()) as usize
}

impl JitProgram {
    fn find_named(&self, name: &str) -> (r: Option<usize>)
        ensures
            match named_meta(self@, name@) {
                Some(i) => r is Some && r->0 == i && 0 <= i < self.metas@.len(),
                None => r is None,
            },
    {
        match find_last_name(&self.names, name) {
            Some(i) => {
                assert(self@.names[i as int] == (
                    self.names@[i as int].0@,
                    self.names@[i as int].1@,
                ));
                find_meta(&self.metas, &self.names[i].1)
            },
            None => None,
        }
    }

    fn has_lone_hash(&self) -> (r: bool)
        ensures
            r == lone_hash(self@.metas),
    {
        let ghost fv = self@.metas;
        if self.metas.len() == 0 {
            return false;
        }
        assert(fv[0] == self.metas@[0]@);
        let mut i: usize = 0;
        while i < self.metas.len()
            invariant
                i <= self.metas@.len(),
                self.metas@.len() > 0,
                fv == cl_eval::cl_metas_view(self.metas@),
                fv[0] == self.metas@[0]@,
                forall|k: int| 0 <= k < i ==> #[trigger] fv[k].hash == fv[0].hash,
            decreases self.metas@.len() - i,
        {
            assert(fv[i as int] == self.metas@[i as int]@);
            if !self.metas[i].hash.same(&self.metas[0].hash) {
                assert(fv[i as int].hash != fv[0].hash);
                return false;
            }
            i = i + 1;
        }
        true
    }

    /// The position of the entry point.
    pub fn resolve_entry(&self, entry: &str) -> (r: Result<usize, CodegenError>)
        ensures
            match entry_function(self@, entry@) {
                Ok(i) => r is Ok && r->Ok_0 == i && 0 <= i < self.metas@.len(),
                Err(e) => r is Err && r->Err_0@ == e,
            },
    {
        if entry.unicode_len() > 0 {
            return match self.find_named(entry) {
                Some(i) => Ok(i),
                None => Err(CodegenError::NoSuchEntry(entry.to_owned())),
            };
        }
        match self.find_named("main") {
            Some(i) => Ok(i),
            None => {
                if self.has_lone_hash() {
                    Ok(self.metas.len() - 1)
                } else {
                    Err(CodegenError::NoSuchEntry("main".to_owned()))
                }
            },
        }
    }

    /// How many words the entry point takes.
    pub fn entry_arity(&self, entry: &str) -> (r: Result<usize, CodegenError>)
        ensures
            match entry_function(self@, entry@) {
                Ok(i) => r is Ok && r->Ok_0 == words_at(self@, i),
                Err(e) => r is Err && r->Err_0@ == e,
            },
    {
        let i = match self.resolve_entry(entry) {
            Ok(v) => v,
            Err(e) => {
                return Err(e);
            },
        };
        assert(self@.metas[i as int] == self.metas@[i as int]@);
        assert(ir::types_view(self.metas@[i as int].params@).len()
            == self.metas@[i as int].params@.len()) by {
            broadcast use ir::lemma_types_view;

        }
        Ok(count_non_units(&self.metas[i].params))
    }

    /// The position of the entry point, if it can be run with that many arguments.
    pub fn check_args(&self, entry: &str, got: usize) -> (r: Result<usize, CodegenError>)
        ensures
            match entry_function(self@, entry@) {
                Ok(i) => if got == words_at(self@, i) {
                    r is Ok && r->Ok_0 == i
                } else {
                    r is Err && r->Err_0@ == (CodegenErrorView::ArgCount {
                        expected: words_at(self@, i),
                        got,
                    })
                },
                Err(e) => r is Err && r->Err_0@ == e,
            },
    {
        let i = match self.resolve_entry(entry) {
            Ok(v) => v,
            Err(e) => {
                return Err(e);
            },
        };
        let expected = match self.entry_arity(entry) {
            Ok(v) => v,
            Err(e) => {
                return Err(e);
            },
        };
        if got == expected {
            Ok(i)
        } else {
            Err(CodegenError::ArgCount { expected, got })
        }
    }
}

} // verus!
