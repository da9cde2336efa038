//! What leaving out the bounds checks changes in native code: nothing in a program
//! that reads and writes no element by its position.
use vstd::prelude::*;

use crate::cl;
use crate::cl_code;
use crate::cl_code::{ClSt, StepView};
use crate::cl_eval;
use crate::cl_eval::ClCxView;
use crate::ir::{AtomView, BranchView, CoreView, PrimOp, TypeView};
use crate::wasm;
use crate::wasm::PickView;
use crate::wasm_eval;
use crate::wasm_release;
use crate::world;
use crate::world::WorldView;

verus! {

/// The same program, built with the other choice.
pub open spec fn with_checks(cx: ClCxView, checks: bool) -> ClCxView {
    ClCxView { checks, ..cx }
}

proof fn lemma_atom(cx: ClCxView, d: bool, a: AtomView, s: ClSt)
    ensures
        cl_eval::reg_atom_s(with_checks(cx, d), a, s) == cl_eval::reg_atom_s(cx, a, s),
        cl_eval::atom_word_s(with_checks(cx, d), a, s) == cl_eval::atom_word_s(cx, a, s),
        cl::tagged_s(with_checks(cx, d), a, s) == cl::tagged_s(cx, a, s),
        cl::cl_block_type(with_checks(cx, d), a, s) == cl::cl_block_type(cx, a, s),
{
    reveal(cl_eval::atom_word_s);
    reveal(cl::tagged_s);
}

proof fn lemma_atoms(cx: ClCxView, d: bool, v: Seq<AtomView>, n: nat, s: ClSt)
    ensures
        cl_eval::reg_atoms_s(with_checks(cx, d), v, n, s) == cl_eval::reg_atoms_s(cx, v, n, s),
        cl_eval::atom_words_s(with_checks(cx, d), v, n, s) == cl_eval::atom_words_s(cx, v, n, s),
    decreases n,
{
    if n > 0 {
        lemma_atoms(cx, d, v, (n - 1) as nat, s);
        match cl_eval::reg_atoms_s(cx, v, (n - 1) as nat, s) {
            Ok((_, s1)) => lemma_atom(cx, d, v[n - 1], s1),
            Err(_) => {},
        }
        match cl_eval::atom_words_s(cx, v, (n - 1) as nat, s) {
            Ok((_, s1)) => lemma_atom(cx, d, v[n - 1], s1),
            Err(_) => {},
        }
    }
}

proof fn lemma_app(cx: ClCxView, d: bool, func: AtomView, arg: AtomView, s: ClSt)
    ensures
        cl_eval::reg_app_s(with_checks(cx, d), func, arg, s) == cl_eval::reg_app_s(
            cx,
            func,
            arg,
            s,
        ),
{
    reveal(cl_eval::reg_app_s);
}

proof fn lemma_prim(cx: ClCxView, d: bool, op: PrimOp, args: Seq<AtomView>, s: ClSt)
    requires
        op != PrimOp::Index,
    ensures
        cl_eval::reg_prim_s(with_checks(cx, d), op, args, s) == cl_eval::reg_prim_s(
            cx,
            op,
            args,
            s,
        ),
{
    reveal(cl_eval::reg_prim_s);
    lemma_atoms(cx, d, args, args.len(), s);
}

proof fn lemma_eval(cx: ClCxView, d: bool, c: CoreView, s: ClSt)
    requires
        wasm_release::unindexed(c),
    ensures
        cl::cl_eval_s(with_checks(cx, d), c, s) == cl::cl_eval_s(cx, c, s),
    decreases c, 2nat, 0nat,
{
    match c {
        CoreView::Atom(a) => lemma_atom(cx, d, a, s),
        CoreView::Let { value, body } => {
            lemma_eval(cx, d, *value, s);
            match cl::cl_eval_s(cx, *value, s) {
                Ok((x, s1)) => lemma_eval(
                    cx,
                    d,
                    *body,
                    cl::hold(s1, x, world::type_of_s(cx.world, *value, s1.tys)),
                ),
                Err(_) => {},
            }
        },
        CoreView::App { func, arg } => lemma_app(cx, d, func, arg, s),
        CoreView::Prim { op, args } => lemma_prim(cx, d, op, args, s),
        CoreView::Cast { value, to } => {
            reveal(cl_eval::reg_cast_s);
            lemma_atom(cx, d, value, s);
        },
        CoreView::Match { scrutinee, branches } => lemma_match(cx, d, scrutinee, branches, s),
        CoreView::Ctor { ty, tag, fields } => lemma_atoms(cx, d, fields, fields.len(), s),
        CoreView::Array { elem, items } => lemma_atoms(cx, d, items, items.len(), s),
        CoreView::Proj { base, idx } => {
            reveal(cl_eval::reg_proj_s);
        },
        CoreView::Loop { .. } => lemma_loop(cx, d, c, s),
        CoreView::Ref { mutable, of } => lemma_atom(cx, d, of, s),
        _ => {},
    }
}

proof fn lemma_word(cx: ClCxView, d: bool, c: CoreView, s: ClSt)
    requires
        wasm_release::unindexed(c),
    ensures
        cl::cl_word_s(with_checks(cx, d), c, s) == cl::cl_word_s(cx, c, s),
    decreases c, 3nat, 0nat,
{
    lemma_eval(cx, d, c, s);
}

proof fn lemma_match(
    cx: ClCxView,
    d: bool,
    scrutinee: AtomView,
    branches: Seq<BranchView>,
    s: ClSt,
)
    requires
        wasm_release::unindexed_branches(branches, branches.len()),
    ensures
        cl::cl_match_s(with_checks(cx, d), scrutinee, branches, s) == cl::cl_match_s(
            cx,
            scrutinee,
            branches,
            s,
        ),
    decreases branches, 2nat, 0nat,
{
    lemma_atom(cx, d, scrutinee, s);
    match cl::cl_block_type(cx, scrutinee, s) {
        Some(ty) => match cl::tagged_s(cx, scrutinee, s) {
            Ok(((ptr, tag), s1)) => {
                let (merge, s2) = cl_code::fork(s1);
                let (result, s3) = cl_code::gain(s2, StepView::Param(merge));
                let (arms, s4) = cl::table_s(tag, branches.len(), s3);
                lemma_arms(cx, d, branches, branches.len(), arms, ptr, ty, merge, s4);
            },
            Err(_) => {},
        },
        None => if wasm_eval::is_if(branches) {
            lemma_if(cx, d, scrutinee, branches, s);
        },
    }
}

proof fn lemma_if(
    cx: ClCxView,
    d: bool,
    scrutinee: AtomView,
    branches: Seq<BranchView>,
    s: ClSt,
)
    requires
        wasm_release::unindexed_branches(branches, branches.len()),
    ensures
        cl::cl_if_s(with_checks(cx, d), scrutinee, branches, s) == cl::cl_if_s(
            cx,
            scrutinee,
            branches,
            s,
        ),
    decreases branches, 1nat, 0nat,
{
    if branches.len() >= 2 {
        lemma_atom(cx, d, scrutinee, s);
        wasm_release::lemma_branch_at(branches, 0, branches.len());
        wasm_release::lemma_branch_at(branches, 1, branches.len());
        match cl_eval::atom_word_s(cx, scrutinee, s) {
            Ok((cond, s1)) => {
                let (yes, s2) = cl_code::fork(s1);
                let (no, s3) = cl_code::fork(s2);
                let (merge, s4) = cl_code::fork(s3);
                let (result, s5) = cl_code::gain(s4, StepView::Param(merge));
                let s6 = cl::choose_s(cond, yes, no, s5);
                lemma_word(cx, d, branches[1].body, s6);
                match cl::cl_word_s(cx, branches[1].body, s6) {
                    Ok((t, s7)) => lemma_word(
                        cx,
                        d,
                        branches[0].body,
                        cl_code::at_sealed(
                            cl_code::act(s7, StepView::Jump(merge, seq![t])),
                            no,
                        ),
                    ),
                    Err(_) => {},
                }
            },
            Err(_) => {},
        }
    }
}

proof fn lemma_arms(
    cx: ClCxView,
    d: bool,
    branches: Seq<BranchView>,
    n: nat,
    arms: Seq<u32>,
    ptr: u32,
    ty: TypeView,
    merge: u32,
    s: ClSt,
)
    requires
        wasm_release::unindexed_branches(branches, n),
    ensures
        cl::cl_arms_s(with_checks(cx, d), branches, n, arms, ptr, ty, merge, s) == cl::cl_arms_s(
            cx,
            branches,
            n,
            arms,
            ptr,
            ty,
            merge,
            s,
        ),
    decreases branches, 0nat, n,
{
    if n == 0 || n > branches.len() {
    } else {
        lemma_arms(cx, d, branches, (n - 1) as nat, arms, ptr, ty, merge, s);
        match cl::cl_arms_s(cx, branches, (n - 1) as nat, arms, ptr, ty, merge, s) {
            Ok(s1) => {
                let b = branches[n - 1];
                let fields = world::fields_of(cx.world, ty, (((n - 1) as usize) as u32) as int);
                let s2 = cl_code::at_sealed(s1, arms[n - 1]);
                lemma_word(cx, d, b.body, cl::hold_fields_s(ptr, fields, b.binds as nat, s2));
            },
            Err(_) => {},
        }
    }
}

proof fn lemma_loop(cx: ClCxView, d: bool, c: CoreView, s: ClSt)
    requires
        wasm_release::unindexed(c),
    ensures
        cl::cl_loop_s(with_checks(cx, d), c, s) == cl::cl_loop_s(cx, c, s),
    decreases c, 1nat, 0nat,
{
    match c {
        CoreView::Loop { state, inv, cond, body } => {
            let k = state.len();
            lemma_atoms(cx, d, state, k, s);
            match cl_eval::atom_words_s(cx, state, k, s) {
                Ok((init, s1)) => {
                    let tys = wasm_eval::atom_tys(cx.world, state, s1.tys);
                    let (header, s2) = cl_code::fork(s1);
                    let (inside, s3) = cl_code::fork(s2);
                    let (exit, s4) = cl_code::fork(s3);
                    let ((carried, last), s5) = cl::carried_params_s(header, exit, k, s4);
                    let s6 = cl_code::act(
                        cl_code::act(s5, StepView::Jump(header, init)),
                        StepView::Switch(header),
                    );
                    let s7 = cl::hold_carried(carried, tys, k, s6);
                    lemma_word(cx, d, *cond, s7);
                    match cl::cl_word_s(cx, *cond, s7) {
                        Ok((v, s8)) => lemma_next(
                            cx,
                            d,
                            *body,
                            header,
                            cl_code::at_sealed(
                                cl_code::act(s8, StepView::Branch(v, inside, exit, carried)),
                                inside,
                            ),
                        ),
                        Err(_) => {},
                    }
                },
                Err(_) => {},
            }
        },
        _ => {},
    }
}

proof fn lemma_next(cx: ClCxView, d: bool, c: CoreView, header: u32, s: ClSt)
    requires
        wasm_release::unindexed(c),
    ensures
        cl::cl_next_s(with_checks(cx, d), c, header, s) == cl::cl_next_s(cx, c, header, s),
    decreases c, 3nat, 0nat,
{
    match c {
        CoreView::Let { value, body } => {
            lemma_eval(cx, d, *value, s);
            match cl::cl_eval_s(cx, *value, s) {
                Ok((x, s1)) => lemma_next(
                    cx,
                    d,
                    *body,
                    header,
                    cl::hold(s1, x, world::type_of_s(cx.world, *value, s1.tys)),
                ),
                Err(_) => {},
            }
        },
        CoreView::Match { scrutinee, branches } => lemma_next_match(
            cx,
            d,
            scrutinee,
            branches,
            header,
            s,
        ),
        _ => lemma_eval(cx, d, c, s),
    }
}

proof fn lemma_next_match(
    cx: ClCxView,
    d: bool,
    scrutinee: AtomView,
    branches: Seq<BranchView>,
    header: u32,
    s: ClSt,
)
    requires
        wasm_release::unindexed_branches(branches, branches.len()),
    ensures
        cl::cl_next_match_s(with_checks(cx, d), scrutinee, branches, header, s)
            == cl::cl_next_match_s(cx, scrutinee, branches, header, s),
    decreases branches, 1nat, 0nat,
{
    lemma_atom(cx, d, scrutinee, s);
    match cl::cl_block_type(cx, scrutinee, s) {
        Some(ty) => match cl::tagged_s(cx, scrutinee, s) {
            Ok(((ptr, tag), s1)) => {
                let (arms, s2) = cl::table_s(tag, branches.len(), s1);
                lemma_next_arms(cx, d, branches, branches.len(), arms, ptr, ty, header, s2);
            },
            Err(_) => {},
        },
        None => if wasm_eval::is_if(branches) {
            wasm_release::lemma_branch_at(branches, 0, branches.len());
            wasm_release::lemma_branch_at(branches, 1, branches.len());
            match cl_eval::atom_word_s(cx, scrutinee, s) {
                Ok((cond, s1)) => {
                    let (yes, s2) = cl_code::fork(s1);
                    let (no, s3) = cl_code::fork(s2);
                    let s4 = cl::choose_s(cond, yes, no, s3);
                    lemma_next(cx, d, branches[1].body, header, s4);
                    match cl::cl_next_s(cx, branches[1].body, header, s4) {
                        Ok(s5) => lemma_next(
                            cx,
                            d,
                            branches[0].body,
                            header,
                            cl_code::at_sealed(s5, no),
                        ),
                        Err(_) => {},
                    }
                },
                Err(_) => {},
            }
        },
    }
}

proof fn lemma_next_arms(
    cx: ClCxView,
    d: bool,
    branches: Seq<BranchView>,
    n: nat,
    arms: Seq<u32>,
    ptr: u32,
    ty: TypeView,
    header: u32,
    s: ClSt,
)
    requires
        wasm_release::unindexed_branches(branches, n),
    ensures
        cl::cl_next_arms_s(with_checks(cx, d), branches, n, arms, ptr, ty, header, s)
            == cl::cl_next_arms_s(cx, branches, n, arms, ptr, ty, header, s),
    decreases branches, 0nat, n,
{
    if n == 0 || n > branches.len() {
    } else {
        lemma_next_arms(cx, d, branches, (n - 1) as nat, arms, ptr, ty, header, s);
        match cl::cl_next_arms_s(cx, branches, (n - 1) as nat, arms, ptr, ty, header, s) {
            Ok(s1) => {
                let b = branches[n - 1];
                let fields = world::fields_of(cx.world, ty, (((n - 1) as usize) as u32) as int);
                let s2 = cl_code::at_sealed(s1, arms[n - 1]);
                lemma_next(
                    cx,
                    d,
                    b.body,
                    header,
                    cl::hold_fields_s(ptr, fields, b.binds as nat, s2),
                );
            },
            Err(_) => {},
        }
    }
}

proof fn lemma_functions(cx: ClCxView, d: bool, v: Seq<PickView>, n: nat)
    requires
        n <= v.len(),
        forall|i: int| 0 <= i < v.len() ==> wasm_release::unindexed_pick(#[trigger] v[i]),
    ensures
        cl::functions_s(with_checks(cx, d), v, n) == cl::functions_s(cx, v, n),
    decreases n,
{
    if n > 0 {
        let p = v[n - 1];
        lemma_functions(cx, d, v, (n - 1) as nat);
        assert(wasm_release::unindexed_pick(p));
        match p.def.body {
            Some(c) => {
                wasm_release::lemma_inside(c);
                lemma_word(
                    cx,
                    d,
                    wasm::inside_lams(c),
                    cl::opening_s(cl::params_for(cx.fns, p.hash)),
                );
            },
            None => {},
        }
    }
}

/// A program that selects no element by its position is planned the same with and
/// without bounds checks.
pub proof fn lemma_a_release_plan_leaves_out_the_checks_alone(
    w: WorldView,
    v: Seq<PickView>,
    names: Seq<(Seq<char>, Seq<u8>)>,
)
    requires
        forall|i: int| 0 <= i < v.len() ==> wasm_release::unindexed_pick(#[trigger] v[i]),
    ensures
        cl::jit_s(w, v, names, false) == cl::jit_s(w, v, names, true),
{
    let cx = ClCxView { world: w, fns: cl::cl_metas_of(v), checks: true };
    lemma_functions(cx, false, v, v.len());
}

} // verus!
