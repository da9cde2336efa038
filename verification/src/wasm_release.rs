//! What leaving out the bounds checks changes: nothing in a module that reads
//! and writes no element by its position.
use vstd::prelude::*;

use crate::ir::{AtomView, BranchView, CoreView, PrimOp, TypeView};
use crate::wasm;
use crate::wasm::PickView;
use crate::wasm_eval;
use crate::wasm_ops;
use crate::wasm_seq;
use crate::wasm_trans;
use crate::wasm_trans::{CxView, TrSt};
use crate::world;
use crate::world::WorldView;

verus! {

/// Whether a term selects no element by its position.
pub open spec fn unindexed(c: CoreView) -> bool
    decreases c, 0nat,
{
    match c {
        CoreView::Let { value, body } => unindexed(*value) && unindexed(*body),
        CoreView::Lam { param, effects, body } => unindexed(*body),
        CoreView::Prim { op, args } => op != PrimOp::Index && op != PrimOp::Slice,
        CoreView::Match { scrutinee, branches } => unindexed_branches(branches, branches.len()),
        CoreView::Loop { state, inv, cond, body } => unindexed(*cond) && unindexed(*body),
        CoreView::IndexSet { base, index, value } => false,
        CoreView::ListPop { list } => false,
        CoreView::ListSet { list, index, value } => false,
        _ => true,
    }
}

/// Whether the first `n` branches select no element by its position.
pub open spec fn unindexed_branches(v: Seq<BranchView>, n: nat) -> bool
    decreases v, n,
{
    if n == 0 || n > v.len() {
        true
    } else {
        unindexed_branches(v, (n - 1) as nat) && unindexed(v[n - 1].body)
    }
}

/// Whether a function selects no element by its position.
pub open spec fn unindexed_pick(p: PickView) -> bool {
    match p.def.body {
        Some(c) => unindexed(c),
        None => true,
    }
}

pub proof fn lemma_branch_at(v: Seq<BranchView>, i: int, n: nat)
    requires
        0 <= i < n <= v.len(),
        unindexed_branches(v, n),
    ensures
        unindexed(v[i].body),
    decreases n,
{
    if i < n - 1 {
        lemma_branch_at(v, i, (n - 1) as nat);
    }
}

/// The same program, built with the other choice.
pub open spec fn with_checks(cx: CxView, checks: bool) -> CxView {
    CxView { checks, ..cx }
}

proof fn lemma_fn_pos(cx: CxView, d: bool, h: Seq<u8>)
    ensures
        wasm_trans::fn_pos(with_checks(cx, d), h) == wasm_trans::fn_pos(cx, h),
{
    assert(wasm_trans::has_hash(with_checks(cx, d), h) =~= wasm_trans::has_hash(cx, h));
}

proof fn lemma_import_pos(cx: CxView, d: bool, cap: Seq<char>, op: u32)
    ensures
        wasm_trans::import_pos(with_checks(cx, d), cap, op) == wasm_trans::import_pos(cx, cap, op),
{
    assert(wasm_trans::is_import(with_checks(cx, d), cap, op) =~= wasm_trans::is_import(cx, cap, op));
}

proof fn lemma_atom(cx: CxView, d: bool, a: AtomView, s: TrSt)
    ensures
        wasm_trans::atom_out_s(with_checks(cx, d), a, s) == wasm_trans::atom_out_s(cx, a, s),
        wasm_trans::word_local_s(with_checks(cx, d), a, s) == wasm_trans::word_local_s(cx, a, s),
        wasm_trans::local_slot_s(with_checks(cx, d), a, s) == wasm_trans::local_slot_s(cx, a, s),
{
    match a {
        AtomView::Global(h) => {
            lemma_fn_pos(cx, d, h);
        },
        _ => {},
    }
}

proof fn lemma_slots(cx: CxView, d: bool, v: Seq<AtomView>, n: nat, s: TrSt)
    ensures
        wasm_trans::local_slots_s(with_checks(cx, d), v, n, s) == wasm_trans::local_slots_s(cx, v, n, s),
    decreases n,
{
    if n > 0 {
        lemma_slots(cx, d, v, (n - 1) as nat, s);
        match wasm_trans::local_slots_s(cx, v, (n - 1) as nat, s) {
            Ok((_, s1)) => {
                lemma_atom(cx, d, v[n - 1], s1);
            },
            Err(_) => {},
        }
    }
}

proof fn lemma_words2(cx: CxView, d: bool, a: AtomView, b: AtomView, s: TrSt)
    ensures
        wasm_ops::words2_s(with_checks(cx, d), a, b, s) == wasm_ops::words2_s(cx, a, b, s),
{
    lemma_atom(cx, d, a, s);
    match wasm_trans::word_local_s(cx, a, s) {
        Ok((_, s1)) => {
            lemma_atom(cx, d, b, s1);
        },
        Err(_) => {},
    }
}

proof fn lemma_app(cx: CxView, d: bool, func: AtomView, arg: AtomView, s: TrSt)
    ensures
        wasm_ops::app_s(with_checks(cx, d), func, arg, s) == wasm_ops::app_s(cx, func, arg, s),
{
    match func {
        AtomView::Global(h) => {
            lemma_fn_pos(cx, d, h);
        },
        _ => {},
    }
    match wasm_ops::callee_of(cx, func, s.env) {
        Ok((h, _)) => {
            lemma_fn_pos(cx, d, h);
        },
        Err(_) => {},
    }
}

proof fn lemma_prim(cx: CxView, d: bool, op: PrimOp, args: Seq<AtomView>, s: TrSt)
    requires
        op != PrimOp::Index,
        op != PrimOp::Slice,
    ensures
        wasm_ops::prim_s(with_checks(cx, d), op, args, s) == wasm_ops::prim_s(cx, op, args, s),
{
    if args.len() >= 2 {
        lemma_words2(cx, d, args[0], args[1], s);
        lemma_atom(cx, d, args[1], s);
    }
}

proof fn lemma_perform(cx: CxView, d: bool, cap: AtomView, op: u32, args: Seq<AtomView>, s: TrSt)
    ensures
        wasm_ops::perform_s(with_checks(cx, d), cap, op, args, s) == wasm_ops::perform_s(cx, cap, op, args, s),
{
    match world::cap_def(cx.world, cap, s.tys) {
        Some(h) => {
            lemma_import_pos(cx, d, wasm_ops::cap_name_of(cx.world, h), op);
        },
        None => {},
    }
}

proof fn lemma_eval(cx: CxView, d: bool, c: CoreView, s: TrSt)
    requires
        unindexed(c),
    ensures
        wasm_eval::eval_s(with_checks(cx, d), c, s) == wasm_eval::eval_s(cx, c, s),
    decreases c, 2nat, 0nat,
{
    match c {
        CoreView::Atom(a) => {
            lemma_atom(cx, d, a, s);
        },
        CoreView::Let { value, body } => {
            lemma_eval(cx, d, *value, s);
            match wasm_eval::eval_s(cx, *value, s) {
                Ok((out, s1)) => match wasm_trans::bind_out_s(out, s1) {
                    Some((x, s2)) => {
                        lemma_eval(
                            cx,
                            d,
                            *body,
                            wasm_eval::enter(s2, x, world::type_of_s(cx.world, *value, s2.tys)),
                        );
                    },
                    None => {},
                },
                Err(_) => {},
            }
        },
        CoreView::App { func, arg } => {
            lemma_app(cx, d, func, arg, s);
        },
        CoreView::Prim { op, args } => {
            lemma_prim(cx, d, op, args, s);
        },
        CoreView::Match { scrutinee, branches } => {
            lemma_match(cx, d, scrutinee, branches, s);
        },
        CoreView::Perform { cap, op, args } => {
            lemma_perform(cx, d, cap, op, args, s);
        },
        CoreView::Ctor { ty, tag, fields } => {
            lemma_slots(cx, d, fields, fields.len(), s);
        },
        CoreView::Array { elem, items } => {
            lemma_slots(cx, d, items, items.len(), s);
        },
        CoreView::ListNew { elem, alloc, capacity } => {
            lemma_atom(cx, d, capacity, s);
        },
        CoreView::ListPush { alloc, list, value } => {
            lemma_words2(cx, d, list, value, s);
        },
        CoreView::Loop { state, inv, cond, body } => {
            lemma_loop(cx, d, c, s);
        },
        CoreView::Ref { mutable, of } => {
            lemma_atom(cx, d, of, s);
        },
        CoreView::Return { value } => {
            lemma_atom(cx, d, value, s);
        },
        _ => {},
    }
}

proof fn lemma_loop(cx: CxView, d: bool, c: CoreView, s: TrSt)
    requires
        unindexed(c),
    ensures
        wasm_eval::loop_s(with_checks(cx, d), c, s) == wasm_eval::loop_s(cx, c, s),
    decreases c, 1nat, 0nat,
{
    match c {
        CoreView::Loop { state, inv, cond, body } => {
            let k = state.len();
            match wasm_trans::atom_args(s.env, state, k) {
                Ok(inits) => {
                    let (dest, s1) = wasm_eval::fresh_n(k, s);
                    let s2 = wasm_eval::store_inits_s(inits, dest, k, s1);
                    let tys = wasm_eval::atom_tys(cx.world, state, s2.tys);
                    let reset = wasm_eval::all_words(cx.world, tys);
                    let (mark, s3) = wasm_eval::mark_s(reset, s2);
                    let s4 = wasm_trans::em(
                        wasm_eval::enter_carried(dest, tys, k, s3),
                        wasm_seq::loop_head_code(),
                    );
                    lemma_eval(cx, d, *cond, s4);
                    match wasm_eval::eval_s(cx, *cond, s4) {
                        Ok((out, s5)) => match wasm_trans::coerce_s(out, s5) {
                            Ok(s6) => {
                                lemma_loop_body(
                                    cx,
                                    d,
                                    *body,
                                    dest,
                                    wasm_trans::em(s6, wasm_seq::loop_test_code()),
                                );
                            },
                            Err(_) => {},
                        },
                        Err(_) => {},
                    }
                },
                Err(_) => {},
            }
        },
        _ => {},
    }
}

proof fn lemma_loop_body(cx: CxView, d: bool, c: CoreView, dest: Seq<u32>, s: TrSt)
    requires
        unindexed(c),
    ensures
        wasm_eval::loop_body_s(with_checks(cx, d), c, dest, s) == wasm_eval::loop_body_s(cx, c, dest, s),
    decreases c, 3nat, 0nat,
{
    match c {
        CoreView::Let { value, body } => {
            lemma_eval(cx, d, *value, s);
            match wasm_eval::eval_s(cx, *value, s) {
                Ok((out, s1)) => match wasm_trans::bind_out_s(out, s1) {
                    Some((x, s2)) => {
                        lemma_loop_body(
                            cx,
                            d,
                            *body,
                            dest,
                            wasm_eval::enter(s2, x, world::type_of_s(cx.world, *value, s2.tys)),
                        );
                    },
                    None => {},
                },
                Err(_) => {},
            }
        },
        CoreView::Match { scrutinee, branches } => {
            lemma_loop_match(cx, d, scrutinee, branches, dest, s);
        },
        _ => {
            lemma_eval(cx, d, c, s);
        },
    }
}

proof fn lemma_loop_match(
    cx: CxView,
    d: bool,
    scrutinee: AtomView,
    branches: Seq<BranchView>,
    dest: Seq<u32>,
    s: TrSt,
)
    requires
        unindexed_branches(branches, branches.len()),
    ensures
        wasm_eval::loop_match_s(with_checks(cx, d), scrutinee, branches, dest, s)
            == wasm_eval::loop_match_s(cx, scrutinee, branches, dest, s),
    decreases branches, 1nat, 0nat,
{
    match wasm_eval::block_type(cx, scrutinee, s) {
        Some(t) => {
            match wasm_eval::scrutinee_s(scrutinee, s) {
                Ok(((ptr, tag), s1)) => {
                    lemma_loop_arms(cx, d, branches, 0, ptr, tag, t, dest, s1);
                },
                Err(_) => {},
            }
        },
        None => {
            if wasm_eval::is_if(branches) {
                lemma_branch_at(branches, 0, 2);
                lemma_branch_at(branches, 1, 2);
                match wasm_eval::condition_s(scrutinee, s) {
                    Ok(s1) => {
                        let s2 = wasm_trans::em(s1, wasm_seq::if_code());
                        lemma_loop_body(cx, d, branches[1].body, dest, s2);
                        match wasm_eval::loop_body_s(cx, branches[1].body, dest, s2) {
                            Ok((_, s3)) => {
                                lemma_loop_body(
                                    cx,
                                    d,
                                    branches[0].body,
                                    dest,
                                    wasm_trans::em(s3, wasm_seq::else_code()),
                                );
                            },
                            Err(_) => {},
                        }
                    },
                    Err(_) => {},
                }
            }
        },
    }
}

proof fn lemma_loop_arms(
    cx: CxView,
    d: bool,
    branches: Seq<BranchView>,
    t: nat,
    ptr: u32,
    tag: u32,
    ty: TypeView,
    dest: Seq<u32>,
    s: TrSt,
)
    requires
        unindexed_branches(branches, branches.len()),
    ensures
        wasm_eval::loop_arms_s(with_checks(cx, d), branches, t, ptr, tag, ty, dest, s)
            == wasm_eval::loop_arms_s(cx, branches, t, ptr, tag, ty, dest, s),
    decreases branches, 0nat, branches.len() - t,
{
    if t < branches.len() {
        lemma_branch_at(branches, t as int, branches.len());
        if t + 1 == branches.len() {
            lemma_loop_arm(cx, d, branches[t as int], t, ptr, ty, dest, s);
        } else {
            let s1 = wasm_trans::em(
                wasm_trans::em(s, wasm_seq::tag_test_code(tag, (t as usize) as i64)),
                wasm_seq::if_code(),
            );
            lemma_loop_arm(cx, d, branches[t as int], t, ptr, ty, dest, s1);
            match wasm_eval::loop_arm_s(cx, branches[t as int], t, ptr, ty, dest, s1) {
                Ok((_, s2)) => {
                    lemma_loop_arms(
                        cx,
                        d,
                        branches,
                        t + 1,
                        ptr,
                        tag,
                        ty,
                        dest,
                        wasm_trans::em(s2, wasm_seq::else_code()),
                    );
                },
                Err(_) => {},
            }
        }
    }
}

proof fn lemma_loop_arm(
    cx: CxView,
    d: bool,
    b: BranchView,
    t: nat,
    ptr: u32,
    ty: TypeView,
    dest: Seq<u32>,
    s: TrSt,
)
    requires
        unindexed(b.body),
    ensures
        wasm_eval::loop_arm_s(with_checks(cx, d), b, t, ptr, ty, dest, s) == wasm_eval::loop_arm_s(
            cx,
            b,
            t,
            ptr,
            ty,
            dest,
            s,
        ),
    decreases b, 0nat, 0nat,
{
    let fields = world::fields_of(cx.world, ty, ((t as usize) as u32) as int);
    lemma_loop_body(cx, d, b.body, dest, wasm_eval::bind_fields_s(ptr, fields, b.binds as nat, s));
}

proof fn lemma_match(
    cx: CxView,
    d: bool,
    scrutinee: AtomView,
    branches: Seq<BranchView>,
    s: TrSt,
)
    requires
        unindexed_branches(branches, branches.len()),
    ensures
        wasm_eval::match_s(with_checks(cx, d), scrutinee, branches, s) == wasm_eval::match_s(
            cx,
            scrutinee,
            branches,
            s,
        ),
    decreases branches, 1nat, 0nat,
{
    match wasm_eval::block_type(cx, scrutinee, s) {
        Some(t) => {
            match wasm_eval::scrutinee_s(scrutinee, s) {
                Ok(((ptr, tag), s1)) => {
                    lemma_arms(cx, d, branches, 0, ptr, tag, t, s1);
                },
                Err(_) => {},
            }
        },
        None => {
            if wasm_eval::is_if(branches) {
                lemma_branch_at(branches, 0, 2);
                lemma_branch_at(branches, 1, 2);
                match wasm_eval::condition_s(scrutinee, s) {
                    Ok(s1) => {
                        let s2 = wasm_trans::em(s1, wasm_seq::if_word_code());
                        lemma_word(cx, d, branches[1].body, s2);
                        match wasm_eval::word_s(cx, branches[1].body, s2) {
                            Ok(s3) => {
                                lemma_word(
                                    cx,
                                    d,
                                    branches[0].body,
                                    wasm_trans::em(s3, wasm_seq::else_code()),
                                );
                            },
                            Err(_) => {},
                        }
                    },
                    Err(_) => {},
                }
            }
        },
    }
}

proof fn lemma_word(cx: CxView, d: bool, c: CoreView, s: TrSt)
    requires
        unindexed(c),
    ensures
        wasm_eval::word_s(with_checks(cx, d), c, s) == wasm_eval::word_s(cx, c, s),
    decreases c, 3nat, 0nat,
{
    lemma_eval(cx, d, c, s);
}

proof fn lemma_arms(
    cx: CxView,
    d: bool,
    branches: Seq<BranchView>,
    t: nat,
    ptr: u32,
    tag: u32,
    ty: TypeView,
    s: TrSt,
)
    requires
        unindexed_branches(branches, branches.len()),
    ensures
        wasm_eval::arms_s(with_checks(cx, d), branches, t, ptr, tag, ty, s) == wasm_eval::arms_s(
            cx,
            branches,
            t,
            ptr,
            tag,
            ty,
            s,
        ),
    decreases branches, 0nat, branches.len() - t,
{
    if t < branches.len() {
        lemma_branch_at(branches, t as int, branches.len());
        if t + 1 == branches.len() {
            lemma_arm(cx, d, branches[t as int], t, ptr, ty, s);
        } else {
            let s1 = wasm_trans::em(
                wasm_trans::em(s, wasm_seq::tag_test_code(tag, (t as usize) as i64)),
                wasm_seq::if_word_code(),
            );
            lemma_arm(cx, d, branches[t as int], t, ptr, ty, s1);
            match wasm_eval::arm_s(cx, branches[t as int], t, ptr, ty, s1) {
                Ok(s2) => {
                    lemma_arms(
                        cx,
                        d,
                        branches,
                        t + 1,
                        ptr,
                        tag,
                        ty,
                        wasm_trans::em(s2, wasm_seq::else_code()),
                    );
                },
                Err(_) => {},
            }
        }
    }
}

proof fn lemma_arm(cx: CxView, d: bool, b: BranchView, t: nat, ptr: u32, ty: TypeView, s: TrSt)
    requires
        unindexed(b.body),
    ensures
        wasm_eval::arm_s(with_checks(cx, d), b, t, ptr, ty, s) == wasm_eval::arm_s(cx, b, t, ptr, ty, s),
    decreases b, 0nat, 0nat,
{
    let fields = world::fields_of(cx.world, ty, ((t as usize) as u32) as int);
    lemma_word(cx, d, b.body, wasm_eval::bind_fields_s(ptr, fields, b.binds as nat, s));
}

pub proof fn lemma_inside(c: CoreView)
    requires
        unindexed(c),
    ensures
        unindexed(wasm::inside_lams(c)),
    decreases c,
{
    match c {
        CoreView::Lam { param, effects, body } => {
            lemma_inside(*body);
        },
        _ => {},
    }
}

proof fn lemma_bodies(cx: CxView, d: bool, v: Seq<PickView>, n: nat)
    requires
        n <= v.len(),
        forall|i: int| 0 <= i < v.len() ==> unindexed_pick(#[trigger] v[i]),
    ensures
        wasm::bodies_s(with_checks(cx, d), v, n) == wasm::bodies_s(cx, v, n),
    decreases n,
{
    if n > 0 {
        let p = v[n - 1];
        lemma_bodies(cx, d, v, (n - 1) as nat);
        assert(unindexed_pick(p));
        lemma_fn_pos(cx, d, p.hash);
        match p.def.body {
            Some(c) => {
                lemma_inside(c);
                lemma_word(
                    cx,
                    d,
                    wasm::inside_lams(c),
                    wasm::start_s(cx.world, wasm::params_of(p.def.ty), wasm::words_of(cx, p.hash)),
                );
            },
            None => {},
        }
    }
}

/// A module that selects no element by its position is built the same with and
/// without bounds checks, to the byte.
pub proof fn lemma_a_release_build_leaves_out_the_checks_alone(
    w: WorldView,
    v: Seq<PickView>,
    whole: bool,
)
    requires
        forall|i: int| 0 <= i < v.len() ==> unindexed_pick(#[trigger] v[i]),
    ensures
        wasm::plan_s(w, v, false, whole) == wasm::plan_s(w, v, true, whole),
        wasm::built_s(wasm::plan_s(w, v, false, whole)) == wasm::built_s(
            wasm::plan_s(w, v, true, whole),
        ),
{
    match wasm::imports_of(w, v, v.len()) {
        Ok(imports) => {
            let cx = wasm::cx_of(w, v, imports, true);
            let other = wasm::cx_of(w, v, imports, false);
            assert(other == with_checks(cx, false));
            lemma_bodies(cx, false, v, v.len());
            assert forall|h: Seq<u8>| #[trigger]
                wasm_trans::fn_pos(other, h) == wasm_trans::fn_pos(cx, h) by {
                lemma_fn_pos(cx, false, h);
            }
            assert(wasm::signatures_of(other, v) =~= wasm::signatures_of(cx, v));
            assert(wasm::exports_of(other, v, whole) =~= wasm::exports_of(cx, v, whole));
            assert(wasm::export_list(other, v) =~= wasm::export_list(cx, v));
        },
        Err(_) => {},
    }
}

} // verus!
