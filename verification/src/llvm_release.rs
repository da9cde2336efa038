//! What leaving out the bounds checks changes in LLVM text: nothing in a program
//! that reads and writes no element by its position.
use vstd::prelude::*;

use crate::ir::{AtomView, BranchView, CoreView, DefView, PrimOp};
use crate::llvm;
use crate::llvm_eval;
use crate::llvm_eval::LlCxView;
use crate::llvm_text;
use crate::llvm_text::{LlSt, PieceView};
use crate::text;
use crate::wasm;
use crate::wasm_eval;
use crate::wasm_release;
use crate::world;
use crate::world::WorldView;

verus! {

/// The same program, built with the other choice.
pub open spec fn with_checks(cx: LlCxView, checks: bool) -> LlCxView {
    LlCxView { checks, ..cx }
}

/// Whether a definition selects no element by its position.
pub open spec fn unindexed_def(d: DefView) -> bool {
    match d.body {
        Some(c) => wasm_release::unindexed(c),
        None => true,
    }
}

proof fn lemma_word(cx: LlCxView, d: bool, a: AtomView, s: LlSt)
    ensures
        llvm_eval::ll_word_s(with_checks(cx, d), a, s) == llvm_eval::ll_word_s(cx, a, s),
{
    reveal(llvm_eval::ll_word_s);
}

proof fn lemma_items(cx: LlCxView, d: bool, env: Seq<PieceView>, v: Seq<AtomView>, n: nat)
    ensures
        llvm_eval::atom_items(with_checks(cx, d), env, v, n) == llvm_eval::atom_items(
            cx,
            env,
            v,
            n,
        ),
    decreases n,
{
    if n > 0 {
        lemma_items(cx, d, env, v, (n - 1) as nat);
    }
}

proof fn lemma_words(cx: LlCxView, d: bool, v: Seq<AtomView>, n: nat, s: LlSt)
    ensures
        llvm_eval::words_s(with_checks(cx, d), v, n, s) == llvm_eval::words_s(cx, v, n, s),
        llvm::carried_s(with_checks(cx, d), v, n, s) == llvm::carried_s(cx, v, n, s),
    decreases n,
{
    if n > 0 {
        lemma_words(cx, d, v, (n - 1) as nat, s);
        match llvm_eval::words_s(cx, v, (n - 1) as nat, s) {
            Ok((_, s1)) => lemma_word(cx, d, v[n - 1], s1),
            Err(_) => {},
        }
        match llvm::carried_s(cx, v, (n - 1) as nat, s) {
            Ok((_, s1)) => lemma_word(cx, d, v[n - 1], s1),
            Err(_) => {},
        }
    }
}

proof fn lemma_prim(cx: LlCxView, d: bool, op: PrimOp, args: Seq<AtomView>, s: LlSt)
    requires
        op != PrimOp::Index,
    ensures
        llvm_eval::ll_prim_s(with_checks(cx, d), op, args, s) == llvm_eval::ll_prim_s(
            cx,
            op,
            args,
            s,
        ),
{
    reveal(llvm_eval::ll_prim_s);
    lemma_words(cx, d, args, args.len(), s);
}

proof fn lemma_eval(cx: LlCxView, d: bool, c: CoreView, s: LlSt)
    requires
        wasm_release::unindexed(c),
    ensures
        llvm::eval_s(with_checks(cx, d), c, s) == llvm::eval_s(cx, c, s),
    decreases c, 2nat, 0nat,
{
    match c {
        CoreView::Let { value, body } => {
            lemma_eval(cx, d, *value, s);
            match llvm::eval_s(cx, *value, s) {
                Ok((x, s1)) => lemma_eval(
                    cx,
                    d,
                    *body,
                    llvm::bind(s1, x, world::type_of_s(cx.world, *value, s1.tys)),
                ),
                Err(_) => {},
            }
        },
        CoreView::App { func, arg } => {
            reveal(llvm_eval::ll_app_s);
        },
        CoreView::Prim { op, args } => lemma_prim(cx, d, op, args, s),
        CoreView::Cast { value, to } => {
            reveal(llvm_eval::ll_cast_s);
            lemma_word(cx, d, value, s);
        },
        CoreView::Match { scrutinee, branches } => lemma_match(cx, d, scrutinee, branches, s),
        CoreView::Ctor { ty, tag, fields } => lemma_items(cx, d, s.env, fields, fields.len()),
        CoreView::Array { elem, items } => lemma_items(cx, d, s.env, items, items.len()),
        CoreView::Proj { base, idx } => {
            reveal(llvm_eval::ll_proj_s);
        },
        CoreView::Loop { state, inv, cond, body } => lemma_loop(cx, d, c, s),
        CoreView::Return { value } => lemma_word(cx, d, value, s),
        _ => {},
    }
}

proof fn lemma_match(
    cx: LlCxView,
    d: bool,
    scrutinee: AtomView,
    branches: Seq<BranchView>,
    s: LlSt,
)
    requires
        wasm_release::unindexed_branches(branches, branches.len()),
    ensures
        llvm::match_s(with_checks(cx, d), scrutinee, branches, s) == llvm::match_s(
            cx,
            scrutinee,
            branches,
            s,
        ),
    decreases branches, 2nat, 0nat,
{
    assert(llvm::is_block(with_checks(cx, d), scrutinee, s) == llvm::is_block(cx, scrutinee, s));
    if llvm::is_block(cx, scrutinee, s) {
        lemma_switch(cx, d, scrutinee, branches, s);
    } else if wasm_eval::is_if(branches) {
        lemma_if(cx, d, scrutinee, branches, s);
    }
}

proof fn lemma_switch(
    cx: LlCxView,
    d: bool,
    scrutinee: AtomView,
    branches: Seq<BranchView>,
    s: LlSt,
)
    requires
        wasm_release::unindexed_branches(branches, branches.len()),
    ensures
        llvm::switch_s(with_checks(cx, d), scrutinee, branches, s) == llvm::switch_s(
            cx,
            scrutinee,
            branches,
            s,
        ),
    decreases branches, 1nat, 0nat,
{
    lemma_word(cx, d, scrutinee, s);
    match llvm_eval::ll_word_s(cx, scrutinee, s) {
        Ok((ptr, s1)) => {
            let (tag, s2) = llvm_text::load_s(ptr, "0"@, s1);
            let (end, s3) = llvm_text::name_s("match.end"@, s2);
            let (other, s4) = llvm_text::name_s("match.default"@, s3);
            let (labels, s5) = llvm::names_s("match.arm"@, branches.len(), s4);
            let cases = text::join_view(llvm::cases_of(labels), "\n    "@);
            let s6 = llvm_text::last_line(
                s5,
                ("switch i64 "@ + tag + ", label %"@ + other + " [\n    "@ + cases + "\n  ]"@),
            );
            lemma_arms(
                cx,
                d,
                branches,
                branches.len(),
                labels,
                ptr,
                end,
                llvm_text::abort_s(llvm_text::block(s6, other)),
            );
        },
        Err(_) => {},
    }
}

proof fn lemma_if(
    cx: LlCxView,
    d: bool,
    scrutinee: AtomView,
    branches: Seq<BranchView>,
    s: LlSt,
)
    requires
        wasm_release::unindexed_branches(branches, branches.len()),
    ensures
        llvm::if_s(with_checks(cx, d), scrutinee, branches, s) == llvm::if_s(
            cx,
            scrutinee,
            branches,
            s,
        ),
    decreases branches, 1nat, 0nat,
{
    if branches.len() >= 2 {
        lemma_word(cx, d, scrutinee, s);
        wasm_release::lemma_branch_at(branches, 0, branches.len());
        wasm_release::lemma_branch_at(branches, 1, branches.len());
        match llvm_eval::ll_word_s(cx, scrutinee, s) {
            Ok((v, s1)) => {
                let ((no, end), s2) = llvm::if_head_s(v, s1);
                lemma_eval(cx, d, branches[1].body, s2);
                match llvm::eval_s(cx, branches[1].body, s2) {
                    Ok((x, s3)) => lemma_else(cx, d, branches[0].body, x, no, end, s3),
                    Err(_) => {},
                }
            },
            Err(_) => {},
        }
    }
}

proof fn lemma_else(
    cx: LlCxView,
    d: bool,
    c: CoreView,
    x: PieceView,
    no: Seq<char>,
    end: Seq<char>,
    s: LlSt,
)
    requires
        wasm_release::unindexed(c),
    ensures
        llvm::else_s(with_checks(cx, d), c, x, no, end, s) == llvm::else_s(cx, c, x, no, end, s),
    decreases c, 3nat, 0nat,
{
    match llvm::arm_end_s(x, end, s) {
        Ok((_, s1)) => lemma_eval(cx, d, c, llvm_text::block(s1, no)),
        Err(_) => {},
    }
}

proof fn lemma_arms(
    cx: LlCxView,
    d: bool,
    branches: Seq<BranchView>,
    n: nat,
    labels: Seq<Seq<char>>,
    ptr: Seq<char>,
    end: Seq<char>,
    s: LlSt,
)
    requires
        wasm_release::unindexed_branches(branches, n),
    ensures
        llvm::arms_s(with_checks(cx, d), branches, n, labels, ptr, end, s) == llvm::arms_s(
            cx,
            branches,
            n,
            labels,
            ptr,
            end,
            s,
        ),
    decreases branches, 0nat, n,
{
    if n == 0 || n > branches.len() {
    } else {
        lemma_arms(cx, d, branches, (n - 1) as nat, labels, ptr, end, s);
        match llvm::arms_s(cx, branches, (n - 1) as nat, labels, ptr, end, s) {
            Ok((out, s1)) => {
                let b = branches[n - 1];
                let s2 = llvm_text::block(s1, labels[n - 1]);
                lemma_eval(cx, d, b.body, llvm::bind_words_s(ptr, b.binds as nat, s2));
            },
            Err(_) => {},
        }
    }
}

proof fn lemma_loop(cx: LlCxView, d: bool, c: CoreView, s: LlSt)
    requires
        wasm_release::unindexed(c),
    ensures
        llvm::loop_s(with_checks(cx, d), c, s) == llvm::loop_s(cx, c, s),
    decreases c, 1nat, 0nat,
{
    match c {
        CoreView::Loop { state, inv, cond, body } => {
            let k = state.len();
            lemma_words(cx, d, state, k, s);
            match llvm::carried_s(cx, state, k, s) {
                Ok((slots, s1)) => {
                    let tys = wasm_eval::atom_tys(cx.world, state, s1.tys);
                    let (header, s2) = llvm_text::name_s("loop.header"@, s1);
                    let (inside, s3) = llvm_text::name_s("loop.body"@, s2);
                    let (exit, s4) = llvm_text::name_s("loop.exit"@, s3);
                    let s5 = llvm_text::block(
                        llvm_text::last_line(s4, llvm_text::jump(header)),
                        header,
                    );
                    let s6 = llvm::bind_carried_s(slots, tys, k, s5);
                    lemma_eval(cx, d, *cond, s6);
                    match llvm::eval_s(cx, *cond, s6) {
                        Ok((x, s7)) => match llvm_text::as_word_s(x, s7) {
                            Ok((v, s8)) => {
                                let (bit, s9) = llvm_text::bit_s(v, s8);
                                let s10 = llvm_text::last_line(
                                    s9,
                                    llvm_text::ll_choice(bit, inside, exit),
                                );
                                lemma_eval(cx, d, *body, llvm_text::block(s10, inside));
                            },
                            Err(_) => {},
                        },
                        Err(_) => {},
                    }
                },
                Err(_) => {},
            }
        },
        _ => {},
    }
}

proof fn lemma_module(cx: LlCxView, d: bool, defs: Seq<DefView>, n: nat)
    requires
        n <= defs.len(),
        forall|i: int| 0 <= i < defs.len() ==> unindexed_def(#[trigger] defs[i]),
    ensures
        llvm::module_text_s(with_checks(cx, d), defs, n) == llvm::module_text_s(cx, defs, n),
    decreases n,
{
    if n > 0 {
        lemma_module(cx, d, defs, (n - 1) as nat);
        assert(unindexed_def(defs[n - 1]));
        match llvm_eval::called(cx.fns, cx.fns[n - 1].hash) {
            Some(i) => match defs[n - 1].body {
                Some(c) => {
                    wasm_release::lemma_inside(c);
                    lemma_eval(
                        cx,
                        d,
                        wasm::inside_lams(c),
                        llvm::first_s(cx.world, cx.fns[i].params),
                    );
                },
                None => {},
            },
            None => {},
        }
    }
}

proof fn lemma_defs(
    m: Seq<(Seq<u8>, Seq<char>, DefView)>,
    a: Seq<(Seq<char>, Seq<u8>)>,
    entry: Seq<char>,
    n: nat,
)
    requires
        n <= m.len(),
        forall|i: int| 0 <= i < m.len() ==> unindexed_def((#[trigger] m[i]).2),
    ensures
        llvm::ll_defs(m, a, entry, n).len() == llvm::ll_fns(m, a, entry, n).len(),
        forall|i: int|
            0 <= i < llvm::ll_defs(m, a, entry, n).len() ==> unindexed_def(
                #[trigger] llvm::ll_defs(m, a, entry, n)[i],
            ),
    decreases n,
{
    if n > 0 {
        lemma_defs(m, a, entry, (n - 1) as nat);
        assert(unindexed_def(m[n - 1].2));
    }
}

/// A program that selects no element by its position is written the same with and
/// without bounds checks, to the character.
pub proof fn lemma_a_release_text_leaves_out_the_checks_alone(
    w: WorldView,
    m: Seq<(Seq<u8>, Seq<char>, DefView)>,
    a: Seq<(Seq<char>, Seq<u8>)>,
    entry: Seq<char>,
    optimize: bool,
)
    requires
        forall|i: int| 0 <= i < m.len() ==> unindexed_def((#[trigger] m[i]).2),
    ensures
        llvm::program_s(w, m, a, entry, false, optimize) == llvm::program_s(
            w,
            m,
            a,
            entry,
            true,
            optimize,
        ),
{
    let fns = llvm::ll_fns(m, a, entry, m.len());
    let cx = LlCxView { world: w, fns, checks: true };
    lemma_defs(m, a, entry, m.len());
    lemma_module(cx, false, llvm::ll_defs(m, a, entry, m.len()), fns.len());
}

} // verus!
