//! The LLVM backend: a program as text in LLVM's assembly language.
use vstd::prelude::*;
use vstd::string::*;

use crate::find;
use crate::hash;
use crate::hash::symbol_hash;
use crate::hashed;
use crate::hashed::{hashed_reachable_mask, is_concrete};
use crate::ir;
use crate::ir::{Atom, AtomView, Branch, BranchView, Core, CoreView, Def, DefView, Type, TypeView};
use crate::llvm_eval;
use crate::llvm_eval::{LlCx, LlCxView, LlMeta, LlMetaView, Tip, TipView, find_called};
use crate::llvm_text;
use crate::llvm_text::{FuncBuilder, LlSt, LlvmError, LlvmErrorView, Piece, PieceView, one_more_of, refuse, show_item};
use crate::ops;
use crate::reach;
use crate::text;
use crate::text::{decimal_string, join, push_decimal, str_eq};
use crate::wasm;
use crate::wasm::{count_words, name_under, peel_lams, peel_param_types};
use crate::wasm_eval;
use crate::wasm_ops;
use crate::wasm_ops::is_no_slot;
use crate::world;
use crate::world::{World, WorldView, atom_type, clone_opt_type, is_boxed, type_of};

verus! {

// ---- options and results --------------------------------------------------------------------------------

/// Options of a build.
#[derive(Debug, Clone, Copy, PartialEq, Eq, Structural)]
pub struct Options {
    /// Whether positions are tested at run time.
    pub bounds_checks: bool,
    /// Whether the code is to be optimized when it is linked.
    pub optimize: bool,
}

impl Default for Options {
    fn default() -> (r: Self)
        ensures
            r.bounds_checks,
            r.optimize,
    {
        Options { bounds_checks: true, optimize: true }
    }
}

/// A compiled program.
#[derive(Debug, PartialEq, Eq)]
pub struct LlvmProgram {
    pub ir: String,
    pub entry_symbol: String,
    pub entry_arity: usize,
    pub optimize: bool,
}

/// The mathematical counterpart of [`LlvmProgram`].
#[verifier::ext_equal]
pub struct LlvmProgramView {
    pub ir: Seq<char>,
    pub entry_symbol: Seq<char>,
    pub entry_arity: usize,
    pub optimize: bool,
}

impl View for LlvmProgram {
    type V = LlvmProgramView;

    open spec fn view(&self) -> LlvmProgramView {
        LlvmProgramView {
            ir: self.ir@,
            entry_symbol: self.entry_symbol@,
            entry_arity: self.entry_arity,
            optimize: self.optimize,
        }
    }
}

// ---- terms -------------------------------------------------------------------------------------------------

/// One more binder.
pub open spec fn bind(s: LlSt, x: PieceView, t: Option<TypeView>) -> LlSt {
    LlSt { env: s.env.push(x), tys: s.tys.push(t), ..s }
}

/// The innermost `n` binders are gone.
pub open spec fn unbind(s: LlSt, n: nat) -> LlSt {
    LlSt { env: wasm_eval::without_last(s.env, n), tys: wasm_eval::without_last(s.tys, n), ..s }
}

/// As many names for blocks.
pub open spec fn names_s(prefix: Seq<char>, n: nat, s: LlSt) -> (Seq<Seq<char>>, LlSt)
    decreases n,
{
    if n == 0 {
        (Seq::empty(), s)
    } else {
        let (out, s1) = names_s(prefix, (n - 1) as nat, s);
        let (l, s2) = llvm_text::name_s(prefix, s1);
        (out.push(l), s2)
    }
}

/// The cases of a switch.
pub open spec fn cases_of(labels: Seq<Seq<char>>) -> Seq<Seq<char>> {
    Seq::new(
        labels.len(),
        |i: int| "i64 "@ + text::decimal(((i as usize) as u64) as nat) + ", label %"@ + labels[i],
    )
}

/// The first `n` fields of a block, as binders of unknown type.
pub open spec fn bind_words_s(ptr: Seq<char>, n: nat, s: LlSt) -> LlSt
    decreases n,
{
    if n == 0 {
        s
    } else {
        let s1 = bind_words_s(ptr, (n - 1) as nat, s);
        let (v, s2) = llvm_text::load_s(ptr, llvm_text::one_more((n - 1) as nat), s1);
        bind(s2, PieceView::Val(v), None)
    }
}

/// The end of a branch: a jump to where branches join, if control comes there.
/// What the branch computes, it computes before the jump.
#[verifier::opaque]
pub open spec fn arm_end_s(item: PieceView, join_at: Seq<char>, s: LlSt) -> Result<
    (TipView, LlSt),
    LlvmErrorView,
> {
    if s.terminated {
        Ok((TipView { item, end: s.current, live: false }, s))
    } else {
        match llvm_eval::settled_s(item, s) {
            Ok((x, s1)) => Ok(
                (
                    TipView { item: x, end: s1.current, live: true },
                    llvm_text::last_line(s1, llvm_text::jump(join_at)),
                ),
            ),
            Err(e) => Err(e),
        }
    }
}

/// The first `n` carried variables: their names, each with its first value.
pub open spec fn carried_s(cx: LlCxView, v: Seq<AtomView>, n: nat, s: LlSt) -> Result<
    (Seq<Seq<char>>, LlSt),
    LlvmErrorView,
>
    decreases n,
{
    if n == 0 {
        Ok((Seq::empty(), s))
    } else {
        match carried_s(cx, v, (n - 1) as nat, s) {
            Ok((out, s1)) => match llvm_eval::ll_word_s(cx, v[n - 1], s1) {
                Ok((init, s2)) => {
                    let (slot, s3) = llvm_text::variable_s(init, s2);
                    Ok((out.push(slot), s3))
                },
                Err(e) => Err(e),
            },
            Err(e) => Err(e),
        }
    }
}

/// The first `n` carried variables, read and bound.
pub open spec fn bind_carried_s(slots: Seq<Seq<char>>, tys: Seq<Option<TypeView>>, n: nat, s: LlSt) -> LlSt
    decreases n,
{
    if n == 0 {
        s
    } else {
        let s1 = bind_carried_s(slots, tys, (n - 1) as nat, s);
        let (v, s2) = llvm_text::read_s(slots[n - 1], s1);
        bind(s2, PieceView::Val(v), tys[n - 1])
    }
}

/// The next values of the first `n` carried variables, stored.
pub open spec fn store_next_s(slots: Seq<Seq<char>>, next: Seq<PieceView>, n: nat, s: LlSt) -> Result<
    LlSt,
    LlvmErrorView,
>
    decreases n,
{
    if n == 0 {
        Ok(s)
    } else {
        match store_next_s(slots, next, (n - 1) as nat, s) {
            Ok(s1) => match llvm_text::as_word_s(next[n - 1], s1) {
                Ok((v, s2)) => Ok(
                    llvm_text::line(s2, "store i64 "@ + v + ", ptr "@ + slots[n - 1]),
                ),
                Err(e) => Err(e),
            },
            Err(e) => Err(e),
        }
    }
}

/// The last values of the first `n` carried variables.
pub open spec fn finals_s(slots: Seq<Seq<char>>, n: nat, s: LlSt) -> (Seq<PieceView>, LlSt)
    decreases n,
{
    if n == 0 {
        (Seq::empty(), s)
    } else {
        let (out, s1) = finals_s(slots, (n - 1) as nat, s);
        let (v, s2) = llvm_text::read_s(slots[n - 1], s1);
        (out.push(PieceView::Val(v)), s2)
    }
}

/// The next state that a loop's body yields: nothing after a return.
pub open spec fn next_state(x: PieceView, k: nat) -> Result<Seq<PieceView>, LlvmErrorView> {
    match x {
        PieceView::Returned => Ok(Seq::empty()),
        PieceView::Tuple { tag, fields } => if fields.len() == k {
            Ok(fields)
        } else {
            Err(llvm_text::refused(no_state_text(x, k)))
        },
        _ => Err(llvm_text::refused(no_state_text(x, k))),
    }
}

pub open spec fn no_state_text(x: PieceView, k: nat) -> Seq<char> {
    "loop body did not produce "@ + text::decimal(((k as usize) as u64) as nat) + " carried value(s): "@
        + llvm_text::item_text(x)
}

/// The code of a term, and what the term has become.
pub open spec fn eval_s(cx: LlCxView, c: CoreView, s: LlSt) -> Result<(PieceView, LlSt), LlvmErrorView>
    decreases c, 2nat, 0nat,
{
    match c {
        CoreView::Atom(a) => match llvm_eval::atom_item(cx, s.env, a) {
            Ok(x) => Ok((x, s)),
            Err(e) => Err(e),
        },
        CoreView::Let { value, body } => match eval_s(cx, *value, s) {
            Ok((PieceView::Returned, s1)) => Ok((PieceView::Returned, s1)),
            Ok((x, s1)) => match eval_s(
                cx,
                *body,
                bind(s1, x, world::type_of_s(cx.world, *value, s1.tys)),
            ) {
                Ok((y, s2)) => Ok((y, unbind(s2, 1))),
                Err(e) => Err(e),
            },
            Err(e) => Err(e),
        },
        CoreView::App { func, arg } => llvm_eval::ll_app_s(cx, func, arg, s),
        CoreView::Prim { op, args } => llvm_eval::ll_prim_s(cx, op, args, s),
        CoreView::Cast { value, to } => llvm_eval::ll_cast_s(cx, value, to, s),
        CoreView::Match { scrutinee, branches } => match_s(cx, scrutinee, branches, s),
        CoreView::Ctor { ty, tag, fields } => match llvm_eval::atom_items(cx, s.env, fields, fields.len()) {
            Ok(v) => Ok((PieceView::Tuple { tag: text::decimal(tag as nat), fields: v }, s)),
            Err(e) => Err(e),
        },
        CoreView::Array { elem, items } => match llvm_eval::atom_items(cx, s.env, items, items.len()) {
            Ok(v) => Ok(
                (
                    PieceView::Tuple {
                        tag: text::decimal(((items.len() as usize) as u32) as nat),
                        fields: v,
                    },
                    s,
                ),
            ),
            Err(e) => Err(e),
        },
        CoreView::Proj { base, idx } => llvm_eval::ll_proj_s(cx, base, idx, s),
        CoreView::IndexSet { base, index, value } => llvm_eval::ll_index_set_s(cx, base, index, value, s),
        CoreView::Loop { state, inv, cond, body } => loop_s(cx, c, s),
        CoreView::Ref { mutable, of } => match llvm_eval::atom_item(cx, s.env, of) {
            Ok(x) => Ok((x, s)),
            Err(e) => Err(e),
        },
        CoreView::Return { value } => match llvm_eval::ll_word_s(cx, value, s) {
            Ok((v, s1)) => Ok((PieceView::Returned, llvm_text::last_line(s1, "ret i64 "@ + v))),
            Err(e) => Err(e),
        },
        CoreView::ListNew { .. }
        | CoreView::ListPush { .. }
        | CoreView::ListPop { .. }
        | CoreView::ListSet { .. } => Err(llvm_text::refused("std.collections.List runtime operations"@)),
        CoreView::Lam { .. } => Err(llvm_text::refused("first-class lambda"@)),
        CoreView::Perform { .. } => Err(
            llvm_text::refused("capability perform (use the interpreter or WASM host imports)"@),
        ),
        CoreView::Raise { .. } => Err(llvm_text::refused("raise"@)),
    }
}

/// Whether a scrutinee is a block in memory.
pub open spec fn is_block(cx: LlCxView, a: AtomView, s: LlSt) -> bool {
    match world::type_of_atom(cx.world, a, s.tys) {
        Some(t) => world::boxed(cx.world, t),
        None => false,
    }
}

/// A branch: by the truth of a word, or by the tag of a block.
pub open spec fn match_s(cx: LlCxView, scrutinee: AtomView, branches: Seq<BranchView>, s: LlSt) -> Result<
    (PieceView, LlSt),
    LlvmErrorView,
>
    decreases branches, 2nat, 0nat,
{
    if is_block(cx, scrutinee, s) {
        switch_s(cx, scrutinee, branches, s)
    } else if !wasm_eval::is_if(branches) {
        Err(llvm_text::refused("scalar match other than bool/if"@))
    } else {
        if_s(cx, scrutinee, branches, s)
    }
}

/// A branch by the tag of a block.
pub open spec fn switch_s(cx: LlCxView, scrutinee: AtomView, branches: Seq<BranchView>, s: LlSt) -> Result<
    (PieceView, LlSt),
    LlvmErrorView,
>
    decreases branches, 1nat, 0nat,
{
    match llvm_eval::ll_word_s(cx, scrutinee, s) {
        Ok((ptr, s1)) => {
            let (tag, s2) = llvm_text::load_s(ptr, "0"@, s1);
            let (end, s3) = llvm_text::name_s("match.end"@, s2);
            let (other, s4) = llvm_text::name_s("match.default"@, s3);
            let (labels, s5) = names_s("match.arm"@, branches.len(), s4);
            let cases = text::join_view(cases_of(labels), "\n    "@);
            let s6 = llvm_text::last_line(s5, ("switch i64 "@ + tag + ", label %"@ + other + " [\n    "@ + cases + "\n  ]"@));
            match arms_s(
                cx,
                branches,
                branches.len(),
                labels,
                ptr,
                end,
                llvm_text::abort_s(llvm_text::block(s6, other)),
            ) {
                Ok((arms, s7)) => llvm_eval::merge_s(end, arms, s7),
                Err(e) => Err(e),
            }
        },
        Err(e) => Err(e),
    }
}

/// The choice between two blocks, and the first of them: the names of the second
/// and of the block where they join.
#[verifier::opaque]
pub open spec fn if_head_s(v: Seq<char>, s: LlSt) -> ((Seq<char>, Seq<char>), LlSt) {
    let (cond, s1) = llvm_text::bit_s(v, s);
    let (yes, s2) = llvm_text::name_s("if.then"@, s1);
    let (no, s3) = llvm_text::name_s("if.else"@, s2);
    let (end, s4) = llvm_text::name_s("if.end"@, s3);
    let s5 = llvm_text::last_line(s4, llvm_text::ll_choice(cond, yes, no));
    ((no, end), llvm_text::block(s5, yes))
}

/// A branch by the truth of a word.
pub open spec fn if_s(cx: LlCxView, scrutinee: AtomView, branches: Seq<BranchView>, s: LlSt) -> Result<
    (PieceView, LlSt),
    LlvmErrorView,
>
    decreases branches, 1nat, 0nat,
{
    if branches.len() < 2 {
        Err(llvm_text::refused("scalar match other than bool/if"@))
    } else {
        match llvm_eval::ll_word_s(cx, scrutinee, s) {
            Ok((v, s1)) => {
                let ((no, end), s2) = if_head_s(v, s1);
                match eval_s(cx, branches[1].body, s2) {
                    Ok((x, s3)) => else_s(cx, branches[0].body, x, no, end, s3),
                    Err(e) => Err(e),
                }
            },
            Err(e) => Err(e),
        }
    }
}

/// The ends of two branches.
#[verifier::opaque]
pub open spec fn both_tips(a: TipView, b: TipView) -> Seq<TipView> {
    seq![a, b]
}

/// The second of two branches, and where they join; the first has become `x`.
pub open spec fn else_s(
    cx: LlCxView,
    c: CoreView,
    x: PieceView,
    no: Seq<char>,
    end: Seq<char>,
    s: LlSt,
) -> Result<(PieceView, LlSt), LlvmErrorView>
    decreases c, 3nat, 0nat,
{
    match arm_end_s(x, end, s) {
        Ok((a, s1)) => match eval_s(cx, c, llvm_text::block(s1, no)) {
            Ok((y, s2)) => match arm_end_s(y, end, s2) {
                Ok((b, s3)) => llvm_eval::merge_s(end, both_tips(a, b), s3),
                Err(e) => Err(e),
            },
            Err(e) => Err(e),
        },
        Err(e) => Err(e),
    }
}

/// The first `n` branches of a switch.
pub open spec fn arms_s(
    cx: LlCxView,
    branches: Seq<BranchView>,
    n: nat,
    labels: Seq<Seq<char>>,
    ptr: Seq<char>,
    end: Seq<char>,
    s: LlSt,
) -> Result<(Seq<TipView>, LlSt), LlvmErrorView>
    decreases branches, 0nat, n,
{
    if n == 0 || n > branches.len() {
        Ok((Seq::empty(), s))
    } else {
        match arms_s(cx, branches, (n - 1) as nat, labels, ptr, end, s) {
            Ok((out, s1)) => {
                let b = branches[n - 1];
                match eval_s(
                    cx,
                    b.body,
                    bind_words_s(ptr, b.binds as nat, llvm_text::block(s1, labels[n - 1])),
                ) {
                    Ok((x, s2)) => match arm_end_s(x, end, unbind(s2, b.binds as nat)) {
                        Ok((a, s3)) => Ok((out.push(a), s3)),
                        Err(e) => Err(e),
                    },
                    Err(e) => Err(e),
                }
            },
            Err(e) => Err(e),
        }
    }
}

/// A loop: the carried state lives in variables of the function.
pub open spec fn loop_s(cx: LlCxView, c: CoreView, s: LlSt) -> Result<(PieceView, LlSt), LlvmErrorView>
    decreases c, 1nat, 0nat,
{
    match c {
        CoreView::Loop { state, inv, cond, body } => {
            let k = state.len();
            match carried_s(cx, state, k, s) {
                Ok((slots, s1)) => {
                    let tys = wasm_eval::atom_tys(cx.world, state, s1.tys);
                    let (header, s2) = llvm_text::name_s("loop.header"@, s1);
                    let (inside, s3) = llvm_text::name_s("loop.body"@, s2);
                    let (exit, s4) = llvm_text::name_s("loop.exit"@, s3);
                    let s5 = llvm_text::block(llvm_text::last_line(s4, llvm_text::jump(header)), header);
                    match eval_s(cx, *cond, bind_carried_s(slots, tys, k, s5)) {
                        Ok((x, s6)) => match llvm_text::as_word_s(x, s6) {
                            Ok((v, s7)) => {
                                let (bit, s8) = llvm_text::bit_s(v, s7);
                                let s9 = llvm_text::block(llvm_text::last_line(s8, llvm_text::ll_choice(bit, inside, exit)), inside);
                                match eval_s(cx, *body, s9) {
                                    Ok((y, s10)) => match next_state(y, k) {
                                        Ok(next) => match again_s(
                                            slots,
                                            next,
                                            header,
                                            unbind(s10, k),
                                        ) {
                                            Ok(s11) => {
                                                let (v, s12) = finals_s(slots, k, llvm_text::block(s11, exit));
                                                Ok((PieceView::Tuple { tag: text::decimal(0), fields: v }, s12))
                                            },
                                            Err(e) => Err(e),
                                        },
                                        Err(e) => Err(e),
                                    },
                                    Err(e) => Err(e),
                                }
                            },
                            Err(e) => Err(e),
                        },
                        Err(e) => Err(e),
                    }
                },
                Err(e) => Err(e),
            }
        },
        _ => Err(llvm_text::refused("loop"@)),
    }
}

/// The way back to the head of a loop, if control comes there.
pub open spec fn again_s(slots: Seq<Seq<char>>, next: Seq<PieceView>, header: Seq<char>, s: LlSt) -> Result<
    LlSt,
    LlvmErrorView,
> {
    if s.terminated {
        Ok(s)
    } else {
        match store_next_s(slots, next, wasm_eval::both_len(slots.len(), next.len()), s) {
            Ok(s1) => Ok(llvm_text::last_line(s1, llvm_text::jump(header))),
            Err(e) => Err(e),
        }
    }
}

proof fn lemma_carried_fail(cx: LlCxView, v: Seq<AtomView>, i: nat, n: nat, s: LlSt)
    requires
        i <= n,
        carried_s(cx, v, i, s) is Err,
    ensures
        carried_s(cx, v, n, s) == carried_s(cx, v, i, s),
    decreases n - i,
{
    if i < n {
        assert(carried_s(cx, v, i + 1, s) == carried_s(cx, v, i, s));
        lemma_carried_fail(cx, v, i + 1, n, s);
    }
}

proof fn lemma_store_fail(slots: Seq<Seq<char>>, next: Seq<PieceView>, i: nat, n: nat, s: LlSt)
    requires
        i <= n,
        store_next_s(slots, next, i, s) is Err,
    ensures
        store_next_s(slots, next, n, s) == store_next_s(slots, next, i, s),
    decreases n - i,
{
    if i < n {
        assert(store_next_s(slots, next, i + 1, s) == store_next_s(slots, next, i, s));
        lemma_store_fail(slots, next, i + 1, n, s);
    }
}

proof fn lemma_arms_fail(
    cx: LlCxView,
    branches: Seq<BranchView>,
    i: nat,
    n: nat,
    labels: Seq<Seq<char>>,
    ptr: Seq<char>,
    end: Seq<char>,
    s: LlSt,
)
    requires
        i <= n <= branches.len(),
        arms_s(cx, branches, i, labels, ptr, end, s) is Err,
    ensures
        arms_s(cx, branches, n, labels, ptr, end, s) == arms_s(
            cx,
            branches,
            i,
            labels,
            ptr,
            end,
            s,
        ),
    decreases n - i,
{
    if i < n {
        assert(arms_s(cx, branches, i + 1, labels, ptr, end, s) == arms_s(
            cx,
            branches,
            i,
            labels,
            ptr,
            end,
            s,
        ));
        lemma_arms_fail(cx, branches, i + 1, n, labels, ptr, end, s);
    }
}

fn no_state(x: &Piece, k: usize) -> (r: LlvmError)
    ensures
        r@ == llvm_text::refused(no_state_text(x@, k as nat)),
{
    let shown = show_item(x);
    let text = {
        let mut x = "loop body did not produce ".to_owned();
        push_decimal(&mut x, k as u64);
        x.append(" carried value(s): ");
        x.append(shown.as_str());
        x
    };
    LlvmError::Unsupported(text)
}

fn next_values(x: Piece, k: usize) -> (r: Result<Vec<Piece>, LlvmError>)
    ensures
        match next_state(x@, k as nat) {
            Ok(v) => r is Ok && llvm_text::pieces_view(r->Ok_0@) == v,
            Err(e) => r is Err && r->Err_0@ == e,
        },
{
    broadcast use llvm_text::lemma_pieces_view;

    match x {
        Piece::Returned => {
            let none: Vec<Piece> = Vec::new();
            assert(llvm_text::pieces_view(none@) =~= Seq::empty());
            Ok(none)
        },
        Piece::Tuple { tag, fields } => {
            if fields.len() == k {
                Ok(fields)
            } else {
                Err(no_state(&Piece::Tuple { tag, fields }, k))
            }
        },
        _ => Err(no_state(&x, k)),
    }
}

impl FuncBuilder {
    fn bind_piece(&mut self, x: Piece, t: Option<Type>)
        ensures
            final(self)@ == bind(old(self)@, x@, world::opt_type_view(t)),
    {
        broadcast use llvm_text::lemma_pieces_view;

        self.env.push(x);
        self.tys.push(t);
        assert(llvm_text::pieces_view(self.env@) =~= llvm_text::pieces_view(old(self).env@).push(x@));
        assert(world::opt_types_view(self.tys@) =~= world::opt_types_view(old(self).tys@).push(world::opt_type_view(t)));
    }

    fn unbind_pieces(&mut self, n: usize)
        ensures
            final(self)@ == unbind(old(self)@, n as nat),
    {
        broadcast use llvm_text::lemma_pieces_view;

        let ghost e0 = self.env@;
        let ghost t0 = self.tys@;
        let ghost first = *self;
        let mut k: usize = 0;
        while k < n
            invariant
                k <= n,
                self.env@ == wasm_eval::without_last(e0, k as nat),
                self.tys@ == wasm_eval::without_last(t0, k as nat),
                self.lines == first.lines,
                self.tmp == first.tmp,
                self.label == first.label,
                self.current == first.current,
                self.terminated == first.terminated,
            decreases n - k,
        {
            let _x = self.env.pop();
            let _t = self.tys.pop();
            assert(self.env@ =~= wasm_eval::without_last(e0, (k + 1) as nat));
            assert(self.tys@ =~= wasm_eval::without_last(t0, (k + 1) as nat));
            k = k + 1;
        }
        assert(llvm_text::pieces_view(wasm_eval::without_last(e0, n as nat)) =~= wasm_eval::without_last(llvm_text::pieces_view(e0), n as nat));
        assert(world::opt_types_view(wasm_eval::without_last(t0, n as nat)) =~= wasm_eval::without_last(
            world::opt_types_view(t0),
            n as nat,
        ));
    }

    fn names(&mut self, prefix: &str, n: usize) -> (r: Vec<String>)
        ensures
            (text::strings_view(r@), final(self)@) == names_s(prefix@, n as nat, old(self)@),
            r@.len() == n,
    {
        let ghost s0 = self@;
        let mut out: Vec<String> = Vec::new();
        let mut i: usize = 0;
        assert(text::strings_view(out@) =~= Seq::empty());
        while i < n
            invariant
                i <= n,
                out@.len() == i,
                (text::strings_view(out@), self@) == names_s(prefix@, i as nat, s0),
            decreases n - i,
        {
            let ghost before = out@;
            let l = self.name(prefix);
            let ghost lv = l@;
            out.push(l);
            assert(text::strings_view(out@) =~= text::strings_view(before).push(lv));
            i = i + 1;
        }
        out
    }

    fn bind_words(&mut self, ptr: &str, n: u32)
        ensures
            final(self)@ == bind_words_s(ptr@, n as nat, old(self)@),
    {
        let ghost s0 = self@;
        let mut i: u32 = 0;
        while i < n
            invariant
                i <= n,
                self@ == bind_words_s(ptr@, i as nat, s0),
            decreases n - i,
        {
            let at = one_more_of(i as usize);
            let v = self.load_word(ptr, at.as_str());
            self.bind_piece(Piece::Val(v), None);
            i = i + 1;
        }
    }

    fn end_arm(&mut self, item: Piece, join_at: &str) -> (r: Result<Tip, LlvmError>)
        ensures
            match arm_end_s(item@, join_at@, old(self)@) {
                Ok((a, s)) => r is Ok && r->Ok_0@ == a && final(self)@ == s,
                Err(e) => r is Err && r->Err_0@ == e,
            },
    {
        reveal(arm_end_s);
        if self.terminated {
            let end = self.current.as_str().to_owned();
            return Ok(Tip { item, end, live: false });
        }
        match self.settled(item) {
            Ok(x) => {
                let end = self.current.as_str().to_owned();
                self.emit_jump(join_at);
                Ok(Tip { item: x, end, live: true })
            },
            Err(e) => Err(e),
        }
    }

    fn carried(&mut self, cx: &LlCx, v: &Vec<Atom>) -> (r: Result<Vec<String>, LlvmError>)
        ensures
            match carried_s(cx@, ir::atoms_view(v@), v@.len(), old(self)@) {
                Ok((x, s)) => r is Ok && text::strings_view(r->Ok_0@) == x && final(self)@ == s
                    && r->Ok_0@.len() == v@.len(),
                Err(e) => r is Err && r->Err_0@ == e,
            },
    {
        let ghost c = cx@;
        let ghost s0 = self@;
        let ghost av = ir::atoms_view(v@);
        let mut out: Vec<String> = Vec::new();
        let mut i: usize = 0;
        assert(text::strings_view(out@) =~= Seq::empty());
        while i < v.len()
            invariant
                i <= v@.len(),
                out@.len() == i,
                c == cx@,
                s0 == old(self)@,
                av == ir::atoms_view(v@),
                carried_s(c, av, i as nat, s0) == Ok::<(Seq<Seq<char>>, LlSt), LlvmErrorView>(
                    (text::strings_view(out@), self@),
                ),
            decreases v@.len() - i,
        {
            assert(av[i as int] == v@[i as int]@);
            match self.word(cx, &v[i]) {
                Ok(init) => {
                    let ghost before = out@;
                    let slot = self.variable(init.as_str());
                    let ghost xv = slot@;
                    out.push(slot);
                    assert(text::strings_view(out@) =~= text::strings_view(before).push(xv));
                },
                Err(e) => {
                    proof {
                        lemma_carried_fail(c, av, (i + 1) as nat, v@.len(), s0);
                    }
                    return Err(e);
                },
            }
            i = i + 1;
        }
        Ok(out)
    }

    fn types_of_state(&self, cx: &LlCx, v: &Vec<Atom>) -> (r: Vec<Option<Type>>)
        ensures
            world::opt_types_view(r@) == wasm_eval::atom_tys(cx@.world, ir::atoms_view(v@), self@.tys),
            r@.len() == v@.len(),
    {
        let ghost av = ir::atoms_view(v@);
        let mut out: Vec<Option<Type>> = Vec::new();
        let mut i: usize = 0;
        while i < v.len()
            invariant
                i <= v@.len(),
                av == ir::atoms_view(v@),
                out@.len() == i,
                forall|k: int|
                    0 <= k < i ==> world::opt_type_view(#[trigger] out@[k]) == world::type_of_atom(
                        cx@.world,
                        av[k],
                        self@.tys,
                    ),
            decreases v@.len() - i,
        {
            assert(av[i as int] == v@[i as int]@);
            let t = atom_type(cx.world, &v[i], &self.tys);
            out.push(t);
            i = i + 1;
        }
        assert(world::opt_types_view(out@) =~= wasm_eval::atom_tys(cx@.world, av, self@.tys));
        out
    }

    fn bind_carried(&mut self, slots: &Vec<String>, tys: &Vec<Option<Type>>)
        requires
            slots@.len() == tys@.len(),
        ensures
            final(self)@ == bind_carried_s(
                text::strings_view(slots@),
                world::opt_types_view(tys@),
                slots@.len(),
                old(self)@,
            ),
    {
        let ghost s0 = self@;
        let ghost sv = text::strings_view(slots@);
        let ghost tv = world::opt_types_view(tys@);
        let mut i: usize = 0;
        while i < slots.len()
            invariant
                i <= slots@.len(),
                sv == text::strings_view(slots@),
                tv == world::opt_types_view(tys@),
                slots@.len() == tys@.len(),
                self@ == bind_carried_s(sv, tv, i as nat, s0),
            decreases slots@.len() - i,
        {
            assert(sv[i as int] == slots@[i as int]@);
            assert(tv[i as int] == world::opt_type_view(tys@[i as int]));
            let v = self.read(slots[i].as_str());
            let t = clone_opt_type(&tys[i]);
            self.bind_piece(Piece::Val(v), t);
            i = i + 1;
        }
    }

    fn store_next(&mut self, slots: &Vec<String>, next: &Vec<Piece>) -> (r: Result<(), LlvmError>)
        ensures
            llvm_text::ll_did_step(
                r,
                *final(self),
                store_next_s(
                    text::strings_view(slots@),
                    llvm_text::pieces_view(next@),
                    wasm_eval::both_len(slots@.len(), next@.len()),
                    old(self)@,
                ),
            ),
    {
        broadcast use llvm_text::lemma_pieces_view;

        let ghost s0 = self@;
        let ghost sv = text::strings_view(slots@);
        let ghost nv = llvm_text::pieces_view(next@);
        let ghost n = wasm_eval::both_len(slots@.len(), next@.len());
        let mut i: usize = 0;
        while i < slots.len() && i < next.len()
            invariant
                i <= n,
                n == wasm_eval::both_len(slots@.len(), next@.len()),
                s0 == old(self)@,
                sv == text::strings_view(slots@),
                nv == llvm_text::pieces_view(next@),
                store_next_s(sv, nv, i as nat, s0) == Ok::<LlSt, LlvmErrorView>(self@),
            decreases n - i,
        {
            assert(sv[i as int] == slots@[i as int]@);
            assert(nv[i as int] == next@[i as int]@);
            match self.as_word(&next[i]) {
                Ok(v) => {
                    let mut text = "store i64 ".to_owned();
                    text.append(v.as_str());
                    text.append(", ptr ");
                    text.append(slots[i].as_str());
                    self.emit(text.as_str());
                },
                Err(e) => {
                    proof {
                        lemma_store_fail(sv, nv, (i + 1) as nat, n, s0);
                    }
                    return Err(e);
                },
            }
            i = i + 1;
        }
        Ok(())
    }

    fn emit_again(&mut self, slots: &Vec<String>, next: &Vec<Piece>, header: &str) -> (r: Result<
        (),
        LlvmError,
    >)
        ensures
            llvm_text::ll_did_step(
                r,
                *final(self),
                again_s(text::strings_view(slots@), llvm_text::pieces_view(next@), header@, old(self)@),
            ),
    {
        assert(llvm_text::pieces_view(next@).len() == next@.len()) by {
            broadcast use llvm_text::lemma_pieces_view;

        }
        if !self.terminated {
            if let Err(e) = self.store_next(slots, next) {
                return Err(e);
            }
            self.emit_jump(header);
        }
        Ok(())
    }

    fn finals(&mut self, slots: &Vec<String>) -> (r: Vec<Piece>)
        ensures
            (llvm_text::pieces_view(r@), final(self)@) == finals_s(
                text::strings_view(slots@),
                slots@.len(),
                old(self)@,
            ),
    {
        broadcast use llvm_text::lemma_pieces_view;

        let ghost s0 = self@;
        let ghost sv = text::strings_view(slots@);
        let mut out: Vec<Piece> = Vec::new();
        let mut i: usize = 0;
        assert(llvm_text::pieces_view(out@) =~= Seq::empty());
        while i < slots.len()
            invariant
                i <= slots@.len(),
                sv == text::strings_view(slots@),
                (llvm_text::pieces_view(out@), self@) == finals_s(sv, i as nat, s0),
            decreases slots@.len() - i,
        {
            assert(sv[i as int] == slots@[i as int]@);
            let ghost before = out@;
            let v = self.read(slots[i].as_str());
            let x = Piece::Val(v);
            let ghost xv = x@;
            out.push(x);
            assert(llvm_text::pieces_view(out@) =~= llvm_text::pieces_view(before).push(xv));
            i = i + 1;
        }
        out
    }

    fn scrutinee_is_block(&self, cx: &LlCx, a: &Atom) -> (r: bool)
        ensures
            r == is_block(cx@, a@, self@),
    {
        match atom_type(cx.world, a, &self.tys) {
            Some(t) => is_boxed(cx.world, &t),
            None => false,
        }
    }

    /// Write a term.
    pub fn eval(&mut self, cx: &LlCx, c: &Core) -> (r: Result<Piece, LlvmError>)
        ensures
            llvm_text::ll_did_item(r, *final(self), eval_s(cx@, c@, old(self)@)),
        decreases c, 2nat, 0nat,
    {
        match c {
            Core::Atom(a) => self.eval_atom(cx, a),
            Core::Let { value, body } => {
                let x = match self.eval(cx, value) {
                    Ok(v) => v,
                    Err(e) => {
                        return Err(e);
                    },
                };
                if let Piece::Returned = &x {
                    return Ok(Piece::Returned);
                }
                let t = type_of(cx.world, value, &mut self.tys);
                self.bind_piece(x, t);
                let y = match self.eval(cx, body) {
                    Ok(v) => v,
                    Err(e) => {
                        return Err(e);
                    },
                };
                self.unbind_pieces(1);
                Ok(y)
            },
            Core::App { func, arg } => self.eval_app(cx, func, arg),
            Core::Prim { op, args } => self.eval_prim(cx, *op, args),
            Core::Cast { value, to } => self.eval_cast(cx, value, to),
            Core::Match { scrutinee, branches } => self.eval_match(cx, scrutinee, branches),
            Core::Ctor { ty: _, tag, fields } => {
                let v = match self.eval_atoms(cx, fields) {
                    Ok(v) => v,
                    Err(e) => {
                        return Err(e);
                    },
                };
                Ok(Piece::Tuple { tag: decimal_string(*tag as u64), fields: v })
            },
            Core::Array { elem: _, items } => {
                let v = match self.eval_atoms(cx, items) {
                    Ok(v) => v,
                    Err(e) => {
                        return Err(e);
                    },
                };
                Ok(Piece::Tuple { tag: decimal_string(items.len() as u32 as u64), fields: v })
            },
            Core::Proj { base, idx } => self.eval_proj(cx, base, *idx),
            Core::IndexSet { base, index, value } => self.eval_index_set(cx, base, index, value),
            Core::Loop { state: _, inv: _, cond: _, body: _ } => self.eval_loop(cx, c),
            Core::Ref { mutable: _, of } => self.eval_atom(cx, of),
            Core::Return { value } => {
                let v = match self.word(cx, value) {
                    Ok(v) => v,
                    Err(e) => {
                        return Err(e);
                    },
                };
                let text = {
                    let mut x = "ret i64 ".to_owned();
                    x.append(v.as_str());
                    x
                };
                self.emit_last(text.as_str());
                Ok(Piece::Returned)
            },
            Core::ListNew { .. } | Core::ListPush { .. } | Core::ListPop { .. } | Core::ListSet { .. } => {
                Err(refuse("std.collections.List runtime operations"))
            },
            Core::Lam { .. } => Err(refuse("first-class lambda")),
            Core::Perform { .. } => Err(
                refuse("capability perform (use the interpreter or WASM host imports)"),
            ),
            Core::Raise { .. } => Err(refuse("raise")),
        }
    }

    fn eval_match(&mut self, cx: &LlCx, scrutinee: &Atom, branches: &Vec<Branch>) -> (r: Result<
        Piece,
        LlvmError,
    >)
        ensures
            llvm_text::ll_did_item(
                r,
                *final(self),
                match_s(cx@, scrutinee@, ir::branches_view(branches@), old(self)@),
            ),
        decreases branches@, 2nat, 0nat,
    {
        broadcast use ir::lemma_branches_view;

        let ghost bv = ir::branches_view(branches@);
        if self.scrutinee_is_block(cx, scrutinee) {
            return self.eval_switch(cx, scrutinee, branches);
        }
        assert(branches@.len() == 2 ==> bv[0] == branches@[0]@ && bv[1] == branches@[1]@);
        if branches.len() != 2 || branches[0].binds != 0 || branches[1].binds != 0 {
            return Err(refuse("scalar match other than bool/if"));
        }
        self.eval_if(cx, scrutinee, branches)
    }

    fn eval_switch(&mut self, cx: &LlCx, scrutinee: &Atom, branches: &Vec<Branch>) -> (r: Result<
        Piece,
        LlvmError,
    >)
        ensures
            llvm_text::ll_did_item(
                r,
                *final(self),
                switch_s(cx@, scrutinee@, ir::branches_view(branches@), old(self)@),
            ),
        decreases branches@, 1nat, 0nat,
    {
        broadcast use ir::lemma_branches_view;

        let ptr = match self.word(cx, scrutinee) {
            Ok(v) => v,
            Err(e) => {
                return Err(e);
            },
        };
        let tag = self.load_word(ptr.as_str(), "0");
        let end = self.name("match.end");
        let other = self.name("match.default");
        let labels = self.names("match.arm", branches.len());
        let list = list_cases(&labels);
        let cases = join(&list, "\n    ");
        let text = {
            let mut x = "switch i64 ".to_owned();
            x.append(tag.as_str());
            x.append(", label %");
            x.append(other.as_str());
            x.append(" [\n    ");
            x.append(cases.as_str());
            x.append("\n  ]");
            x
        };
        self.emit_last(text.as_str());
        self.push_label(other.as_str());
        self.emit_abort();
        let arms = match self.eval_arms(cx, branches, &labels, ptr.as_str(), end.as_str()) {
            Ok(v) => v,
            Err(e) => {
                return Err(e);
            },
        };
        self.merge_slots(end.as_str(), arms)
    }

    fn if_head(&mut self, v: &str) -> (r: (String, String))
        ensures
            ((r.0@, r.1@), final(self)@) == if_head_s(v@, old(self)@),
    {
        reveal(if_head_s);
        let cond = self.bit(v);
        let yes = self.name("if.then");
        let no = self.name("if.else");
        let end = self.name("if.end");
        self.emit_choice(cond.as_str(), yes.as_str(), no.as_str());
        self.push_label(yes.as_str());
        (no, end)
    }

    fn eval_if(&mut self, cx: &LlCx, scrutinee: &Atom, branches: &Vec<Branch>) -> (r: Result<
        Piece,
        LlvmError,
    >)
        requires
            branches@.len() >= 2,
        ensures
            llvm_text::ll_did_item(
                r,
                *final(self),
                if_s(cx@, scrutinee@, ir::branches_view(branches@), old(self)@),
            ),
        decreases branches@, 1nat, 0nat,
    {
        broadcast use ir::lemma_branches_view;

        let ghost bv = ir::branches_view(branches@);
        assert(bv[0] == branches@[0]@ && bv[1] == branches@[1]@);
        let v = match self.word(cx, scrutinee) {
            Ok(v) => v,
            Err(e) => {
                return Err(e);
            },
        };
        let (no, end) = self.if_head(v.as_str());
        let x = match self.eval(cx, &branches[1].body) {
            Ok(v) => v,
            Err(e) => {
                return Err(e);
            },
        };
        self.eval_else(cx, &branches[0].body, x, no.as_str(), end.as_str())
    }

    fn eval_else(&mut self, cx: &LlCx, c: &Core, x: Piece, no: &str, end: &str) -> (r: Result<
        Piece,
        LlvmError,
    >)
        ensures
            llvm_text::ll_did_item(
                r,
                *final(self),
                else_s(cx@, c@, x@, no@, end@, old(self)@),
            ),
        decreases c, 3nat, 0nat,
    {
        let a = match self.end_arm(x, end) {
            Ok(a) => a,
            Err(e) => {
                return Err(e);
            },
        };
        self.push_label(no);
        let y = match self.eval(cx, c) {
            Ok(v) => v,
            Err(e) => {
                return Err(e);
            },
        };
        let b = match self.end_arm(y, end) {
            Ok(b) => b,
            Err(e) => {
                return Err(e);
            },
        };
        let arms = two_tips(a, b);
        self.merge_slots(end, arms)
    }

    fn eval_arms(
        &mut self,
        cx: &LlCx,
        branches: &Vec<Branch>,
        labels: &Vec<String>,
        ptr: &str,
        end: &str,
    ) -> (r: Result<Vec<Tip>, LlvmError>)
        requires
            labels@.len() == branches@.len(),
        ensures
            match arms_s(
                cx@,
                ir::branches_view(branches@),
                branches@.len(),
                text::strings_view(labels@),
                ptr@,
                end@,
                old(self)@,
            ) {
                Ok((x, s)) => r is Ok && llvm_eval::arm_ends(r->Ok_0@) == x && final(self)@ == s,
                Err(e) => r is Err && r->Err_0@ == e,
            },
        decreases branches@, 0nat, branches@.len(),
    {
        broadcast use ir::lemma_branches_view;

        let ghost c = cx@;
        let ghost s0 = self@;
        let ghost bv = ir::branches_view(branches@);
        let ghost lv = text::strings_view(labels@);
        let mut out: Vec<Tip> = Vec::new();
        let mut i: usize = 0;
        assert(llvm_eval::arm_ends(out@) =~= Seq::empty());
        while i < branches.len()
            invariant
                i <= branches@.len(),
                labels@.len() == branches@.len(),
                c == cx@,
                s0 == old(self)@,
                bv == ir::branches_view(branches@),
                bv.len() == branches@.len(),
                lv == text::strings_view(labels@),
                arms_s(c, bv, i as nat, lv, ptr@, end@, s0) == Ok::<
                    (Seq<TipView>, LlSt),
                    LlvmErrorView,
                >((llvm_eval::arm_ends(out@), self@)),
            decreases branches@.len() - i,
        {
            assert(bv[i as int] == branches@[i as int]@);
            assert(lv[i as int] == labels@[i as int]@);
            self.push_label(labels[i].as_str());
            self.bind_words(ptr, branches[i].binds);
            match self.eval(cx, &branches[i].body) {
                Ok(x) => {
                    self.unbind_pieces(branches[i].binds as usize);
                    let ghost before = out@;
                    match self.end_arm(x, end) {
                        Ok(a) => {
                            let ghost av = a@;
                            out.push(a);
                            assert(llvm_eval::arm_ends(out@) =~= llvm_eval::arm_ends(before).push(
                                av,
                            ));
                        },
                        Err(e) => {
                            proof {
                                lemma_arms_fail(
                                    c,
                                    bv,
                                    (i + 1) as nat,
                                    branches@.len(),
                                    lv,
                                    ptr@,
                                    end@,
                                    s0,
                                );
                            }
                            return Err(e);
                        },
                    }
                },
                Err(e) => {
                    proof {
                        lemma_arms_fail(
                            c,
                            bv,
                            (i + 1) as nat,
                            branches@.len(),
                            lv,
                            ptr@,
                            end@,
                            s0,
                        );
                    }
                    return Err(e);
                },
            }
            i = i + 1;
        }
        Ok(out)
    }

    fn eval_loop(&mut self, cx: &LlCx, c: &Core) -> (r: Result<Piece, LlvmError>)
        ensures
            llvm_text::ll_did_item(r, *final(self), loop_s(cx@, c@, old(self)@)),
        decreases c, 1nat, 0nat,
    {
        match c {
            Core::Loop { state, inv: _, cond, body } => {
                let slots = match self.carried(cx, state) {
                    Ok(v) => v,
                    Err(e) => {
                        return Err(e);
                    },
                };
                let tys = self.types_of_state(cx, state);
                let header = self.name("loop.header");
                let inside = self.name("loop.body");
                let exit = self.name("loop.exit");
                self.emit_jump(header.as_str());
                self.push_label(header.as_str());
                self.bind_carried(&slots, &tys);
                let x = match self.eval(cx, cond) {
                    Ok(v) => v,
                    Err(e) => {
                        return Err(e);
                    },
                };
                let v = match self.as_word(&x) {
                    Ok(v) => v,
                    Err(e) => {
                        return Err(e);
                    },
                };
                let bit = self.bit(v.as_str());
                self.emit_choice(bit.as_str(), inside.as_str(), exit.as_str());
                self.push_label(inside.as_str());
                let y = match self.eval(cx, body) {
                    Ok(v) => v,
                    Err(e) => {
                        return Err(e);
                    },
                };
                let next = match next_values(y, state.len()) {
                    Ok(v) => v,
                    Err(e) => {
                        return Err(e);
                    },
                };
                self.unbind_pieces(state.len());
                if let Err(e) = self.emit_again(&slots, &next, header.as_str()) {
                    return Err(e);
                }
                self.push_label(exit.as_str());
                let v = self.finals(&slots);
                Ok(Piece::Tuple { tag: decimal_string(0), fields: v })
            },
            _ => Err(refuse("loop")),
        }
    }
}

fn two_tips(a: Tip, b: Tip) -> (r: Vec<Tip>)
    ensures
        llvm_eval::arm_ends(r@) == both_tips(a@, b@),
{
    reveal(both_tips);
    let mut arms: Vec<Tip> = Vec::new();
    arms.push(a);
    arms.push(b);
    assert(llvm_eval::arm_ends(arms@) =~= seq![a@, b@]);
    arms
}

fn list_cases(labels: &Vec<String>) -> (r: Vec<String>)
    ensures
        text::strings_view(r@) == cases_of(text::strings_view(labels@)),
{
    let ghost lv = text::strings_view(labels@);
    let mut out: Vec<String> = Vec::new();
    let mut i: usize = 0;
    while i < labels.len()
        invariant
            i <= labels@.len(),
            lv == text::strings_view(labels@),
            out@.len() == i,
            forall|k: int| 0 <= k < i ==> #[trigger] out@[k]@ == cases_of(lv)[k],
        decreases labels@.len() - i,
    {
        assert(lv[i as int] == labels@[i as int]@);
        let mut text = "i64 ".to_owned();
        push_decimal(&mut text, i as u64);
        text.append(", label %");
        text.append(labels[i].as_str());
        out.push(text);
        i = i + 1;
    }
    assert(text::strings_view(out@) =~= cases_of(lv));
    out
}

// ---- functions ------------------------------------------------------------------------------------------------

/// The symbol of a function.
pub open spec fn symbol_of(h: Seq<u8>) -> Seq<char> {
    "marv_b3_"@ + ops::hex_view(h)
}

/// The symbol of a function.
pub fn hashed_symbol_name(h: &crate::ir::Hash) -> (r: String)
    ensures
        r@ == symbol_of(h@),
{
    let hex = h.to_hex();
    {
        let mut x = "marv_b3_".to_owned();
        x.append(hex.as_str());
        x
    }
}

/// The functions of a build among the first `n` definitions.
pub open spec fn ll_fns(
    m: Seq<(Seq<u8>, Seq<char>, DefView)>,
    a: Seq<(Seq<char>, Seq<u8>)>,
    entry: Seq<char>,
    n: nat,
) -> Seq<LlMetaView>
    decreases n,
{
    if n == 0 {
        Seq::empty()
    } else {
        let rest = ll_fns(m, a, entry, (n - 1) as nat);
        if reach::concrete_fn(m[n - 1].2) && hashed::hashed_needed(m, a, entry, n - 1) {
            rest.push(
                LlMetaView {
                    hash: m[n - 1].0,
                    symbol: symbol_of(m[n - 1].0),
                    params: wasm::params_of(m[n - 1].2.ty),
                },
            )
        } else {
            rest
        }
    }
}

/// The bodies of the functions of a build among the first `n` definitions.
pub open spec fn ll_defs(
    m: Seq<(Seq<u8>, Seq<char>, DefView)>,
    a: Seq<(Seq<char>, Seq<u8>)>,
    entry: Seq<char>,
    n: nat,
) -> Seq<DefView>
    decreases n,
{
    if n == 0 {
        Seq::empty()
    } else {
        let rest = ll_defs(m, a, entry, (n - 1) as nat);
        if reach::concrete_fn(m[n - 1].2) && hashed::hashed_needed(m, a, entry, n - 1) {
            rest.push(m[n - 1].2)
        } else {
            rest
        }
    }
}

/// The names that a build knows: of each function its own and its hash, then the
/// aliases.
pub open spec fn ll_names(
    m: Seq<(Seq<u8>, Seq<char>, DefView)>,
    a: Seq<(Seq<char>, Seq<u8>)>,
    entry: Seq<char>,
    n: nat,
) -> Seq<(Seq<char>, Seq<u8>)>
    decreases n,
{
    if n == 0 {
        Seq::empty()
    } else {
        let rest = ll_names(m, a, entry, (n - 1) as nat);
        if reach::concrete_fn(m[n - 1].2) && hashed::hashed_needed(m, a, entry, n - 1) {
            rest.push((m[n - 1].1, m[n - 1].0)).push(("b3:"@ + ops::hex_view(m[n - 1].0), m[n - 1].0))
        } else {
            rest
        }
    }
}

/// The function that a name stands for; the last meaning counts.
pub open spec fn ll_lookup(fns: Seq<LlMetaView>, names: Seq<(Seq<char>, Seq<u8>)>, name: Seq<char>) -> Option<
    Seq<u8>,
> {
    match find::last_below(hashed::named_alias(names, name), names.len() as int) {
        Some(i) => if llvm_eval::called(fns, names[i].1) is Some {
            Some(names[i].1)
        } else {
            None
        },
        None => None,
    }
}

/// Whether all functions have one hash.
pub open spec fn one_hash(fns: Seq<LlMetaView>) -> bool {
    fns.len() > 0 && forall|i: int| 0 <= i < fns.len() ==> #[trigger] fns[i].hash == fns[0].hash
}

/// The entry of a build: an explicit name; without one `main`, else the only
/// function.
pub open spec fn ll_entry(fns: Seq<LlMetaView>, names: Seq<(Seq<char>, Seq<u8>)>, entry: Seq<char>) -> Result<
    Seq<u8>,
    LlvmErrorView,
> {
    if entry.len() > 0 {
        match ll_lookup(fns, names, entry) {
            Some(h) => Ok(h),
            None => Err(LlvmErrorView::NoSuchEntry(entry)),
        }
    } else {
        match ll_lookup(fns, names, "main"@) {
            Some(h) => Ok(h),
            None => if one_hash(fns) {
                Ok(fns[0].hash)
            } else {
                Err(LlvmErrorView::NoSuchEntry("main"@))
            },
        }
    }
}

/// The binders of the first `n` parameters.
pub open spec fn param_pieces(w: WorldView, v: Seq<TypeView>, n: nat) -> Seq<PieceView>
    decreases n,
{
    if n == 0 {
        Seq::empty()
    } else {
        param_pieces(w, v, (n - 1) as nat).push(
            if wasm_ops::no_slot(w, v[n - 1]) {
                PieceView::Unit
            } else {
                PieceView::Val(
                    "%a"@ + text::decimal(((wasm::word_count(w, v, (n - 1) as nat) as usize) as u64) as nat),
                )
            },
        )
    }
}

/// The first `n` parameters in a function's head.
pub open spec fn param_list(n: nat) -> Seq<Seq<char>> {
    Seq::new(n, |i: int| "i64 %a"@ + text::decimal(((i as usize) as u64) as nat))
}

/// The state in which a function starts.
pub open spec fn first_s(w: WorldView, v: Seq<TypeView>) -> LlSt {
    LlSt {
        lines: seq!["entry"@ + ":"@],
        env: param_pieces(w, v, v.len()),
        tys: Seq::new(v.len(), |i: int| Some(v[i])),
        tmp: 0,
        label: 0,
        current: "entry"@,
        terminated: false,
    }
}

/// The lines of a function's body.
pub open spec fn lines_s(cx: LlCxView, c: CoreView, v: Seq<TypeView>) -> Result<
    Seq<Seq<char>>,
    LlvmErrorView,
> {
    match eval_s(cx, wasm::inside_lams(c), first_s(cx.world, v)) {
        Ok((x, s)) => if s.terminated {
            Ok(s.lines)
        } else {
            match llvm_text::as_word_s(x, s) {
                Ok((t, s1)) => Ok(llvm_text::last_line(s1, "ret i64 "@ + t).lines),
                Err(e) => Err(e),
            }
        },
        Err(e) => Err(e),
    }
}

/// A function.
pub open spec fn fn_text_s(cx: LlCxView, h: Seq<u8>, d: DefView) -> Result<Seq<char>, LlvmErrorView> {
    match llvm_eval::called(cx.fns, h) {
        Some(i) => match d.body {
            Some(c) => {
                let m = cx.fns[i];
                match lines_s(cx, c, m.params) {
                    Ok(lines) => {
                        let params = text::join_view(
                            param_list(wasm::word_count(cx.world, m.params, m.params.len())),
                            ", "@,
                        );
                        let body = text::join_view(lines, "\n"@);
                        Ok(("define i64 @"@ + m.symbol + "("@ + params + ") {\n"@ + body + "}\n"@))
                    },
                    Err(e) => Err(e),
                }
            },
            None => Err(llvm_text::refused("function without a body"@)),
        },
        None => Err(LlvmErrorView::UnknownGlobal(h)),
    }
}

/// The first `n` functions, after the head of a module.
pub open spec fn module_text_s(cx: LlCxView, defs: Seq<DefView>, n: nat) -> Result<Seq<char>, LlvmErrorView>
    decreases n,
{
    if n == 0 {
        Ok("; marv LLVM backend (MARV-69)\ndeclare ptr @calloc(i64, i64)\ndeclare void @abort()\n\n"@)
    } else {
        match module_text_s(cx, defs, (n - 1) as nat) {
            Ok(out) => match fn_text_s(cx, cx.fns[n - 1].hash, defs[n - 1]) {
                Ok(t) => Ok(out + t + "\n"@),
                Err(e) => Err(e),
            },
            Err(e) => Err(e),
        }
    }
}

/// The program of a build.
pub open spec fn program_s(
    w: WorldView,
    m: Seq<(Seq<u8>, Seq<char>, DefView)>,
    a: Seq<(Seq<char>, Seq<u8>)>,
    entry: Seq<char>,
    checks: bool,
    optimize: bool,
) -> Result<LlvmProgramView, LlvmErrorView> {
    let fns = ll_fns(m, a, entry, m.len());
    match ll_entry(fns, ll_names(m, a, entry, m.len()) + a, entry) {
        Ok(h) => match llvm_eval::called(fns, h) {
            Some(i) => {
                let cx = LlCxView { world: w, fns, checks };
                match module_text_s(cx, ll_defs(m, a, entry, m.len()), fns.len()) {
                    Ok(ir) => Ok(
                        LlvmProgramView {
                            ir,
                            entry_symbol: fns[i].symbol,
                            entry_arity: wasm::word_count(w, fns[i].params, fns[i].params.len()) as usize,
                            optimize,
                        },
                    ),
                    Err(e) => Err(e),
                }
            },
            None => Err(LlvmErrorView::NoSuchEntry(entry)),
        },
        Err(e) => Err(e),
    }
}

/// What building did: `want`.
pub open spec fn did_program(
    r: Result<LlvmProgram, LlvmError>,
    want: Result<LlvmProgramView, LlvmErrorView>,
) -> bool {
    match want {
        Ok(p) => r is Ok && r->Ok_0@ == p,
        Err(e) => r is Err && r->Err_0@ == e,
    }
}

fn first_state(w: &World, v: &Vec<Type>) -> (r: FuncBuilder)
    ensures
        r@ == first_s(w@, ir::types_view(v@)),
{
    broadcast use ir::lemma_types_view;
    broadcast use llvm_text::lemma_pieces_view;

    let ghost tv = ir::types_view(v@);
    let mut env: Vec<Piece> = Vec::new();
    let mut tys: Vec<Option<Type>> = Vec::new();
    let mut count: usize = 0;
    let mut i: usize = 0;
    assert(llvm_text::pieces_view(env@) =~= Seq::empty());
    while i < v.len()
        invariant
            i <= v@.len(),
            count <= i,
            tv == ir::types_view(v@),
            count == wasm::word_count(w@, tv, i as nat),
            llvm_text::pieces_view(env@) == param_pieces(w@, tv, i as nat),
            tys@.len() == i,
            forall|k: int| 0 <= k < i ==> world::opt_type_view(#[trigger] tys@[k]) == Some(tv[k]),
        decreases v@.len() - i,
    {
        assert(tv[i as int] == v@[i as int]@);
        let ghost before = env@;
        let x = if is_no_slot(w, &v[i]) {
            Piece::Unit
        } else {
            let mut t = "%a".to_owned();
            push_decimal(&mut t, count as u64);
            count = count + 1;
            Piece::Val(t)
        };
        let ghost xv = x@;
        env.push(x);
        assert(llvm_text::pieces_view(env@) =~= llvm_text::pieces_view(before).push(xv));
        tys.push(Some(v[i].clone()));
        i = i + 1;
    }
    assert(world::opt_types_view(tys@) =~= Seq::new(tv.len(), |i: int| Some(tv[i])));
    let mut head = "entry".to_owned();
    head.append(":");
    let ghost hv = head@;
    let mut lines: Vec<String> = Vec::new();
    lines.push(head);
    assert(text::strings_view(lines@) =~= seq![hv]);
    FuncBuilder {
        lines,
        env,
        tys,
        tmp: 0,
        label: 0,
        current: "entry".to_owned(),
        terminated: false,
    }
}

fn body_lines(cx: &LlCx, c: &Core, v: &Vec<Type>) -> (r: Result<Vec<String>, LlvmError>)
    ensures
        match lines_s(cx@, c@, ir::types_view(v@)) {
            Ok(x) => r is Ok && text::strings_view(r->Ok_0@) == x,
            Err(e) => r is Err && r->Err_0@ == e,
        },
{
    let mut b = first_state(cx.world, v);
    let inner = peel_lams(c);
    let x = match b.eval(cx, inner) {
        Ok(v) => v,
        Err(e) => {
            return Err(e);
        },
    };
    if !b.terminated {
        let t = match b.as_word(&x) {
            Ok(v) => v,
            Err(e) => {
                return Err(e);
            },
        };
        let text = {
            let mut x = "ret i64 ".to_owned();
            x.append(t.as_str());
            x
        };
        b.emit_last(text.as_str());
    }
    Ok(b.lines)
}

fn list_params(n: usize) -> (r: Vec<String>)
    ensures
        text::strings_view(r@) == param_list(n as nat),
{
    let mut out: Vec<String> = Vec::new();
    let mut i: usize = 0;
    while i < n
        invariant
            i <= n,
            out@.len() == i,
            forall|k: int| 0 <= k < i ==> #[trigger] out@[k]@ == param_list(n as nat)[k],
        decreases n - i,
    {
        let mut t = "i64 %a".to_owned();
        push_decimal(&mut t, i as u64);
        out.push(t);
        i = i + 1;
    }
    assert(text::strings_view(out@) =~= param_list(n as nat));
    out
}

fn compile_fn(cx: &LlCx, h: &crate::ir::Hash, d: &Def) -> (r: Result<String, LlvmError>)
    ensures
        match fn_text_s(cx@, h@, d@) {
            Ok(t) => r is Ok && r->Ok_0@ == t,
            Err(e) => r is Err && r->Err_0@ == e,
        },
{
    match find_called(cx.fns, h) {
        Some(i) => match &d.body {
            Some(c) => {
                assert(cx@.fns[i as int] == cx.fns@[i as int]@);
                assert(ir::types_view(cx.fns@[i as int].params@).len()
                    == cx.fns@[i as int].params@.len()) by {
                    broadcast use ir::lemma_types_view;

                }
                let m = &cx.fns[i];
                let lines = match body_lines(cx, c, &m.params) {
                    Ok(v) => v,
                    Err(e) => {
                        return Err(e);
                    },
                };
                let list = list_params(count_words(cx.world, &m.params));
                let params = join(&list, ", ");
                let body = join(&lines, "\n");
                Ok({
                    let mut x = "define i64 @".to_owned();
                    x.append(m.symbol.as_str());
                    x.append("(");
                    x.append(params.as_str());
                    x.append(") {\n");
                    x.append(body.as_str());
                    x.append("}\n");
                    x
                })
            },
            None => Err(refuse("function without a body")),
        },
        None => Err(LlvmError::UnknownGlobal(*h)),
    }
}

proof fn lemma_module_fail(cx: LlCxView, defs: Seq<DefView>, i: nat, n: nat)
    requires
        i <= n,
        module_text_s(cx, defs, i) is Err,
    ensures
        module_text_s(cx, defs, n) == module_text_s(cx, defs, i),
    decreases n - i,
{
    if i < n {
        assert(module_text_s(cx, defs, i + 1) == module_text_s(cx, defs, i));
        lemma_module_fail(cx, defs, i + 1, n);
    }
}

/// The definitions of the functions of a build.
pub open spec fn def_refs(v: Seq<&Def>) -> Seq<DefView> {
    Seq::new(v.len(), |i: int| v[i]@)
}

fn module_text(cx: &LlCx, defs: &Vec<&Def>) -> (r: Result<String, LlvmError>)
    requires
        defs@.len() == cx.fns@.len(),
    ensures
        match module_text_s(cx@, def_refs(defs@), defs@.len()) {
            Ok(t) => r is Ok && r->Ok_0@ == t,
            Err(e) => r is Err && r->Err_0@ == e,
        },
{
    let ghost c = cx@;
    let ghost dv = def_refs(defs@);
    let mut out = "; marv LLVM backend (MARV-69)\ndeclare ptr @calloc(i64, i64)\ndeclare void @abort()\n\n".to_owned();
    let mut i: usize = 0;
    while i < defs.len()
        invariant
            i <= defs@.len(),
            defs@.len() == cx.fns@.len(),
            c == cx@,
            dv == def_refs(defs@),
            module_text_s(c, dv, i as nat) == Ok::<Seq<char>, LlvmErrorView>(out@),
        decreases defs@.len() - i,
    {
        assert(c.fns[i as int] == cx.fns@[i as int]@);
        assert(dv[i as int] == defs@[i as int]@);
        match compile_fn(cx, &cx.fns[i].hash, defs[i]) {
            Ok(t) => {
                out.append(t.as_str());
                out.append("\n");
            },
            Err(e) => {
                proof {
                    lemma_module_fail(c, dv, (i + 1) as nat, defs@.len());
                }
                return Err(e);
            },
        }
        i = i + 1;
    }
    Ok(out)
}

/// The last entry of that name.
pub fn find_last_name(names: &Vec<(String, crate::ir::Hash)>, name: &str) -> (r: Option<usize>)
    ensures
        match find::last_below(hashed::named_alias(hashed::aliases_view(names@), name@), names@.len() as int) {
            Some(i) => r is Some && r->0 == i && 0 <= i < names@.len(),
            None => r is None,
        },
{
    let ghost p = hashed::named_alias(hashed::aliases_view(names@), name@);
    let mut i: usize = names.len();
    while i > 0
        invariant
            i <= names@.len(),
            p == hashed::named_alias(hashed::aliases_view(names@), name@),
            find::last_below(p, names@.len() as int) == find::last_below(p, i as int),
        decreases i,
    {
        let hit = str_eq(names[i - 1].0.as_str(), name);
        assert(hit == p(i - 1));
        if hit {
            return Some(i - 1);
        }
        i = i - 1;
    }
    None
}

fn look_up(fns: &Vec<LlMeta>, names: &Vec<(String, crate::ir::Hash)>, name: &str) -> (r: Option<crate::ir::Hash>)
    ensures
        match ll_lookup(llvm_eval::ll_metas_view(fns@), hashed::aliases_view(names@), name@) {
            Some(h) => r is Some && r->0@ == h,
            None => r is None,
        },
{
    match find_last_name(names, name) {
        Some(i) => {
            assert(hashed::aliases_view(names@)[i as int] == (names@[i as int].0@, names@[i as int].1@));
            if find_called(fns, &names[i].1).is_some() {
                Some(names[i].1)
            } else {
                None
            }
        },
        None => None,
    }
}

fn has_one_hash(fns: &Vec<LlMeta>) -> (r: bool)
    ensures
        r == one_hash(llvm_eval::ll_metas_view(fns@)),
{
    let ghost fv = llvm_eval::ll_metas_view(fns@);
    if fns.len() == 0 {
        return false;
    }
    assert(fv[0] == fns@[0]@);
    let mut i: usize = 0;
    while i < fns.len()
        invariant
            i <= fns@.len(),
            fns@.len() > 0,
            fv == llvm_eval::ll_metas_view(fns@),
            fv[0] == fns@[0]@,
            forall|k: int| 0 <= k < i ==> #[trigger] fv[k].hash == fv[0].hash,
        decreases fns@.len() - i,
    {
        assert(fv[i as int] == fns@[i as int]@);
        if !fns[i].hash.same(&fns[0].hash) {
            assert(fv[i as int].hash != fv[0].hash);
            return false;
        }
        i = i + 1;
    }
    true
}

fn resolve_entry_from_maps(fns: &Vec<LlMeta>, names: &Vec<(String, crate::ir::Hash)>, entry: &str) -> (r: Result<
    crate::ir::Hash,
    LlvmError,
>)
    ensures
        match ll_entry(llvm_eval::ll_metas_view(fns@), hashed::aliases_view(names@), entry@) {
            Ok(h) => r is Ok && r->Ok_0@ == h,
            Err(e) => r is Err && r->Err_0@ == e,
        },
{
    if entry.unicode_len() > 0 {
        return match look_up(fns, names, entry) {
            Some(h) => Ok(h),
            None => Err(LlvmError::NoSuchEntry(entry.to_owned())),
        };
    }
    match look_up(fns, names, "main") {
        Some(h) => Ok(h),
        None => {
            if has_one_hash(fns) {
                assert(llvm_eval::ll_metas_view(fns@)[0] == fns@[0]@);
                Ok(fns[0].hash)
            } else {
                Err(LlvmError::NoSuchEntry("main".to_owned()))
            }
        },
    }
}

/// The functions of a build, their definitions, and the names that it knows.
struct Gathered<'a> {
    fns: Vec<LlMeta>,
    defs: Vec<&'a Def>,
    names: Vec<(String, crate::ir::Hash)>,
}

fn gather<'a>(defs: &'a [(crate::ir::Hash, String, Def)], aliases: &[(String, crate::ir::Hash)], entry: &str) -> (r: Gathered<'a>)
    ensures
        llvm_eval::ll_metas_view(r.fns@) == ll_fns(
            hashed::hashed_view(defs@),
            hashed::aliases_view(aliases@),
            entry@,
            defs@.len(),
        ),
        def_refs(r.defs@) == ll_defs(
            hashed::hashed_view(defs@),
            hashed::aliases_view(aliases@),
            entry@,
            defs@.len(),
        ),
        hashed::aliases_view(r.names@) == ll_names(
            hashed::hashed_view(defs@),
            hashed::aliases_view(aliases@),
            entry@,
            defs@.len(),
        ),
        r.fns@.len() == r.defs@.len(),
{
    let ghost m = hashed::hashed_view(defs@);
    let ghost a = hashed::aliases_view(aliases@);
    let mask = hashed_reachable_mask(defs, aliases, entry);
    let mut fns: Vec<LlMeta> = Vec::new();
    let mut out: Vec<&'a Def> = Vec::new();
    let mut names: Vec<(String, crate::ir::Hash)> = Vec::new();
    let mut i: usize = 0;
    assert(llvm_eval::ll_metas_view(fns@) =~= Seq::empty());
    assert(def_refs(out@) =~= Seq::empty());
    assert(hashed::aliases_view(names@) =~= Seq::empty());
    while i < defs.len()
        invariant
            i <= defs@.len(),
            m == hashed::hashed_view(defs@),
            a == hashed::aliases_view(aliases@),
            mask@.len() == defs@.len(),
            forall|j: int|
                0 <= j < defs@.len() ==> #[trigger] mask@[j] == hashed::hashed_needed(m, a, entry@, j),
            llvm_eval::ll_metas_view(fns@) == ll_fns(m, a, entry@, i as nat),
            def_refs(out@) == ll_defs(m, a, entry@, i as nat),
            hashed::aliases_view(names@) == ll_names(m, a, entry@, i as nat),
            fns@.len() == out@.len(),
        decreases defs@.len() - i,
    {
        assert(m[i as int] == (defs@[i as int].0@, defs@[i as int].1@, defs@[i as int].2@));
        if mask[i] && is_concrete(&defs[i].2) {
            let h = defs[i].0;
            let f = LlMeta {
                hash: h,
                symbol: hashed_symbol_name(&h),
                params: peel_param_types(&defs[i].2.ty),
            };
            let ghost f0 = fns@;
            let ghost o0 = out@;
            let ghost n0 = names@;
            let ghost fv = f@;
            fns.push(f);
            assert(llvm_eval::ll_metas_view(fns@) =~= llvm_eval::ll_metas_view(f0).push(fv));
            out.push(&defs[i].2);
            assert(def_refs(out@) =~= def_refs(o0).push(defs@[i as int].2@));
            let own = defs[i].1.as_str().to_owned();
            let b3 = h.to_b3();
            let ghost ov = own@;
            let ghost bv = b3@;
            names.push((own, h));
            names.push((b3, h));
            assert(hashed::aliases_view(names@) =~= hashed::aliases_view(n0).push((ov, h@)).push((bv, h@)));
        }
        i = i + 1;
    }
    Gathered { fns, defs: out, names }
}

/// Add aliases to a list of names.
pub fn add_aliases(names: &mut Vec<(String, crate::ir::Hash)>, aliases: &[(String, crate::ir::Hash)])
    ensures
        hashed::aliases_view(final(names)@) == hashed::aliases_view(old(names)@) + hashed::aliases_view(aliases@),
{
    let ghost n0 = names@;
    let mut i: usize = 0;
    assert(hashed::aliases_view(names@) =~= hashed::aliases_view(n0) + hashed::aliases_view(aliases@).take(0));
    while i < aliases.len()
        invariant
            i <= aliases@.len(),
            n0 == old(names)@,
            hashed::aliases_view(names@) == hashed::aliases_view(n0) + hashed::aliases_view(aliases@).take(i as int),
        decreases aliases@.len() - i,
    {
        let ghost before = names@;
        let own = aliases[i].0.as_str().to_owned();
        let h = aliases[i].1;
        let ghost ov = own@;
        names.push((own, h));
        assert(hashed::aliases_view(names@) =~= hashed::aliases_view(before).push((ov, h@)));
        assert(hashed::aliases_view(names@) =~= hashed::aliases_view(n0) + hashed::aliases_view(aliases@).take(i + 1));
        i = i + 1;
    }
    assert(hashed::aliases_view(aliases@).take(aliases@.len() as int) =~= hashed::aliases_view(aliases@));
}

/// The names that a build knows, before the aliases.
pub fn hashed_names(
    defs: &[(crate::ir::Hash, String, Def)],
    aliases: &[(String, crate::ir::Hash)],
    entry: &str,
) -> (r: Vec<(String, crate::ir::Hash)>)
    ensures
        hashed::aliases_view(r@) == ll_names(
            hashed::hashed_view(defs@),
            hashed::aliases_view(aliases@),
            entry@,
            defs@.len(),
        ),
{
    let g = gather(defs, aliases, entry);
    g.names
}

/// Compile what `entry` needs of a program whose definitions have hashes.
pub fn compile_hashed_reachable(
    defs: &[(crate::ir::Hash, String, Def)],
    aliases: &[(String, crate::ir::Hash)],
    world: &World,
    opts: &Options,
    entry: &str,
) -> (r: Result<LlvmProgram, LlvmError>)
    ensures
        did_program(
            r,
            program_s(
                world@,
                hashed::hashed_view(defs@),
                hashed::aliases_view(aliases@),
                entry@,
                opts.bounds_checks,
                opts.optimize,
            ),
        ),
{
    let g = gather(defs, aliases, entry);
    let fns = g.fns;
    let mut names = g.names;
    add_aliases(&mut names, aliases);
    let h = match resolve_entry_from_maps(&fns, &names, entry) {
        Ok(v) => v,
        Err(e) => {
            return Err(e);
        },
    };
    match find_called(&fns, &h) {
        Some(i) => {
            assert(llvm_eval::ll_metas_view(fns@)[i as int] == fns@[i as int]@);
            assert(ir::types_view(fns@[i as int].params@).len() == fns@[i as int].params@.len()) by {
                broadcast use ir::lemma_types_view;

            }
            let cx = LlCx { world, fns: &fns, checks: opts.bounds_checks };
            let ir = match module_text(&cx, &g.defs) {
                Ok(v) => v,
                Err(e) => {
                    return Err(e);
                },
            };
            Ok(
                LlvmProgram {
                    ir,
                    entry_symbol: fns[i].symbol.as_str().to_owned(),
                    entry_arity: count_words(world, &fns[i].params),
                    optimize: opts.optimize,
                },
            )
        },
        None => Err(LlvmError::NoSuchEntry(entry.to_owned())),
    }
}

/// The definitions of a module under the hashes of their names.
pub open spec fn by_symbol(path: Seq<char>, m: Seq<(Seq<char>, DefView)>) -> Seq<
    (Seq<u8>, Seq<char>, DefView),
> {
    Seq::new(
        m.len(),
        |i: int| (hash::symbol_id(wasm::under(path, m[i].0)), wasm::under(path, m[i].0), m[i].1),
    )
}

/// The names of a module's definitions, for the hashes of their full names.
pub open spec fn bare_names(path: Seq<char>, m: Seq<(Seq<char>, DefView)>) -> Seq<
    (Seq<char>, Seq<u8>),
> {
    Seq::new(m.len(), |i: int| (m[i].0, hash::symbol_id(wasm::under(path, m[i].0))))
}

/// Compile what `entry` needs of a module.
pub fn compile_reachable(
    path: &str,
    defs: &[(String, Def)],
    world: &World,
    opts: &Options,
    entry: &str,
) -> (r: Result<LlvmProgram, LlvmError>)
    ensures
        did_program(
            r,
            program_s(
                world@,
                by_symbol(path@, reach::defs_view(defs@)),
                bare_names(path@, reach::defs_view(defs@)),
                entry@,
                opts.bounds_checks,
                opts.optimize,
            ),
        ),
{
    let ghost m = reach::defs_view(defs@);
    let mut hashed: Vec<(crate::ir::Hash, String, Def)> = Vec::new();
    let mut aliases: Vec<(String, crate::ir::Hash)> = Vec::new();
    let mut i: usize = 0;
    while i < defs.len()
        invariant
            i <= defs@.len(),
            m == reach::defs_view(defs@),
            hashed@.len() == i,
            aliases@.len() == i,
            forall|k: int|
                0 <= k < i ==> ((#[trigger] hashed@[k]).0@, hashed@[k].1@, hashed@[k].2@)
                    == by_symbol(path@, m)[k],
            forall|k: int|
                0 <= k < i ==> ((#[trigger] aliases@[k]).0@, aliases@[k].1@) == bare_names(
                    path@,
                    m,
                )[k],
        decreases defs@.len() - i,
    {
        let name = name_under(path, defs[i].0.as_str());
        let h = symbol_hash(name.as_str());
        hashed.push((h, name, defs[i].1.clone()));
        aliases.push((defs[i].0.as_str().to_owned(), h));
        i = i + 1;
    }
    assert(hashed::hashed_view(hashed@) =~= by_symbol(path@, m));
    assert(hashed::aliases_view(aliases@) =~= bare_names(path@, m));
    compile_hashed_reachable(hashed.as_slice(), aliases.as_slice(), world, opts, entry)
}

impl LlvmProgram {
    /// How many words the entry takes.
    pub fn entry_arity(&self) -> (r: usize)
        ensures
            r == self.entry_arity,
    {
        self.entry_arity
    }

    /// Whether the entry can be run with that many arguments.
    pub fn check_args(&self, got: usize) -> (r: Result<(), LlvmError>)
        ensures
            match r {
                Ok(_) => got == self.entry_arity,
                Err(e) => got != self.entry_arity && e@ == (LlvmErrorView::ArgCount {
                    expected: self.entry_arity,
                    got,
                }),
            },
    {
        if got == self.entry_arity {
            Ok(())
        } else {
            Err(LlvmError::ArgCount { expected: self.entry_arity, got })
        }
    }
}

// ---- the program around an entry -----------------------------------------------------------------------------------

/// The parameters of the entry, as C declares them.
pub open spec fn c_params(n: nat) -> Seq<Seq<char>> {
    Seq::new(n, |i: int| "int64_t a"@ + text::decimal(((i as usize) as u64) as nat))
}

/// The arguments of the entry, as C passes them.
pub open spec fn c_args(n: nat) -> Seq<Seq<char>> {
    Seq::new(n, |i: int| "argv_i64["@ + text::decimal(((i as usize) as u64) as nat) + "]"@)
}

/// A C program that reads its arguments as integers, calls the entry, and prints
/// the result.
pub open spec fn runtime_text(entry: Seq<char>, arity: usize) -> Seq<char> {
    let params = text::join_view(c_params(arity as nat), ", "@);
    let args = text::join_view(c_args(arity as nat), ", "@);
    ("#include <errno.h>\n#include <stdint.h>\n#include <stdio.h>\n#include <stdlib.h>\n\nextern int64_t "@ + entry + "("@ + params + ");\n\nstatic int parse_i64(const char *s, int64_t *out) {\n    errno = 0;\n    char *end = 0;\n    long long v = strtoll(s, &end, 10);\n    if (errno || !end || *end != 0) return 0;\n    *out = (int64_t)v;\n    return 1;\n}\n\nint main(int argc, char **argv) {\n    if (argc - 1 != "@ + text::decimal(arity as nat) + ") {\n        fprintf(stderr, \"marv: entry expects "@ + text::decimal(arity as nat) + " integer argument(s), got %d\\n\", argc - 1);\n        return 2;\n    }\n    int64_t argv_i64[8] = {0, 0, 0, 0, 0, 0, 0, 0};\n    for (int i = 0; i < argc - 1; i++) {\n        if (i >= 8 || !parse_i64(argv[i + 1], &argv_i64[i])) {\n            fprintf(stderr, \"marv: argument %d `%s` is not an integer\\n\", i, argv[i + 1]);\n            return 2;\n        }\n    }\n    int64_t result = "@ + entry + "("@ + args + ");\n    printf(\"%lld\\n\", (long long)result);\n    return 0;\n}\n"@)
}

fn list_numbered(before: &str, after: &str, n: usize) -> (r: Vec<String>)
    ensures
        text::strings_view(r@) == Seq::new(
            n as nat,
            |i: int| before@ + text::decimal(((i as usize) as u64) as nat) + after@,
        ),
{
    let ghost all = Seq::new(
        n as nat,
        |i: int| before@ + text::decimal(((i as usize) as u64) as nat) + after@,
    );
    let mut out: Vec<String> = Vec::new();
    let mut i: usize = 0;
    while i < n
        invariant
            i <= n,
            all == Seq::new(
                n as nat,
                |i: int| before@ + text::decimal(((i as usize) as u64) as nat) + after@,
            ),
            out@.len() == i,
            forall|k: int| 0 <= k < i ==> #[trigger] out@[k]@ == all[k],
        decreases n - i,
    {
        let mut t = before.to_owned();
        push_decimal(&mut t, i as u64);
        t.append(after);
        out.push(t);
        i = i + 1;
    }
    assert(text::strings_view(out@) =~= all);
    out
}

/// The parameters of the entry, as C declares them.
pub fn c_param_text(arity: usize) -> (r: String)
    ensures
        r@ == text::join_view(c_params(arity as nat), ", "@),
{
    let list = list_numbered("int64_t a", "", arity);
    assert(text::strings_view(list@) =~= c_params(arity as nat)) by {
        reveal_strlit("");
        assert forall|i: int| 0 <= i < arity implies text::strings_view(list@)[i] == #[trigger] c_params(
            arity as nat,
        )[i] by {
            assert(text::strings_view(list@)[i] =~= c_params(arity as nat)[i]);
        }
    }
    join(&list, ", ")
}

/// The arguments of the entry, as C passes them.
pub fn c_arg_text(arity: usize) -> (r: String)
    ensures
        r@ == text::join_view(c_args(arity as nat), ", "@),
{
    let passed = list_numbered("argv_i64[", "]", arity);
    assert(text::strings_view(passed@) =~= c_args(arity as nat));
    join(&passed, ", ")
}

/// The C program around an entry.
pub fn native_runtime_c(program: &LlvmProgram) -> (r: String)
    ensures
        r@ == runtime_text(program.entry_symbol@, program.entry_arity),
{
    let arity = program.entry_arity;
    let params = c_param_text(arity);
    let args = c_arg_text(arity);
    let entry = program.entry_symbol.as_str();
    {
        let mut x = "#include <errno.h>\n#include <stdint.h>\n#include <stdio.h>\n#include <stdlib.h>\n\nextern int64_t ".to_owned();
        x.append(entry);
        x.append("(");
        x.append(params.as_str());
        x.append(");\n\nstatic int parse_i64(const char *s, int64_t *out) {\n    errno = 0;\n    char *end = 0;\n    long long v = strtoll(s, &end, 10);\n    if (errno || !end || *end != 0) return 0;\n    *out = (int64_t)v;\n    return 1;\n}\n\nint main(int argc, char **argv) {\n    if (argc - 1 != ");
        push_decimal(&mut x, arity as u64);
        x.append(") {\n        fprintf(stderr, \"marv: entry expects ");
        push_decimal(&mut x, arity as u64);
        x.append(" integer argument(s), got %d\\n\", argc - 1);\n        return 2;\n    }\n    int64_t argv_i64[8] = {0, 0, 0, 0, 0, 0, 0, 0};\n    for (int i = 0; i < argc - 1; i++) {\n        if (i >= 8 || !parse_i64(argv[i + 1], &argv_i64[i])) {\n            fprintf(stderr, \"marv: argument %d `%s` is not an integer\\n\", i, argv[i + 1]);\n            return 2;\n        }\n    }\n    int64_t result = ");
        x.append(entry);
        x.append("(");
        x.append(args.as_str());
        x.append(");\n    printf(\"%lld\\n\", (long long)result);\n    return 0;\n}\n");
        x
    }
}

} // verus!
