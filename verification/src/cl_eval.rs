//! Steps of the native backend for the terms that have no terms inside.
use vstd::prelude::*;
use vstd::string::*;

use crate::cl_code;
use crate::cl_code::{Binary, ClSt, CodegenError, CodegenErrorView, Reg, RegValue, Relation, Step, StepBuilder, StepView, WithImm, cl_refuse, field_offset};
use crate::find;
use crate::ir;
use crate::ir::{Atom, AtomView, IntTy, Literal, LiteralView, PrimOp, Type, TypeView};
use crate::text::push_decimal;
use crate::wasm_eval;
use crate::wasm_trans;
use crate::wasm_trans::truth_of;
use crate::world::{World, WorldView};

verus! {

// ---- the program around a function -----------------------------------------------------------------

/// A function of the program: the hash it is called by and the types of its
/// parameters.
#[derive(Debug, PartialEq, Eq)]
pub struct ClMeta {
    pub hash: crate::ir::Hash,
    pub params: Vec<Type>,
}

/// The mathematical counterpart of [`ClMeta`].
#[verifier::ext_equal]
pub struct ClMetaView {
    pub hash: Seq<u8>,
    pub params: Seq<TypeView>,
}

impl View for ClMeta {
    type V = ClMetaView;

    open spec fn view(&self) -> ClMetaView {
        ClMetaView { hash: self.hash@, params: ir::types_view(self.params@) }
    }
}

pub open spec fn cl_metas_view(v: Seq<ClMeta>) -> Seq<ClMetaView> {
    Seq::new(v.len(), |i: int| v[i]@)
}

/// The program that a function is part of.
pub struct ClCx<'a> {
    pub world: &'a World,
    pub fns: &'a Vec<ClMeta>,
    pub checks: bool,
}

/// The mathematical counterpart of [`ClCx`].
pub struct ClCxView {
    pub world: WorldView,
    pub fns: Seq<ClMetaView>,
    pub checks: bool,
}

impl<'a> View for ClCx<'a> {
    type V = ClCxView;

    open spec fn view(&self) -> ClCxView {
        ClCxView { world: self.world@, fns: cl_metas_view(self.fns@), checks: self.checks }
    }
}

pub open spec fn is_meta(fns: Seq<ClMetaView>, h: Seq<u8>) -> spec_fn(int) -> bool {
    |i: int| fns[i].hash == h
}

/// The position of the function of that hash; the last one counts.
pub open spec fn meta_pos(fns: Seq<ClMetaView>, h: Seq<u8>) -> Option<int> {
    find::last_below(is_meta(fns, h), fns.len() as int)
}

/// The position of the function of that hash.
pub fn find_meta(fns: &Vec<ClMeta>, h: &crate::ir::Hash) -> (r: Option<usize>)
    ensures
        match meta_pos(cl_metas_view(fns@), h@) {
            Some(i) => r is Some && r->0 == i && 0 <= i < fns@.len(),
            None => r is None,
        },
{
    let ghost p = is_meta(cl_metas_view(fns@), h@);
    let mut i: usize = fns.len();
    while i > 0
        invariant
            i <= fns@.len(),
            p == is_meta(cl_metas_view(fns@), h@),
            find::last_below(p, fns@.len() as int) == find::last_below(p, i as int),
        decreases i,
    {
        let hit = fns[i - 1].hash.same(h);
        assert(hit == p(i - 1));
        if hit {
            return Some(i - 1);
        }
        i = i - 1;
    }
    None
}

// ---- atoms -----------------------------------------------------------------------------------------------

/// The value of an atom.
pub open spec fn reg_atom_s(cx: ClCxView, a: AtomView, s: ClSt) -> Result<
    (RegValue, ClSt),
    CodegenErrorView,
> {
    match a {
        AtomView::Lit(LiteralView::Unit) => Ok((RegValue::Unit, s)),
        AtomView::Lit(LiteralView::Bool(b)) => {
            let (v, s1) = cl_code::gain(s, StepView::Const(wasm_trans::truth(b)));
            Ok((RegValue::Val(v), s1))
        },
        AtomView::Lit(LiteralView::Int(n)) => {
            let (v, s1) = cl_code::gain(s, StepView::Const(n));
            Ok((RegValue::Val(v), s1))
        },
        AtomView::Lit(LiteralView::Char(c)) => {
            let (v, s1) = cl_code::gain(s, StepView::Const(wasm_trans::code_point(c)));
            Ok((RegValue::Val(v), s1))
        },
        AtomView::Lit(LiteralView::Float(_)) => Err(cl_code::cl_refused("float literal"@)),
        AtomView::Lit(LiteralView::Str(_)) => Err(cl_code::cl_refused("string literal"@)),
        AtomView::Var(i) => if i < s.env.len() {
            Ok((s.env[s.env.len() - 1 - i], s))
        } else {
            Err(cl_code::cl_refused(wasm_trans::scope_text(i, s.env.len())))
        },
        AtomView::Global(h) => if meta_pos(cx.fns, h) is Some {
            Ok((RegValue::Partial { func: h, got: Seq::empty() }, s))
        } else {
            Err(CodegenErrorView::UnknownGlobal(h))
        },
    }
}

/// The values of the first `n` atoms.
pub open spec fn reg_atoms_s(cx: ClCxView, v: Seq<AtomView>, n: nat, s: ClSt) -> Result<
    (Seq<RegValue>, ClSt),
    CodegenErrorView,
>
    decreases n,
{
    if n == 0 {
        Ok((Seq::empty(), s))
    } else {
        match reg_atoms_s(cx, v, (n - 1) as nat, s) {
            Ok((out, s1)) => match reg_atom_s(cx, v[n - 1], s1) {
                Ok((x, s2)) => Ok((out.push(x), s2)),
                Err(e) => Err(e),
            },
            Err(e) => Err(e),
        }
    }
}

/// The word of an atom.
#[verifier::opaque]
pub open spec fn atom_word_s(cx: ClCxView, a: AtomView, s: ClSt) -> Result<
    (u32, ClSt),
    CodegenErrorView,
> {
    match reg_atom_s(cx, a, s) {
        Ok((x, s1)) => cl_code::reg_word_s(x, s1),
        Err(e) => Err(e),
    }
}

/// The words of the first `n` atoms.
pub open spec fn atom_words_s(cx: ClCxView, v: Seq<AtomView>, n: nat, s: ClSt) -> Result<
    (Seq<u32>, ClSt),
    CodegenErrorView,
>
    decreases n,
{
    if n == 0 {
        Ok((Seq::empty(), s))
    } else {
        match atom_words_s(cx, v, (n - 1) as nat, s) {
            Ok((out, s1)) => match atom_word_s(cx, v[n - 1], s1) {
                Ok((w, s2)) => Ok((out.push(w), s2)),
                Err(e) => Err(e),
            },
            Err(e) => Err(e),
        }
    }
}

proof fn lemma_reg_atoms_fail(cx: ClCxView, v: Seq<AtomView>, i: nat, n: nat, s: ClSt)
    requires
        i <= n,
        reg_atoms_s(cx, v, i, s) is Err,
    ensures
        reg_atoms_s(cx, v, n, s) == reg_atoms_s(cx, v, i, s),
    decreases n - i,
{
    if i < n {
        assert(reg_atoms_s(cx, v, i + 1, s) == reg_atoms_s(cx, v, i, s));
        lemma_reg_atoms_fail(cx, v, i + 1, n, s);
    }
}

proof fn lemma_atom_words_fail(cx: ClCxView, v: Seq<AtomView>, i: nat, n: nat, s: ClSt)
    requires
        i <= n,
        atom_words_s(cx, v, i, s) is Err,
    ensures
        atom_words_s(cx, v, n, s) == atom_words_s(cx, v, i, s),
    decreases n - i,
{
    if i < n {
        assert(atom_words_s(cx, v, i + 1, s) == atom_words_s(cx, v, i, s));
        lemma_atom_words_fail(cx, v, i + 1, n, s);
    }
}

impl StepBuilder {
    pub fn eval_atom(&mut self, cx: &ClCx, a: &Atom) -> (r: Result<Reg, CodegenError>)
        ensures
            cl_code::did_reg(r, *final(self), reg_atom_s(cx@, a@, old(self)@)),
    {
        broadcast use cl_code::lemma_regs_view;

        match a {
            Atom::Lit(Literal::Unit) => Ok(Reg::Unit),
            Atom::Lit(Literal::Bool(b)) => Ok(Reg::Val(self.value(Step::Const(truth_of(*b))))),
            Atom::Lit(Literal::Int(n)) => Ok(Reg::Val(self.value(Step::Const(*n)))),
            Atom::Lit(Literal::Char(c)) => Ok(
                Reg::Val(self.value(Step::Const(*c as u32 as i64))),
            ),
            Atom::Lit(Literal::Float(_)) => Err(cl_refuse("float literal")),
            Atom::Lit(Literal::Str(_)) => Err(cl_refuse("string literal")),
            Atom::Var(i) => {
                let d = self.env.len();
                if (*i as usize) < d {
                    assert(self@.env[d - 1 - *i] == self.env@[d - 1 - *i]@);
                    Ok(self.env[d - 1 - *i as usize].clone())
                } else {
                    let mut s = "de Bruijn index ".to_owned();
                    push_decimal(&mut s, *i as u64);
                    s.append(" out of scope at depth ");
                    push_decimal(&mut s, d as u64);
                    Err(CodegenError::Unsupported(s))
                }
            },
            Atom::Global(h) => {
                if find_meta(cx.fns, h).is_some() {
                    let got: Vec<Reg> = Vec::new();
                    assert(cl_code::regs_view(got@) =~= Seq::empty());
                    Ok(Reg::Partial { func: *h, got })
                } else {
                    Err(CodegenError::UnknownGlobal(*h))
                }
            },
        }
    }

    pub fn eval_atoms(&mut self, cx: &ClCx, v: &Vec<Atom>) -> (r: Result<Vec<Reg>, CodegenError>)
        ensures
            match reg_atoms_s(cx@, ir::atoms_view(v@), v@.len(), old(self)@) {
                Ok((x, s)) => r is Ok && cl_code::regs_view(r->Ok_0@) == x && final(self)@ == s,
                Err(e) => r is Err && r->Err_0@ == e,
            },
    {
        broadcast use cl_code::lemma_regs_view;

        let ghost c = cx@;
        let ghost s0 = self@;
        let ghost av = ir::atoms_view(v@);
        let mut out: Vec<Reg> = Vec::new();
        let mut i: usize = 0;
        assert(cl_code::regs_view(out@) =~= Seq::empty());
        while i < v.len()
            invariant
                i <= v@.len(),
                c == cx@,
                s0 == old(self)@,
                av == ir::atoms_view(v@),
                reg_atoms_s(c, av, i as nat, s0) == Ok::<(Seq<RegValue>, ClSt), CodegenErrorView>(
                    (cl_code::regs_view(out@), self@),
                ),
            decreases v@.len() - i,
        {
            assert(av[i as int] == v@[i as int]@);
            match self.eval_atom(cx, &v[i]) {
                Ok(x) => {
                    let ghost before = out@;
                    let ghost xv = x@;
                    out.push(x);
                    assert(cl_code::regs_view(out@) =~= cl_code::regs_view(before).push(xv));
                },
                Err(e) => {
                    proof {
                        lemma_reg_atoms_fail(c, av, (i + 1) as nat, v@.len(), s0);
                    }
                    return Err(e);
                },
            }
            i = i + 1;
        }
        Ok(out)
    }

    pub fn word(&mut self, cx: &ClCx, a: &Atom) -> (r: Result<u32, CodegenError>)
        ensures
            cl_code::did_reg_word(r, *final(self), atom_word_s(cx@, a@, old(self)@)),
    {
        reveal(atom_word_s);
        let x = match self.eval_atom(cx, a) {
            Ok(v) => v,
            Err(e) => {
                return Err(e);
            },
        };
        self.as_word(&x)
    }

    pub fn words(&mut self, cx: &ClCx, v: &Vec<Atom>) -> (r: Result<Vec<u32>, CodegenError>)
        ensures
            match atom_words_s(cx@, ir::atoms_view(v@), v@.len(), old(self)@) {
                Ok((x, s)) => r is Ok && r->Ok_0@ == x && final(self)@ == s && x.len() == v@.len(),
                Err(e) => r is Err && r->Err_0@ == e,
            },
    {
        let ghost c = cx@;
        let ghost s0 = self@;
        let ghost av = ir::atoms_view(v@);
        let mut out: Vec<u32> = Vec::new();
        let mut i: usize = 0;
        assert(out@ =~= Seq::empty());
        while i < v.len()
            invariant
                i <= v@.len(),
                out@.len() == i,
                c == cx@,
                s0 == old(self)@,
                av == ir::atoms_view(v@),
                atom_words_s(c, av, i as nat, s0) == Ok::<(Seq<u32>, ClSt), CodegenErrorView>(
                    (out@, self@),
                ),
            decreases v@.len() - i,
        {
            assert(av[i as int] == v@[i as int]@);
            match self.word(cx, &v[i]) {
                Ok(x) => {
                    out.push(x);
                },
                Err(e) => {
                    proof {
                        lemma_atom_words_fail(c, av, (i + 1) as nat, v@.len(), s0);
                    }
                    return Err(e);
                },
            }
            i = i + 1;
        }
        Ok(out)
    }
}

// ---- calls -----------------------------------------------------------------------------------------------------

/// The words of the first `n` arguments; a parameter of unit type has none.
pub open spec fn call_words_s(got: Seq<RegValue>, params: Seq<TypeView>, n: nat, s: ClSt) -> Result<
    (Seq<u32>, ClSt),
    CodegenErrorView,
>
    decreases n,
{
    if n == 0 {
        Ok((Seq::empty(), s))
    } else {
        match call_words_s(got, params, (n - 1) as nat, s) {
            Ok((out, s1)) => if params[n - 1] == TypeView::Unit {
                Ok((out, s1))
            } else {
                match cl_code::reg_word_s(got[n - 1], s1) {
                    Ok((v, s2)) => Ok((out.push(v), s2)),
                    Err(e) => Err(e),
                }
            },
            Err(e) => Err(e),
        }
    }
}

/// An application: a call once the function has all of its arguments.
pub open spec fn reg_apply_s(cx: ClCxView, f: RegValue, arg: RegValue, s: ClSt) -> Result<
    (RegValue, ClSt),
    CodegenErrorView,
> {
    match f {
        RegValue::Partial { func, got } => {
            let all = got.push(arg);
            match meta_pos(cx.fns, func) {
                Some(i) => {
                    let params = cx.fns[i].params;
                    if all.len() < params.len() {
                        Ok((RegValue::Partial { func, got: all }, s))
                    } else {
                        match call_words_s(all, params, wasm_eval::both_len(all.len(), params.len()), s) {
                            Ok((v, s1)) => {
                                let (t, s2) = cl_code::gain(s1, StepView::Call(i as usize, v));
                                Ok((RegValue::Val(t), s2))
                            },
                            Err(e) => Err(e),
                        }
                    }
                },
                None => Err(CodegenErrorView::UnknownGlobal(func)),
            }
        },
        _ => Err(cl_code::cl_refused("application of a non-function"@)),
    }
}

/// An application of atoms.
#[verifier::opaque]
pub open spec fn reg_app_s(cx: ClCxView, func: AtomView, arg: AtomView, s: ClSt) -> Result<
    (RegValue, ClSt),
    CodegenErrorView,
> {
    match reg_atom_s(cx, func, s) {
        Ok((f, s1)) => match reg_atom_s(cx, arg, s1) {
            Ok((a, s2)) => reg_apply_s(cx, f, a, s2),
            Err(e) => Err(e),
        },
        Err(e) => Err(e),
    }
}

proof fn lemma_call_fail(got: Seq<RegValue>, params: Seq<TypeView>, i: nat, n: nat, s: ClSt)
    requires
        i <= n,
        call_words_s(got, params, i, s) is Err,
    ensures
        call_words_s(got, params, n, s) == call_words_s(got, params, i, s),
    decreases n - i,
{
    if i < n {
        assert(call_words_s(got, params, i + 1, s) == call_words_s(got, params, i, s));
        lemma_call_fail(got, params, i + 1, n, s);
    }
}

impl StepBuilder {
    fn call_words(&mut self, got: &Vec<Reg>, params: &Vec<Type>) -> (r: Result<Vec<u32>, CodegenError>)
        ensures
            match call_words_s(
                cl_code::regs_view(got@),
                ir::types_view(params@),
                wasm_eval::both_len(got@.len(), params@.len()),
                old(self)@,
            ) {
                Ok((x, s)) => r is Ok && r->Ok_0@ == x && final(self)@ == s,
                Err(e) => r is Err && r->Err_0@ == e,
            },
    {
        broadcast use cl_code::lemma_regs_view;
        broadcast use ir::lemma_types_view;

        let ghost s0 = self@;
        let ghost gv = cl_code::regs_view(got@);
        let ghost pv = ir::types_view(params@);
        let ghost n = wasm_eval::both_len(got@.len(), params@.len());
        let mut out: Vec<u32> = Vec::new();
        let mut i: usize = 0;
        assert(out@ =~= Seq::empty());
        while i < got.len() && i < params.len()
            invariant
                i <= n,
                n == wasm_eval::both_len(got@.len(), params@.len()),
                s0 == old(self)@,
                gv == cl_code::regs_view(got@),
                pv == ir::types_view(params@),
                call_words_s(gv, pv, i as nat, s0) == Ok::<(Seq<u32>, ClSt), CodegenErrorView>(
                    (out@, self@),
                ),
            decreases n - i,
        {
            assert(gv[i as int] == got@[i as int]@);
            assert(pv[i as int] == params@[i as int]@);
            match &params[i] {
                Type::Unit => {},
                _ => match self.as_word(&got[i]) {
                    Ok(v) => {
                        out.push(v);
                    },
                    Err(e) => {
                        proof {
                            lemma_call_fail(gv, pv, (i + 1) as nat, n, s0);
                        }
                        return Err(e);
                    },
                },
            }
            i = i + 1;
        }
        Ok(out)
    }

    fn apply(&mut self, cx: &ClCx, f: Reg, arg: Reg) -> (r: Result<Reg, CodegenError>)
        ensures
            cl_code::did_reg(r, *final(self), reg_apply_s(cx@, f@, arg@, old(self)@)),
    {
        broadcast use cl_code::lemma_regs_view;
        broadcast use ir::lemma_types_view;

        match f {
            Reg::Partial { func, got } => {
                let mut all = got;
                let ghost before = all@;
                let ghost xv = arg@;
                all.push(arg);
                assert(cl_code::regs_view(all@) =~= cl_code::regs_view(before).push(xv));
                match find_meta(cx.fns, &func) {
                    Some(i) => {
                        assert(cx@.fns[i as int] == cx.fns@[i as int]@);
                        let params = &cx.fns[i].params;
                        if all.len() < params.len() {
                            return Ok(Reg::Partial { func, got: all });
                        }
                        let v = match self.call_words(&all, params) {
                            Ok(v) => v,
                            Err(e) => {
                                return Err(e);
                            },
                        };
                        Ok(Reg::Val(self.value(Step::Call(i, v))))
                    },
                    None => Err(CodegenError::UnknownGlobal(func)),
                }
            },
            _ => Err(cl_refuse("application of a non-function")),
        }
    }

    pub fn eval_app(&mut self, cx: &ClCx, func: &Atom, arg: &Atom) -> (r: Result<Reg, CodegenError>)
        ensures
            cl_code::did_reg(r, *final(self), reg_app_s(cx@, func@, arg@, old(self)@)),
    {
        reveal(reg_app_s);
        let f = match self.eval_atom(cx, func) {
            Ok(v) => v,
            Err(e) => {
                return Err(e);
            },
        };
        let a = match self.eval_atom(cx, arg) {
            Ok(v) => v,
            Err(e) => {
                return Err(e);
            },
        };
        self.apply(cx, f, a)
    }
}

// ---- operations -------------------------------------------------------------------------------------------------

/// A comparison, as a word.
pub open spec fn relate_s(r: Relation, a: u32, b: u32, s: ClSt) -> (u32, ClSt) {
    let (c, s1) = cl_code::gain(s, StepView::Compare(r, a, b));
    cl_code::gain(s1, StepView::Widen(c))
}

/// A position tested, if that is asked for: outside the length the program ends
/// with a report.
pub open spec fn check_s(checks: bool, ptr: u32, i: u32, s: ClSt) -> ClSt {
    if checks {
        let (len, s1) = cl_code::gain(s, StepView::Load(ptr, 0));
        let (ok, s2) = cl_code::gain(s1, StepView::Compare(Relation::UnsignedLess, i, len));
        let (pass, s3) = cl_code::fork(s2);
        let (fail, s4) = cl_code::fork(s3);
        let s5 = cl_code::at_sealed(cl_code::act(s4, StepView::Branch(ok, pass, fail, Seq::empty())), fail);
        cl_code::at_sealed(cl_code::act(cl_code::act(s5, StepView::BoundsFail(i, len)), StepView::Trap), pass)
    } else {
        s
    }
}

/// The address of element `i` of a block with one word before the elements.
pub open spec fn element_s(ptr: u32, i: u32, s: ClSt) -> (u32, ClSt) {
    let (plus, s1) = cl_code::gain(s, StepView::WithImm(WithImm::Add, i, 1));
    let (off, s2) = cl_code::gain(s1, StepView::WithImm(WithImm::Mul, plus, 8));
    cl_code::gain(s2, StepView::Binary(Binary::Add, ptr, off))
}

/// How an operation on two words is built.
pub open spec fn binary_of(op: PrimOp) -> Option<Binary> {
    match op {
        PrimOp::Add => Some(Binary::Add),
        PrimOp::Sub => Some(Binary::Sub),
        PrimOp::Mul => Some(Binary::Mul),
        PrimOp::Div => Some(Binary::Div),
        PrimOp::Rem => Some(Binary::Rem),
        PrimOp::And => Some(Binary::And),
        PrimOp::Or => Some(Binary::Or),
        _ => None,
    }
}

/// How a comparison is built.
pub open spec fn relation_of(op: PrimOp) -> Option<Relation> {
    match op {
        PrimOp::Eq => Some(Relation::Equal),
        PrimOp::Ne => Some(Relation::NotEqual),
        PrimOp::Lt => Some(Relation::SignedLess),
        PrimOp::Le => Some(Relation::SignedLessOrEqual),
        PrimOp::Gt => Some(Relation::SignedGreater),
        PrimOp::Ge => Some(Relation::SignedGreaterOrEqual),
        _ => None,
    }
}

/// An operation on words.
pub open spec fn word_op_s(checks: bool, op: PrimOp, v: Seq<u32>, s: ClSt) -> Result<
    (u32, ClSt),
    CodegenErrorView,
> {
    match op {
        PrimOp::Slice | PrimOp::FromChars => Err(cl_code::cl_refused("string slice/from_chars"@)),
        PrimOp::Not | PrimOp::Neg | PrimOp::Len => if v.len() < 1 {
            Err(cl_code::cl_refused("a primitive without its operands"@))
        } else {
            match op {
                PrimOp::Not => Ok(cl_code::gain(s, StepView::WithImm(WithImm::Xor, v[0], 1))),
                PrimOp::Neg => Ok(cl_code::gain(s, StepView::Negate(v[0]))),
                _ => Ok(cl_code::gain(s, StepView::Load(v[0], 0))),
            }
        },
        _ => if v.len() < 2 {
            Err(cl_code::cl_refused("a primitive without its operands"@))
        } else {
            match binary_of(op) {
                Some(b) => Ok(cl_code::gain(s, StepView::Binary(b, v[0], v[1]))),
                None => match relation_of(op) {
                    Some(r) => Ok(relate_s(r, v[0], v[1], s)),
                    None => {
                        let (addr, s1) = element_s(v[0], v[1], check_s(checks, v[0], v[1], s));
                        Ok(cl_code::gain(s1, StepView::Load(addr, 0)))
                    },
                },
            }
        },
    }
}

/// A primitive operation.
#[verifier::opaque]
pub open spec fn reg_prim_s(cx: ClCxView, op: PrimOp, args: Seq<AtomView>, s: ClSt) -> Result<
    (RegValue, ClSt),
    CodegenErrorView,
> {
    match atom_words_s(cx, args, args.len(), s) {
        Ok((v, s1)) => match word_op_s(cx.checks, op, v, s1) {
            Ok((t, s2)) => Ok((RegValue::Val(t), s2)),
            Err(e) => Err(e),
        },
        Err(e) => Err(e),
    }
}

/// A word cut to a width and extended again.
pub open spec fn cut_s(v: u32, shift: i64, signed: bool, s: ClSt) -> (u32, ClSt) {
    let (up, s1) = cl_code::gain(s, StepView::WithImm(WithImm::Shl, v, shift));
    if signed {
        cl_code::gain(s1, StepView::WithImm(WithImm::ShrSigned, up, shift))
    } else {
        cl_code::gain(s1, StepView::WithImm(WithImm::ShrUnsigned, up, shift))
    }
}

/// A cast.
#[verifier::opaque]
pub open spec fn reg_cast_s(cx: ClCxView, value: AtomView, to: TypeView, s: ClSt) -> Result<
    (RegValue, ClSt),
    CodegenErrorView,
> {
    match atom_word_s(cx, value, s) {
        Ok((v, s1)) => match to {
            TypeView::Int(i) => {
                let (t, s2) = match i {
                    IntTy::I8 => cut_s(v, 56, true, s1),
                    IntTy::I16 => cut_s(v, 48, true, s1),
                    IntTy::I32 => cut_s(v, 32, true, s1),
                    IntTy::U8 => cut_s(v, 56, false, s1),
                    IntTy::U16 => cut_s(v, 48, false, s1),
                    IntTy::U32 => cut_s(v, 32, false, s1),
                    IntTy::I64 | IntTy::Isize | IntTy::U64 | IntTy::Usize => (v, s1),
                };
                Ok((RegValue::Val(t), s2))
            },
            TypeView::Char => Ok((RegValue::Val(v), s1)),
            TypeView::Bool => {
                let (zero, s2) = cl_code::gain(s1, StepView::Const(0));
                let (t, s3) = relate_s(Relation::NotEqual, v, zero, s2);
                Ok((RegValue::Val(t), s3))
            },
            TypeView::Float(_) => Err(cl_code::cl_refused("float cast (the backend is integer-only)"@)),
            _ => Err(cl_code::cl_refused("cast to a non-scalar type"@)),
        },
        Err(e) => Err(e),
    }
}

/// A field: of an aggregate it is chosen, of a block it is loaded.
#[verifier::opaque]
pub open spec fn reg_proj_s(cx: ClCxView, base: AtomView, idx: u32, s: ClSt) -> Result<
    (RegValue, ClSt),
    CodegenErrorView,
> {
    match reg_atom_s(cx, base, s) {
        Ok((RegValue::Tuple { tag, fields }, s1)) => if idx < fields.len() {
            Ok((fields[idx as int], s1))
        } else {
            Err(cl_code::cl_refused("projection out of range"@))
        },
        Ok((RegValue::Val(ptr), s1)) => {
            let (v, s2) = cl_code::gain(s1, StepView::Load(ptr, cl_code::field_at_offset(idx as nat)));
            Ok((RegValue::Val(v), s2))
        },
        Ok(_) => Err(cl_code::cl_refused("projection of a non-aggregate"@)),
        Err(e) => Err(e),
    }
}

/// Words copied from block to block, in a loop.
pub open spec fn copy_loop_s(src: u32, dst: u32, total: u32, s: ClSt) -> ClSt {
    let (header, s1) = cl_code::fork(s);
    let (body, s2) = cl_code::fork(s1);
    let (exit, s3) = cl_code::fork(s2);
    let (k, s4) = cl_code::gain(s3, StepView::Param(header));
    let (zero, s5) = cl_code::gain(s4, StepView::Const(0));
    let s6 = cl_code::act(cl_code::act(s5, StepView::Jump(header, seq![zero])), StepView::Switch(header));
    let (more, s7) = cl_code::gain(s6, StepView::Compare(Relation::UnsignedLess, k, total));
    let s8 = cl_code::at_sealed(cl_code::act(s7, StepView::Branch(more, body, exit, Seq::empty())), body);
    let (off, s9) = cl_code::gain(s8, StepView::WithImm(WithImm::Mul, k, 8));
    let (from, s10) = cl_code::gain(s9, StepView::Binary(Binary::Add, src, off));
    let (w, s11) = cl_code::gain(s10, StepView::Load(from, 0));
    let (to, s12) = cl_code::gain(s11, StepView::Binary(Binary::Add, dst, off));
    let (next, s13) = cl_code::gain(
        cl_code::act(s12, StepView::Store(w, to, 0)),
        StepView::WithImm(WithImm::Add, k, 1),
    );
    cl_code::at_sealed(
        cl_code::act(cl_code::act(s13, StepView::Jump(header, seq![next])), StepView::Seal(header)),
        exit,
    )
}

/// A sequence with one element replaced: a copy.
#[verifier::opaque]
pub open spec fn reg_index_set_s(
    cx: ClCxView,
    base: AtomView,
    index: AtomView,
    value: AtomView,
    s: ClSt,
) -> Result<(RegValue, ClSt), CodegenErrorView> {
    match atom_word_s(cx, base, s) {
        Ok((ptr, s1)) => match atom_word_s(cx, index, s1) {
            Ok((i, s2)) => match atom_word_s(cx, value, s2) {
                Ok((v, s3)) => {
                    let (len, s4) = cl_code::gain(check_s(cx.checks, ptr, i, s3), StepView::Load(ptr, 0));
                    let (total, s5) = cl_code::gain(s4, StepView::WithImm(WithImm::Add, len, 1));
                    let (new, s6) = cl_code::gain(s5, StepView::Alloc(total));
                    let (addr, s7) = element_s(new, i, copy_loop_s(ptr, new, total, s6));
                    Ok((RegValue::Val(new), cl_code::act(s7, StepView::Store(v, addr, 0))))
                },
                Err(e) => Err(e),
            },
            Err(e) => Err(e),
        },
        Err(e) => Err(e),
    }
}

impl StepBuilder {
    pub fn relate(&mut self, r: Relation, a: u32, b: u32) -> (v: u32)
        ensures
            (v, final(self)@) == relate_s(r, a, b, old(self)@),
    {
        let c = self.value(Step::Compare(r, a, b));
        self.value(Step::Widen(c))
    }

    fn check(&mut self, checks: bool, ptr: u32, i: u32)
        ensures
            final(self)@ == check_s(checks, ptr, i, old(self)@),
    {
        if checks {
            let len = self.value(Step::Load(ptr, 0));
            let ok = self.value(Step::Compare(Relation::UnsignedLess, i, len));
            let pass = self.block();
            let fail = self.block();
            let none: Vec<u32> = Vec::new();
            assert(none@ =~= Seq::empty());
            self.emit(Step::Branch(ok, pass, fail, none));
            self.go_sealed(fail);
            self.emit(Step::BoundsFail(i, len));
            self.emit(Step::Trap);
            self.go_sealed(pass);
        }
    }

    fn element(&mut self, ptr: u32, i: u32) -> (r: u32)
        ensures
            (r, final(self)@) == element_s(ptr, i, old(self)@),
    {
        let plus = self.value(Step::WithImm(WithImm::Add, i, 1));
        let off = self.value(Step::WithImm(WithImm::Mul, plus, 8));
        self.value(Step::Binary(Binary::Add, ptr, off))
    }

    fn word_op(&mut self, checks: bool, op: PrimOp, v: &Vec<u32>) -> (r: Result<u32, CodegenError>)
        ensures
            cl_code::did_reg_word(r, *final(self), word_op_s(checks, op, v@, old(self)@)),
    {
        match op {
            PrimOp::Slice | PrimOp::FromChars => Err(cl_refuse("string slice/from_chars")),
            PrimOp::Not | PrimOp::Neg | PrimOp::Len => {
                if v.len() < 1 {
                    return Err(cl_refuse("a primitive without its operands"));
                }
                match op {
                    PrimOp::Not => Ok(self.value(Step::WithImm(WithImm::Xor, v[0], 1))),
                    PrimOp::Neg => Ok(self.value(Step::Negate(v[0]))),
                    _ => Ok(self.value(Step::Load(v[0], 0))),
                }
            },
            _ => {
                if v.len() < 2 {
                    return Err(cl_refuse("a primitive without its operands"));
                }
                let a = v[0];
                let b = v[1];
                match op {
                    PrimOp::Add => Ok(self.value(Step::Binary(Binary::Add, a, b))),
                    PrimOp::Sub => Ok(self.value(Step::Binary(Binary::Sub, a, b))),
                    PrimOp::Mul => Ok(self.value(Step::Binary(Binary::Mul, a, b))),
                    PrimOp::Div => Ok(self.value(Step::Binary(Binary::Div, a, b))),
                    PrimOp::Rem => Ok(self.value(Step::Binary(Binary::Rem, a, b))),
                    PrimOp::And => Ok(self.value(Step::Binary(Binary::And, a, b))),
                    PrimOp::Or => Ok(self.value(Step::Binary(Binary::Or, a, b))),
                    PrimOp::Eq => Ok(self.relate(Relation::Equal, a, b)),
                    PrimOp::Ne => Ok(self.relate(Relation::NotEqual, a, b)),
                    PrimOp::Lt => Ok(self.relate(Relation::SignedLess, a, b)),
                    PrimOp::Le => Ok(self.relate(Relation::SignedLessOrEqual, a, b)),
                    PrimOp::Gt => Ok(self.relate(Relation::SignedGreater, a, b)),
                    PrimOp::Ge => Ok(self.relate(Relation::SignedGreaterOrEqual, a, b)),
                    _ => {
                        self.check(checks, a, b);
                        let addr = self.element(a, b);
                        Ok(self.value(Step::Load(addr, 0)))
                    },
                }
            },
        }
    }

    pub fn eval_prim(&mut self, cx: &ClCx, op: PrimOp, args: &Vec<Atom>) -> (r: Result<
        Reg,
        CodegenError,
    >)
        ensures
            cl_code::did_reg(r, *final(self), reg_prim_s(cx@, op, ir::atoms_view(args@), old(self)@)),
    {
        reveal(reg_prim_s);
        let v = match self.words(cx, args) {
            Ok(v) => v,
            Err(e) => {
                return Err(e);
            },
        };
        let t = match self.word_op(cx.checks, op, &v) {
            Ok(v) => v,
            Err(e) => {
                return Err(e);
            },
        };
        Ok(Reg::Val(t))
    }

    fn cut(&mut self, v: u32, shift: i64, signed: bool) -> (r: u32)
        ensures
            (r, final(self)@) == cut_s(v, shift, signed, old(self)@),
    {
        let up = self.value(Step::WithImm(WithImm::Shl, v, shift));
        if signed {
            self.value(Step::WithImm(WithImm::ShrSigned, up, shift))
        } else {
            self.value(Step::WithImm(WithImm::ShrUnsigned, up, shift))
        }
    }

    pub fn eval_cast(&mut self, cx: &ClCx, value: &Atom, to: &Type) -> (r: Result<Reg, CodegenError>)
        ensures
            cl_code::did_reg(r, *final(self), reg_cast_s(cx@, value@, to@, old(self)@)),
    {
        reveal(reg_cast_s);
        let v = match self.word(cx, value) {
            Ok(v) => v,
            Err(e) => {
                return Err(e);
            },
        };
        match to {
            Type::Int(i) => {
                let t = match i {
                    IntTy::I8 => self.cut(v, 56, true),
                    IntTy::I16 => self.cut(v, 48, true),
                    IntTy::I32 => self.cut(v, 32, true),
                    IntTy::U8 => self.cut(v, 56, false),
                    IntTy::U16 => self.cut(v, 48, false),
                    IntTy::U32 => self.cut(v, 32, false),
                    IntTy::I64 | IntTy::Isize | IntTy::U64 | IntTy::Usize => v,
                };
                Ok(Reg::Val(t))
            },
            Type::Char => Ok(Reg::Val(v)),
            Type::Bool => {
                let zero = self.value(Step::Const(0));
                Ok(Reg::Val(self.relate(Relation::NotEqual, v, zero)))
            },
            Type::Float(_) => Err(cl_refuse("float cast (the backend is integer-only)")),
            _ => Err(cl_refuse("cast to a non-scalar type")),
        }
    }

    pub fn eval_proj(&mut self, cx: &ClCx, base: &Atom, idx: u32) -> (r: Result<Reg, CodegenError>)
        ensures
            cl_code::did_reg(r, *final(self), reg_proj_s(cx@, base@, idx, old(self)@)),
    {
        broadcast use cl_code::lemma_regs_view;
        reveal(reg_proj_s);

        let x = match self.eval_atom(cx, base) {
            Ok(v) => v,
            Err(e) => {
                return Err(e);
            },
        };
        match &x {
            Reg::Tuple { tag: _, fields } => {
                if (idx as usize) < fields.len() {
                    assert(cl_code::regs_view(fields@)[idx as int] == fields@[idx as int]@);
                    Ok(fields[idx as usize].clone())
                } else {
                    Err(cl_refuse("projection out of range"))
                }
            },
            Reg::Val(ptr) => Ok(
                Reg::Val(self.value(Step::Load(*ptr, field_offset(idx as usize)))),
            ),
            _ => Err(cl_refuse("projection of a non-aggregate")),
        }
    }

    fn copy_loop(&mut self, src: u32, dst: u32, total: u32)
        ensures
            final(self)@ == copy_loop_s(src, dst, total, old(self)@),
    {
        let header = self.block();
        let body = self.block();
        let exit = self.block();
        let k = self.value(Step::Param(header));
        let zero = self.value(Step::Const(0));
        self.jump_with(header, zero);
        self.emit(Step::Switch(header));
        let more = self.value(Step::Compare(Relation::UnsignedLess, k, total));
        let none: Vec<u32> = Vec::new();
        assert(none@ =~= Seq::empty());
        self.emit(Step::Branch(more, body, exit, none));
        self.go_sealed(body);
        let off = self.value(Step::WithImm(WithImm::Mul, k, 8));
        let from = self.value(Step::Binary(Binary::Add, src, off));
        let w = self.value(Step::Load(from, 0));
        let to = self.value(Step::Binary(Binary::Add, dst, off));
        self.emit(Step::Store(w, to, 0));
        let next = self.value(Step::WithImm(WithImm::Add, k, 1));
        self.jump_with(header, next);
        self.emit(Step::Seal(header));
        self.go_sealed(exit);
    }

    pub fn jump_with(&mut self, b: u32, v: u32)
        ensures
            final(self)@ == cl_code::act(old(self)@, StepView::Jump(b, seq![v])),
    {
        let args: Vec<u32> = vec![v];
        assert(args@ =~= seq![v]);
        self.emit(Step::Jump(b, args));
    }

    pub fn eval_index_set(&mut self, cx: &ClCx, base: &Atom, index: &Atom, value: &Atom) -> (r: Result<
        Reg,
        CodegenError,
    >)
        ensures
            cl_code::did_reg(r, *final(self), reg_index_set_s(cx@, base@, index@, value@, old(self)@)),
    {
        reveal(reg_index_set_s);
        let ptr = match self.word(cx, base) {
            Ok(v) => v,
            Err(e) => {
                return Err(e);
            },
        };
        let i = match self.word(cx, index) {
            Ok(v) => v,
            Err(e) => {
                return Err(e);
            },
        };
        let v = match self.word(cx, value) {
            Ok(v) => v,
            Err(e) => {
                return Err(e);
            },
        };
        self.check(cx.checks, ptr, i);
        let len = self.value(Step::Load(ptr, 0));
        let total = self.value(Step::WithImm(WithImm::Add, len, 1));
        let new = self.value(Step::Alloc(total));
        self.copy_loop(ptr, new, total);
        let addr = self.element(new, i);
        self.emit(Step::Store(v, addr, 0));
        Ok(Reg::Val(new))
    }
}

} // verus!
