//! LLVM code for terms.
use vstd::prelude::*;
use vstd::string::*;

use crate::dump;
use crate::dump::show_built_type;
use crate::find;
use crate::ir;
use crate::ir::{Atom, AtomView, IntTy, Literal, LiteralView, PrimOp, Type, TypeView};
use crate::llvm_text;
use crate::llvm_text::{FuncBuilder, LlSt, LlvmError, LlvmErrorView, Piece, PieceView, refuse, show_item};
use crate::text;
use crate::text::{decimal_string, join, push_decimal, push_decimal_int, str_eq};
use crate::wasm_eval;
use crate::wasm_ops;
use crate::wasm_ops::is_no_slot;
use crate::wasm_trans;
use crate::world::{World, WorldView};

verus! {

// ---- the program around a function -------------------------------------------------------------------

/// A function of the program: the hash it is called by, its symbol, and the
/// types of its parameters.
#[derive(Debug, PartialEq, Eq)]
pub struct LlMeta {
    pub hash: crate::ir::Hash,
    pub symbol: String,
    pub params: Vec<Type>,
}

/// The mathematical counterpart of [`LlMeta`].
#[verifier::ext_equal]
pub struct LlMetaView {
    pub hash: Seq<u8>,
    pub symbol: Seq<char>,
    pub params: Seq<TypeView>,
}

impl View for LlMeta {
    type V = LlMetaView;

    open spec fn view(&self) -> LlMetaView {
        LlMetaView { hash: self.hash@, symbol: self.symbol@, params: ir::types_view(self.params@) }
    }
}

pub open spec fn ll_metas_view(v: Seq<LlMeta>) -> Seq<LlMetaView> {
    Seq::new(v.len(), |i: int| v[i]@)
}

/// The program that a function is part of.
pub struct LlCx<'a> {
    pub world: &'a World,
    pub fns: &'a Vec<LlMeta>,
    pub checks: bool,
}

/// The mathematical counterpart of [`LlCx`].
pub struct LlCxView {
    pub world: WorldView,
    pub fns: Seq<LlMetaView>,
    pub checks: bool,
}

impl<'a> View for LlCx<'a> {
    type V = LlCxView;

    open spec fn view(&self) -> LlCxView {
        LlCxView { world: self.world@, fns: ll_metas_view(self.fns@), checks: self.checks }
    }
}

pub open spec fn is_called(fns: Seq<LlMetaView>, h: Seq<u8>) -> spec_fn(int) -> bool {
    |i: int| fns[i].hash == h
}

/// The position of the function of that hash; the last one counts.
pub open spec fn called(fns: Seq<LlMetaView>, h: Seq<u8>) -> Option<int> {
    find::last_below(is_called(fns, h), fns.len() as int)
}

/// The position of the function of that hash.
pub fn find_called(fns: &Vec<LlMeta>, h: &crate::ir::Hash) -> (r: Option<usize>)
    ensures
        match called(ll_metas_view(fns@), h@) {
            Some(i) => r is Some && r->0 == i && 0 <= i < fns@.len(),
            None => r is None,
        },
{
    let ghost p = is_called(ll_metas_view(fns@), h@);
    let mut i: usize = fns.len();
    while i > 0
        invariant
            i <= fns@.len(),
            p == is_called(ll_metas_view(fns@), h@),
            find::last_below(p, fns@.len() as int) == find::last_below(p, i as int),
        decreases i,
    {
        let hit = fns[i - 1].hash.same(h);
        assert(hit == p(i - 1));
        if hit {
            return Some(i - 1);
        }
        i = i - 1;
    }
    None
}

// ---- atoms -----------------------------------------------------------------------------------------------

/// The characters of a text as words.
pub open spec fn char_items(t: Seq<char>) -> Seq<PieceView> {
    Seq::new(t.len(), |i: int| PieceView::Val(text::decimal((t[i] as u32) as nat)))
}

/// The value of a literal.
pub open spec fn lit_item(l: LiteralView) -> Result<PieceView, LlvmErrorView> {
    match l {
        LiteralView::Unit => Ok(PieceView::Unit),
        LiteralView::Bool(b) => if b {
            Ok(PieceView::Val("1"@))
        } else {
            Ok(PieceView::Val("0"@))
        },
        LiteralView::Int(n) => Ok(PieceView::Val(text::decimal_int(n as int))),
        LiteralView::Char(c) => Ok(PieceView::Val(text::decimal((c as u32) as nat))),
        LiteralView::Str(t) => Ok(
            PieceView::Tuple {
                tag: text::decimal(((t.len() as usize) as u32) as nat),
                fields: char_items(t),
            },
        ),
        LiteralView::Float(_) => Err(llvm_text::refused("float literal"@)),
    }
}

/// The value of an atom.
pub open spec fn atom_item(cx: LlCxView, env: Seq<PieceView>, a: AtomView) -> Result<
    PieceView,
    LlvmErrorView,
> {
    match a {
        AtomView::Lit(l) => lit_item(l),
        AtomView::Var(i) => if i < env.len() {
            Ok(env[env.len() - 1 - i])
        } else {
            Err(llvm_text::refused(wasm_trans::scope_text(i, env.len())))
        },
        AtomView::Global(h) => if called(cx.fns, h) is Some {
            Ok(PieceView::Partial { func: h, got: Seq::empty() })
        } else {
            Err(LlvmErrorView::UnknownGlobal(h))
        },
    }
}

/// The values of the first `n` atoms.
pub open spec fn atom_items(cx: LlCxView, env: Seq<PieceView>, v: Seq<AtomView>, n: nat) -> Result<
    Seq<PieceView>,
    LlvmErrorView,
>
    decreases n,
{
    if n == 0 {
        Ok(Seq::empty())
    } else {
        match atom_items(cx, env, v, (n - 1) as nat) {
            Ok(out) => match atom_item(cx, env, v[n - 1]) {
                Ok(x) => Ok(out.push(x)),
                Err(e) => Err(e),
            },
            Err(e) => Err(e),
        }
    }
}

/// The word of an atom.
#[verifier::opaque]
pub open spec fn ll_word_s(cx: LlCxView, a: AtomView, s: LlSt) -> Result<(Seq<char>, LlSt), LlvmErrorView> {
    match atom_item(cx, s.env, a) {
        Ok(x) => llvm_text::as_word_s(x, s),
        Err(e) => Err(e),
    }
}

/// The words of the first `n` atoms.
pub open spec fn words_s(cx: LlCxView, v: Seq<AtomView>, n: nat, s: LlSt) -> Result<
    (Seq<Seq<char>>, LlSt),
    LlvmErrorView,
>
    decreases n,
{
    if n == 0 {
        Ok((Seq::empty(), s))
    } else {
        match words_s(cx, v, (n - 1) as nat, s) {
            Ok((out, s1)) => match ll_word_s(cx, v[n - 1], s1) {
                Ok((w, s2)) => Ok((out.push(w), s2)),
                Err(e) => Err(e),
            },
            Err(e) => Err(e),
        }
    }
}

fn lit(l: &Literal) -> (r: Result<Piece, LlvmError>)
    ensures
        match lit_item(l@) {
            Ok(x) => r is Ok && r->Ok_0@ == x,
            Err(e) => r is Err && r->Err_0@ == e,
        },
{
    match l {
        Literal::Unit => Ok(Piece::Unit),
        Literal::Bool(b) => {
            if *b {
                Ok(Piece::Val("1".to_owned()))
            } else {
                Ok(Piece::Val("0".to_owned()))
            }
        },
        Literal::Int(n) => {
            let mut s = String::new();
            push_decimal_int(&mut s, *n);
            assert(s@ =~= text::decimal_int(*n as int));
            Ok(Piece::Val(s))
        },
        Literal::Char(c) => Ok(Piece::Val(decimal_string(*c as u32 as u64))),
        Literal::Str(t) => {
            let n = t.as_str().unicode_len();
            let mut fields: Vec<Piece> = Vec::new();
            let mut i: usize = 0;
            while i < n
                invariant
                    i <= n,
                    n == t@.len(),
                    fields@.len() == i,
                    forall|k: int| 0 <= k < i ==> #[trigger] fields@[k]@ == char_items(t@)[k],
                decreases n - i,
            {
                let c = t.as_str().get_char(i);
                fields.push(Piece::Val(decimal_string(c as u32 as u64)));
                i = i + 1;
            }
            proof {
                llvm_text::lemma_pieces_view(fields@);
                assert(llvm_text::pieces_view(fields@) =~= char_items(t@));
            }
            Ok(Piece::Tuple { tag: decimal_string(n as u32 as u64), fields })
        },
        Literal::Float(_) => Err(refuse("float literal")),
    }
}

proof fn lemma_items_fail(cx: LlCxView, env: Seq<PieceView>, v: Seq<AtomView>, i: nat, n: nat)
    requires
        i <= n,
        atom_items(cx, env, v, i) is Err,
    ensures
        atom_items(cx, env, v, n) == atom_items(cx, env, v, i),
    decreases n - i,
{
    if i < n {
        assert(atom_items(cx, env, v, i + 1) == atom_items(cx, env, v, i));
        lemma_items_fail(cx, env, v, i + 1, n);
    }
}

proof fn lemma_words_fail(cx: LlCxView, v: Seq<AtomView>, i: nat, n: nat, s: LlSt)
    requires
        i <= n,
        words_s(cx, v, i, s) is Err,
    ensures
        words_s(cx, v, n, s) == words_s(cx, v, i, s),
    decreases n - i,
{
    if i < n {
        assert(words_s(cx, v, i + 1, s) == words_s(cx, v, i, s));
        lemma_words_fail(cx, v, i + 1, n, s);
    }
}

impl FuncBuilder {
    pub fn eval_atom(&self, cx: &LlCx, a: &Atom) -> (r: Result<Piece, LlvmError>)
        ensures
            match atom_item(cx@, self@.env, a@) {
                Ok(x) => r is Ok && r->Ok_0@ == x,
                Err(e) => r is Err && r->Err_0@ == e,
            },
    {
        broadcast use llvm_text::lemma_pieces_view;

        match a {
            Atom::Lit(l) => lit(l),
            Atom::Var(i) => {
                let d = self.env.len();
                if (*i as usize) < d {
                    assert(self@.env[d - 1 - *i] == self.env@[d - 1 - *i]@);
                    Ok(self.env[d - 1 - *i as usize].clone())
                } else {
                    let mut s = "de Bruijn index ".to_owned();
                    push_decimal(&mut s, *i as u64);
                    s.append(" out of scope at depth ");
                    push_decimal(&mut s, d as u64);
                    Err(LlvmError::Unsupported(s))
                }
            },
            Atom::Global(h) => {
                if find_called(cx.fns, h).is_some() {
                    let got: Vec<Piece> = Vec::new();
                    assert(llvm_text::pieces_view(got@) =~= Seq::empty());
                    Ok(Piece::Partial { func: *h, got })
                } else {
                    Err(LlvmError::UnknownGlobal(*h))
                }
            },
        }
    }

    pub fn eval_atoms(&self, cx: &LlCx, v: &Vec<Atom>) -> (r: Result<Vec<Piece>, LlvmError>)
        ensures
            match atom_items(cx@, self@.env, ir::atoms_view(v@), v@.len()) {
                Ok(x) => r is Ok && llvm_text::pieces_view(r->Ok_0@) == x,
                Err(e) => r is Err && r->Err_0@ == e,
            },
    {
        broadcast use llvm_text::lemma_pieces_view;

        let ghost c = cx@;
        let ghost env = self@.env;
        let ghost av = ir::atoms_view(v@);
        let mut out: Vec<Piece> = Vec::new();
        let mut i: usize = 0;
        assert(llvm_text::pieces_view(out@) =~= Seq::empty());
        while i < v.len()
            invariant
                i <= v@.len(),
                c == cx@,
                env == self@.env,
                av == ir::atoms_view(v@),
                atom_items(c, env, av, i as nat) == Ok::<Seq<PieceView>, LlvmErrorView>(
                    llvm_text::pieces_view(out@),
                ),
            decreases v@.len() - i,
        {
            assert(av[i as int] == v@[i as int]@);
            match self.eval_atom(cx, &v[i]) {
                Ok(x) => {
                    let ghost before = out@;
                    let ghost xv = x@;
                    out.push(x);
                    assert(llvm_text::pieces_view(out@) =~= llvm_text::pieces_view(before).push(xv));
                },
                Err(e) => {
                    proof {
                        lemma_items_fail(c, env, av, (i + 1) as nat, v@.len());
                    }
                    return Err(e);
                },
            }
            i = i + 1;
        }
        Ok(out)
    }

    pub fn word(&mut self, cx: &LlCx, a: &Atom) -> (r: Result<String, LlvmError>)
        ensures
            llvm_text::did_word(r, *final(self), ll_word_s(cx@, a@, old(self)@)),
    {
        reveal(ll_word_s);
        let x = match self.eval_atom(cx, a) {
            Ok(v) => v,
            Err(e) => {
                return Err(e);
            },
        };
        self.as_word(&x)
    }

    pub fn words(&mut self, cx: &LlCx, v: &Vec<Atom>) -> (r: Result<Vec<String>, LlvmError>)
        ensures
            match words_s(cx@, ir::atoms_view(v@), v@.len(), old(self)@) {
                Ok((x, s)) => r is Ok && text::strings_view(r->Ok_0@) == x && final(self)@ == s,
                Err(e) => r is Err && r->Err_0@ == e,
            },
    {
        let ghost c = cx@;
        let ghost s0 = self@;
        let ghost av = ir::atoms_view(v@);
        let mut out: Vec<String> = Vec::new();
        let mut i: usize = 0;
        assert(text::strings_view(out@) =~= Seq::empty());
        while i < v.len()
            invariant
                i <= v@.len(),
                c == cx@,
                s0 == old(self)@,
                av == ir::atoms_view(v@),
                words_s(c, av, i as nat, s0) == Ok::<(Seq<Seq<char>>, LlSt), LlvmErrorView>(
                    (text::strings_view(out@), self@),
                ),
            decreases v@.len() - i,
        {
            assert(av[i as int] == v@[i as int]@);
            match self.word(cx, &v[i]) {
                Ok(x) => {
                    let ghost before = out@;
                    let ghost xv = x@;
                    out.push(x);
                    assert(text::strings_view(out@) =~= text::strings_view(before).push(xv));
                },
                Err(e) => {
                    proof {
                        lemma_words_fail(c, av, (i + 1) as nat, v@.len(), s0);
                    }
                    return Err(e);
                },
            }
            i = i + 1;
        }
        Ok(out)
    }
}

// ---- calls -----------------------------------------------------------------------------------------------------

/// The words of the first `n` arguments, without those that are no words.
pub open spec fn arg_words_s(w: WorldView, got: Seq<PieceView>, params: Seq<TypeView>, n: nat, s: LlSt) -> Result<
    (Seq<Seq<char>>, LlSt),
    LlvmErrorView,
>
    decreases n,
{
    if n == 0 {
        Ok((Seq::empty(), s))
    } else {
        match arg_words_s(w, got, params, (n - 1) as nat, s) {
            Ok((out, s1)) => if wasm_ops::no_slot(w, params[n - 1]) {
                Ok((out, s1))
            } else {
                match llvm_text::as_word_s(got[n - 1], s1) {
                    Ok((v, s2)) => Ok((out.push("i64 "@ + v), s2)),
                    Err(e) => Err(e),
                }
            },
            Err(e) => Err(e),
        }
    }
}

/// An application: a call once the function has all of its arguments.
pub open spec fn ll_apply_s(cx: LlCxView, f: PieceView, arg: PieceView, s: LlSt) -> Result<
    (PieceView, LlSt),
    LlvmErrorView,
> {
    match f {
        PieceView::Partial { func, got } => {
            let all = got.push(arg);
            match called(cx.fns, func) {
                Some(i) => {
                    let m = cx.fns[i];
                    if all.len() < m.params.len() {
                        Ok((PieceView::Partial { func, got: all }, s))
                    } else {
                        match arg_words_s(
                            cx.world,
                            all,
                            m.params,
                            wasm_eval::both_len(all.len(), m.params.len()),
                            s,
                        ) {
                            Ok((v, s1)) => {
                                let list = text::join_view(v, ", "@);
                                let (t, s2) = llvm_text::made((" = call i64 @"@ + m.symbol + "("@ + list + ")"@), s1);
                                Ok((PieceView::Val(t), s2))
                            },
                            Err(e) => Err(e),
                        }
                    }
                },
                None => Err(LlvmErrorView::UnknownGlobal(func)),
            }
        },
        _ => Err(llvm_text::refused("application of a non-function"@)),
    }
}

/// An application of atoms.
#[verifier::opaque]
pub open spec fn ll_app_s(cx: LlCxView, func: AtomView, arg: AtomView, s: LlSt) -> Result<
    (PieceView, LlSt),
    LlvmErrorView,
> {
    match atom_item(cx, s.env, func) {
        Ok(f) => match atom_item(cx, s.env, arg) {
            Ok(a) => ll_apply_s(cx, f, a, s),
            Err(e) => Err(e),
        },
        Err(e) => Err(e),
    }
}

proof fn lemma_args_fail(w: WorldView, got: Seq<PieceView>, params: Seq<TypeView>, i: nat, n: nat, s: LlSt)
    requires
        i <= n,
        arg_words_s(w, got, params, i, s) is Err,
    ensures
        arg_words_s(w, got, params, n, s) == arg_words_s(w, got, params, i, s),
    decreases n - i,
{
    if i < n {
        assert(arg_words_s(w, got, params, i + 1, s) == arg_words_s(w, got, params, i, s));
        lemma_args_fail(w, got, params, i + 1, n, s);
    }
}

impl FuncBuilder {
    fn arg_words(&mut self, w: &World, got: &Vec<Piece>, params: &Vec<Type>) -> (r: Result<
        Vec<String>,
        LlvmError,
    >)
        ensures
            match arg_words_s(
                w@,
                llvm_text::pieces_view(got@),
                ir::types_view(params@),
                wasm_eval::both_len(got@.len(), params@.len()),
                old(self)@,
            ) {
                Ok((x, s)) => r is Ok && text::strings_view(r->Ok_0@) == x && final(self)@ == s,
                Err(e) => r is Err && r->Err_0@ == e,
            },
    {
        broadcast use llvm_text::lemma_pieces_view;
        broadcast use ir::lemma_types_view;

        let ghost s0 = self@;
        let ghost gv = llvm_text::pieces_view(got@);
        let ghost pv = ir::types_view(params@);
        let ghost n = wasm_eval::both_len(got@.len(), params@.len());
        let mut out: Vec<String> = Vec::new();
        let mut i: usize = 0;
        assert(text::strings_view(out@) =~= Seq::empty());
        while i < got.len() && i < params.len()
            invariant
                i <= n,
                n == wasm_eval::both_len(got@.len(), params@.len()),
                s0 == old(self)@,
                gv == llvm_text::pieces_view(got@),
                pv == ir::types_view(params@),
                arg_words_s(w@, gv, pv, i as nat, s0) == Ok::<
                    (Seq<Seq<char>>, LlSt),
                    LlvmErrorView,
                >((text::strings_view(out@), self@)),
            decreases n - i,
        {
            assert(gv[i as int] == got@[i as int]@);
            assert(pv[i as int] == params@[i as int]@);
            if !is_no_slot(w, &params[i]) {
                match self.as_word(&got[i]) {
                    Ok(v) => {
                        let ghost before = out@;
                        let text = {
                            let mut x = "i64 ".to_owned();
                            x.append(v.as_str());
                            x
                        };
                        let ghost xv = text@;
                        out.push(text);
                        assert(text::strings_view(out@) =~= text::strings_view(before).push(xv));
                    },
                    Err(e) => {
                        proof {
                            lemma_args_fail(w@, gv, pv, (i + 1) as nat, n, s0);
                        }
                        return Err(e);
                    },
                }
            }
            i = i + 1;
        }
        Ok(out)
    }

    fn apply(&mut self, cx: &LlCx, f: Piece, arg: Piece) -> (r: Result<Piece, LlvmError>)
        ensures
            llvm_text::ll_did_item(r, *final(self), ll_apply_s(cx@, f@, arg@, old(self)@)),
    {
        broadcast use llvm_text::lemma_pieces_view;
        broadcast use ir::lemma_types_view;

        match f {
            Piece::Partial { func, got } => {
                let mut all = got;
                let ghost before = all@;
                let ghost xv = arg@;
                all.push(arg);
                assert(llvm_text::pieces_view(all@) =~= llvm_text::pieces_view(before).push(xv));
                match find_called(cx.fns, &func) {
                    Some(i) => {
                        assert(cx@.fns[i as int] == cx.fns@[i as int]@);
                        let m = &cx.fns[i];
                        if all.len() < m.params.len() {
                            return Ok(Piece::Partial { func, got: all });
                        }
                        let v = match self.arg_words(cx.world, &all, &m.params) {
                            Ok(v) => v,
                            Err(e) => {
                                return Err(e);
                            },
                        };
                        let list = join(&v, ", ");
                        let text = {
                            let mut x = " = call i64 @".to_owned();
                            x.append(m.symbol.as_str());
                            x.append("(");
                            x.append(list.as_str());
                            x.append(")");
                            x
                        };
                        Ok(Piece::Val(self.make(text.as_str())))
                    },
                    None => Err(LlvmError::UnknownGlobal(func)),
                }
            },
            _ => Err(refuse("application of a non-function")),
        }
    }

    pub fn eval_app(&mut self, cx: &LlCx, func: &Atom, arg: &Atom) -> (r: Result<Piece, LlvmError>)
        ensures
            llvm_text::ll_did_item(r, *final(self), ll_app_s(cx@, func@, arg@, old(self)@)),
    {
        reveal(ll_app_s);
        let f = match self.eval_atom(cx, func) {
            Ok(v) => v,
            Err(e) => {
                return Err(e);
            },
        };
        let a = match self.eval_atom(cx, arg) {
            Ok(v) => v,
            Err(e) => {
                return Err(e);
            },
        };
        self.apply(cx, f, a)
    }
}

// ---- operations -------------------------------------------------------------------------------------------------

/// How an operation is written: how many operands it has, and its instruction.
pub enum Form {
    Bin(Seq<char>),
    Relation(Seq<char>),
    Other,
}

/// How an operation is written.
pub open spec fn form_of(op: PrimOp) -> Form {
    match op {
        PrimOp::Add => Form::Bin("add"@),
        PrimOp::Sub => Form::Bin("sub"@),
        PrimOp::Mul => Form::Bin("mul"@),
        PrimOp::Div => Form::Bin("sdiv"@),
        PrimOp::Rem => Form::Bin("srem"@),
        PrimOp::And => Form::Bin("and"@),
        PrimOp::Or => Form::Bin("or"@),
        PrimOp::Eq => Form::Relation("eq"@),
        PrimOp::Ne => Form::Relation("ne"@),
        PrimOp::Lt => Form::Relation("slt"@),
        PrimOp::Le => Form::Relation("sle"@),
        PrimOp::Gt => Form::Relation("sgt"@),
        PrimOp::Ge => Form::Relation("sge"@),
        _ => Form::Other,
    }
}

/// An operation on words.
pub open spec fn op_s(checks: bool, op: PrimOp, v: Seq<Seq<char>>, s: LlSt) -> Result<
    (Seq<char>, LlSt),
    LlvmErrorView,
> {
    match op {
        PrimOp::Slice | PrimOp::FromChars => Err(llvm_text::refused("string slice/from_chars"@)),
        PrimOp::Not | PrimOp::Neg | PrimOp::Len => if v.len() < 1 {
            Err(llvm_text::refused("a primitive without its operands"@))
        } else {
            match op {
                PrimOp::Not => Ok(llvm_text::bin_s("xor"@, v[0], "1"@, s)),
                PrimOp::Neg => Ok(llvm_text::bin_s("sub"@, "0"@, v[0], s)),
                _ => Ok(llvm_text::load_s(v[0], "0"@, s)),
            }
        },
        _ => if v.len() < 2 {
            Err(llvm_text::refused("a primitive without its operands"@))
        } else {
            match form_of(op) {
                Form::Bin(name) => Ok(llvm_text::bin_s(name, v[0], v[1], s)),
                Form::Relation(name) => Ok(llvm_text::compare_s(name, v[0], v[1], s)),
                Form::Other => {
                    let (slot, s1) = llvm_text::bin_s("add"@, v[1], "1"@, llvm_text::ll_bounds_s(checks, v[0], v[1], s));
                    Ok(llvm_text::load_s(v[0], slot, s1))
                },
            }
        },
    }
}

/// A primitive operation.
#[verifier::opaque]
pub open spec fn ll_prim_s(cx: LlCxView, op: PrimOp, args: Seq<AtomView>, s: LlSt) -> Result<
    (PieceView, LlSt),
    LlvmErrorView,
> {
    match words_s(cx, args, args.len(), s) {
        Ok((v, s1)) => match op_s(cx.checks, op, v, s1) {
            Ok((t, s2)) => Ok((PieceView::Val(t), s2)),
            Err(e) => Err(e),
        },
        Err(e) => Err(e),
    }
}

/// A cast.
#[verifier::opaque]
pub open spec fn ll_cast_s(cx: LlCxView, value: AtomView, to: TypeView, s: LlSt) -> Result<
    (PieceView, LlSt),
    LlvmErrorView,
> {
    match ll_word_s(cx, value, s) {
        Ok((v, s1)) => match to {
            TypeView::Bool => {
                let (t, s2) = llvm_text::compare_s("ne"@, v, "0"@, s1);
                Ok((PieceView::Val(t), s2))
            },
            TypeView::Char => Ok((PieceView::Val(v), s1)),
            TypeView::Int(i) => {
                let (t, s2) = match i {
                    IntTy::I8 => llvm_text::narrow_s(v, 8, true, s1),
                    IntTy::I16 => llvm_text::narrow_s(v, 16, true, s1),
                    IntTy::I32 => llvm_text::narrow_s(v, 32, true, s1),
                    IntTy::U8 => llvm_text::narrow_s(v, 8, false, s1),
                    IntTy::U16 => llvm_text::narrow_s(v, 16, false, s1),
                    IntTy::U32 => llvm_text::narrow_s(v, 32, false, s1),
                    IntTy::I64 | IntTy::Isize | IntTy::U64 | IntTy::Usize => (v, s1),
                };
                Ok((PieceView::Val(t), s2))
            },
            _ => Err(llvm_text::refused("cast to "@ + dump::type_text(to))),
        },
        Err(e) => Err(e),
    }
}

/// A field.
#[verifier::opaque]
pub open spec fn ll_proj_s(cx: LlCxView, base: AtomView, idx: u32, s: LlSt) -> Result<
    (PieceView, LlSt),
    LlvmErrorView,
> {
    match atom_item(cx, s.env, base) {
        Ok(PieceView::Tuple { tag, fields }) => if idx < fields.len() {
            Ok((fields[idx as int], s))
        } else {
            Err(llvm_text::refused("projection out of range"@))
        },
        Ok(x) => match llvm_text::as_word_s(x, s) {
            Ok((ptr, s1)) => {
                let (t, s2) = llvm_text::load_s(ptr, text::decimal((idx + 1) as nat), s1);
                Ok((PieceView::Val(t), s2))
            },
            Err(e) => Err(e),
        },
        Err(e) => Err(e),
    }
}

/// A sequence with one element replaced: a copy.
#[verifier::opaque]
pub open spec fn ll_index_set_s(cx: LlCxView, base: AtomView, index: AtomView, value: AtomView, s: LlSt) -> Result<
    (PieceView, LlSt),
    LlvmErrorView,
> {
    match ll_word_s(cx, base, s) {
        Ok((ptr, s1)) => match ll_word_s(cx, index, s1) {
            Ok((idx, s2)) => match ll_word_s(cx, value, s2) {
                Ok((val, s3)) => {
                    let (len, s4) = llvm_text::load_s(ptr, "0"@, llvm_text::ll_bounds_s(cx.checks, ptr, idx, s3));
                    let (total, s5) = llvm_text::bin_s("add"@, len, "1"@, s4);
                    let (new, s6) = llvm_text::alloc_s(total, s5);
                    let (slot, s7) = llvm_text::bin_s("add"@, idx, "1"@, llvm_text::copy_s(ptr, new, total, s6));
                    Ok((PieceView::Val(new), llvm_text::store_s(new, slot, val, s7)))
                },
                Err(e) => Err(e),
            },
            Err(e) => Err(e),
        },
        Err(e) => Err(e),
    }
}

impl FuncBuilder {
    fn operate(&mut self, checks: bool, op: PrimOp, v: &Vec<String>) -> (r: Result<String, LlvmError>)
        ensures
            llvm_text::did_word(r, *final(self), op_s(checks, op, text::strings_view(v@), old(self)@)),
    {
        let ghost sv = text::strings_view(v@);
        assert(v@.len() > 0 ==> sv[0] == v@[0]@);
        assert(v@.len() > 1 ==> sv[1] == v@[1]@);
        match op {
            PrimOp::Slice | PrimOp::FromChars => Err(refuse("string slice/from_chars")),
            PrimOp::Not | PrimOp::Neg | PrimOp::Len => {
                if v.len() < 1 {
                    return Err(refuse("a primitive without its operands"));
                }
                let a = v[0].as_str();
                match op {
                    PrimOp::Not => Ok(self.bin("xor", a, "1")),
                    PrimOp::Neg => Ok(self.bin("sub", "0", a)),
                    _ => Ok(self.load_word(a, "0")),
                }
            },
            _ => {
                if v.len() < 2 {
                    return Err(refuse("a primitive without its operands"));
                }
                let a = v[0].as_str();
                let b = v[1].as_str();
                match op {
                    PrimOp::Add => Ok(self.bin("add", a, b)),
                    PrimOp::Sub => Ok(self.bin("sub", a, b)),
                    PrimOp::Mul => Ok(self.bin("mul", a, b)),
                    PrimOp::Div => Ok(self.bin("sdiv", a, b)),
                    PrimOp::Rem => Ok(self.bin("srem", a, b)),
                    PrimOp::And => Ok(self.bin("and", a, b)),
                    PrimOp::Or => Ok(self.bin("or", a, b)),
                    PrimOp::Eq => Ok(self.compare("eq", a, b)),
                    PrimOp::Ne => Ok(self.compare("ne", a, b)),
                    PrimOp::Lt => Ok(self.compare("slt", a, b)),
                    PrimOp::Le => Ok(self.compare("sle", a, b)),
                    PrimOp::Gt => Ok(self.compare("sgt", a, b)),
                    PrimOp::Ge => Ok(self.compare("sge", a, b)),
                    _ => {
                        self.emit_bounds_check(checks, a, b);
                        let slot = self.bin("add", b, "1");
                        Ok(self.load_word(a, slot.as_str()))
                    },
                }
            },
        }
    }

    pub fn eval_prim(&mut self, cx: &LlCx, op: PrimOp, args: &Vec<Atom>) -> (r: Result<Piece, LlvmError>)
        ensures
            llvm_text::ll_did_item(r, *final(self), ll_prim_s(cx@, op, ir::atoms_view(args@), old(self)@)),
    {
        reveal(ll_prim_s);
        let v = match self.words(cx, args) {
            Ok(v) => v,
            Err(e) => {
                return Err(e);
            },
        };
        let t = match self.operate(cx.checks, op, &v) {
            Ok(v) => v,
            Err(e) => {
                return Err(e);
            },
        };
        Ok(Piece::Val(t))
    }

    pub fn eval_cast(&mut self, cx: &LlCx, value: &Atom, to: &Type) -> (r: Result<Piece, LlvmError>)
        ensures
            llvm_text::ll_did_item(r, *final(self), ll_cast_s(cx@, value@, to@, old(self)@)),
    {
        reveal(ll_cast_s);
        let v = match self.word(cx, value) {
            Ok(v) => v,
            Err(e) => {
                return Err(e);
            },
        };
        match to {
            Type::Bool => Ok(Piece::Val(self.compare("ne", v.as_str(), "0"))),
            Type::Char => Ok(Piece::Val(v)),
            Type::Int(i) => {
                let t = match i {
                    IntTy::I8 => self.trunc_ext(v.as_str(), 8, true),
                    IntTy::I16 => self.trunc_ext(v.as_str(), 16, true),
                    IntTy::I32 => self.trunc_ext(v.as_str(), 32, true),
                    IntTy::U8 => self.trunc_ext(v.as_str(), 8, false),
                    IntTy::U16 => self.trunc_ext(v.as_str(), 16, false),
                    IntTy::U32 => self.trunc_ext(v.as_str(), 32, false),
                    IntTy::I64 | IntTy::Isize | IntTy::U64 | IntTy::Usize => v,
                };
                Ok(Piece::Val(t))
            },
            _ => {
                let shown = show_built_type(to);
                let text = {
                    let mut x = "cast to ".to_owned();
                    x.append(shown.as_str());
                    x
                };
                Err(LlvmError::Unsupported(text))
            },
        }
    }

    pub fn eval_proj(&mut self, cx: &LlCx, base: &Atom, idx: u32) -> (r: Result<Piece, LlvmError>)
        ensures
            llvm_text::ll_did_item(r, *final(self), ll_proj_s(cx@, base@, idx, old(self)@)),
    {
        reveal(ll_proj_s);
        broadcast use llvm_text::lemma_pieces_view;

        let x = match self.eval_atom(cx, base) {
            Ok(v) => v,
            Err(e) => {
                return Err(e);
            },
        };
        match &x {
            Piece::Tuple { tag: _, fields } => {
                if (idx as usize) < fields.len() {
                    assert(llvm_text::pieces_view(fields@)[idx as int] == fields@[idx as int]@);
                    Ok(fields[idx as usize].clone())
                } else {
                    Err(refuse("projection out of range"))
                }
            },
            _ => {
                let ptr = match self.as_word(&x) {
                    Ok(v) => v,
                    Err(e) => {
                        return Err(e);
                    },
                };
                let at = decimal_string(idx as u64 + 1);
                Ok(Piece::Val(self.load_word(ptr.as_str(), at.as_str())))
            },
        }
    }

    pub fn eval_index_set(&mut self, cx: &LlCx, base: &Atom, index: &Atom, value: &Atom) -> (r: Result<
        Piece,
        LlvmError,
    >)
        ensures
            llvm_text::ll_did_item(r, *final(self), ll_index_set_s(cx@, base@, index@, value@, old(self)@)),
    {
        reveal(ll_index_set_s);
        let ptr = match self.word(cx, base) {
            Ok(v) => v,
            Err(e) => {
                return Err(e);
            },
        };
        let idx = match self.word(cx, index) {
            Ok(v) => v,
            Err(e) => {
                return Err(e);
            },
        };
        let val = match self.word(cx, value) {
            Ok(v) => v,
            Err(e) => {
                return Err(e);
            },
        };
        self.emit_bounds_check(cx.checks, ptr.as_str(), idx.as_str());
        let len = self.load_word(ptr.as_str(), "0");
        let total = self.bin("add", len.as_str(), "1");
        let new = self.alloc_words(total.as_str());
        self.copy_words(ptr.as_str(), new.as_str(), total.as_str());
        let slot = self.bin("add", idx.as_str(), "1");
        self.store_word(new.as_str(), slot.as_str(), val.as_str());
        Ok(Piece::Val(new))
    }
}

// ---- joins ---------------------------------------------------------------------------------------------------------

/// The end of a branch: its value, the block that it ends in, and whether
/// control comes out of it.
pub struct Tip {
    pub item: Piece,
    pub end: String,
    pub live: bool,
}

/// The mathematical counterpart of [`Tip`].
#[verifier::ext_equal]
pub struct TipView {
    pub item: PieceView,
    pub end: Seq<char>,
    pub live: bool,
}

impl View for Tip {
    type V = TipView;

    open spec fn view(&self) -> TipView {
        TipView { item: self.item@, end: self.end@, live: self.live }
    }
}

pub open spec fn arm_ends(v: Seq<Tip>) -> Seq<TipView> {
    Seq::new(v.len(), |i: int| v[i]@)
}

/// The first `n` fields of an aggregate, each aggregate among them turned into a
/// block.
pub open spec fn settled_fields_s(fields: Seq<PieceView>, n: nat, s: LlSt) -> Result<
    (Seq<PieceView>, LlSt),
    LlvmErrorView,
>
    decreases n,
{
    if n == 0 {
        Ok((Seq::empty(), s))
    } else {
        match settled_fields_s(fields, (n - 1) as nat, s) {
            Ok((out, s1)) => if fields[n - 1] is Tuple {
                match llvm_text::as_word_s(fields[n - 1], s1) {
                    Ok((v, s2)) => Ok((out.push(PieceView::Val(v)), s2)),
                    Err(e) => Err(e),
                }
            } else {
                Ok((out.push(fields[n - 1]), s1))
            },
            Err(e) => Err(e),
        }
    }
}

/// What a branch yields, such that nothing is left to compute where branches join.
pub open spec fn settled_s(x: PieceView, s: LlSt) -> Result<(PieceView, LlSt), LlvmErrorView> {
    match x {
        PieceView::Tuple { tag, fields } => match settled_fields_s(fields, fields.len(), s) {
            Ok((v, s1)) => Ok((PieceView::Tuple { tag, fields: v }, s1)),
            Err(e) => Err(e),
        },
        x => Ok((x, s)),
    }
}

proof fn lemma_settled_fail(fields: Seq<PieceView>, i: nat, n: nat, s: LlSt)
    requires
        i <= n,
        settled_fields_s(fields, i, s) is Err,
    ensures
        settled_fields_s(fields, n, s) == settled_fields_s(fields, i, s),
    decreases n - i,
{
    if i < n {
        assert(settled_fields_s(fields, i + 1, s) == settled_fields_s(fields, i, s));
        lemma_settled_fail(fields, i + 1, n, s);
    }
}

/// The branches, among the first `n`, that control comes out of.
pub open spec fn live_arms(v: Seq<TipView>, n: nat) -> Seq<TipView>
    decreases n,
{
    if n == 0 {
        Seq::empty()
    } else {
        let rest = live_arms(v, (n - 1) as nat);
        if v[n - 1].live {
            rest.push(v[n - 1])
        } else {
            rest
        }
    }
}

/// A value that comes in from a block.
pub open spec fn from_block(v: Seq<char>, label: Seq<char>) -> Seq<char> {
    ("[ "@ + v + ", %"@ + label + " ]"@)
}

/// The words that come in from the first `n` branches.
pub open spec fn incoming(live: Seq<TipView>, n: nat) -> Result<Seq<Seq<char>>, LlvmErrorView>
    decreases n,
{
    if n == 0 {
        Ok(Seq::empty())
    } else {
        match incoming(live, (n - 1) as nat) {
            Ok(out) => match live[n - 1].item {
                PieceView::Val(v) => Ok(out.push(from_block(v, live[n - 1].end))),
                PieceView::Unit => Ok(out.push(from_block("0"@, live[n - 1].end))),
                x => Err(llvm_text::refused("cannot merge branch result "@ + llvm_text::item_text(x))),
            },
            Err(e) => Err(e),
        }
    }
}

/// The word of a field that is no aggregate.
pub open spec fn flat_word(x: PieceView) -> Result<Seq<char>, LlvmErrorView> {
    match x {
        PieceView::Val(v) => Ok(v),
        PieceView::Unit => Ok("0"@),
        PieceView::Returned => Err(llvm_text::refused("returned value used"@)),
        PieceView::Partial { func, got } => Err(
            llvm_text::refused("partially applied function escaped"@),
        ),
        x => Err(llvm_text::refused("cannot merge branch result "@ + llvm_text::item_text(x))),
    }
}

/// Field `f`, as it comes in from the first `n` branches: 0 from one whose
/// aggregate has fewer fields.
pub open spec fn incoming_field(live: Seq<TipView>, f: int, n: nat) -> Result<
    Seq<Seq<char>>,
    LlvmErrorView,
>
    decreases n,
{
    if n == 0 {
        Ok(Seq::empty())
    } else {
        match incoming_field(live, f, (n - 1) as nat) {
            Ok(out) => match live[n - 1].item {
                PieceView::Tuple { tag, fields } => match flat_word(
                    if f < fields.len() {
                        fields[f]
                    } else {
                        PieceView::Unit
                    },
                ) {
                    Ok(v) => Ok(out.push(from_block(v, live[n - 1].end))),
                    Err(e) => Err(e),
                },
                _ => Err(llvm_text::refused("branch tuple/non-tuple mismatch"@)),
            },
            Err(e) => Err(e),
        }
    }
}

/// The tags that come in from the first `n` branches.
pub open spec fn incoming_tags(live: Seq<TipView>, n: nat) -> Result<Seq<Seq<char>>, LlvmErrorView>
    decreases n,
{
    if n == 0 {
        Ok(Seq::empty())
    } else {
        match incoming_tags(live, (n - 1) as nat) {
            Ok(out) => match live[n - 1].item {
                PieceView::Tuple { tag, fields } => Ok(
                    out.push(from_block(tag, live[n - 1].end)),
                ),
                _ => Err(llvm_text::refused("branch tuple/non-tuple mismatch"@)),
            },
            Err(e) => Err(e),
        }
    }
}

/// The number of fields of the widest aggregate among the first `n` branches.
pub open spec fn widest(live: Seq<TipView>, n: nat) -> nat
    decreases n,
{
    if n == 0 {
        0
    } else {
        let before = widest(live, (n - 1) as nat);
        match live[n - 1].item {
            PieceView::Tuple { tag, fields } => if fields.len() > before {
                fields.len()
            } else {
                before
            },
            _ => before,
        }
    }
}

/// Whether a value is an aggregate with that tag.
pub open spec fn has_tag(x: PieceView, tag: Seq<char>) -> bool {
    match x {
        PieceView::Tuple { tag: t, fields } => t == tag,
        _ => false,
    }
}

/// Whether every branch yields an aggregate with that tag.
pub open spec fn one_tag(live: Seq<TipView>, tag: Seq<char>) -> bool {
    forall|i: int| 0 <= i < live.len() ==> has_tag((#[trigger] live[i]).item, tag)
}

/// A value that is chosen by the block that control comes from.
pub open spec fn phi_s(v: Seq<Seq<char>>, s: LlSt) -> (Seq<char>, LlSt) {
    llvm_text::made(" = phi i64 "@ + text::join_view(v, ", "@), s)
}

/// The first `m` fields of the joined aggregate.
pub open spec fn joined_fields_s(live: Seq<TipView>, m: nat, s: LlSt) -> Result<
    (Seq<PieceView>, LlSt),
    LlvmErrorView,
>
    decreases m,
{
    if m == 0 {
        Ok((Seq::empty(), s))
    } else {
        match joined_fields_s(live, (m - 1) as nat, s) {
            Ok((out, s1)) => match incoming_field(live, m - 1, live.len()) {
                Ok(v) => {
                    let (t, s2) = phi_s(v, s1);
                    Ok((out.push(PieceView::Val(t)), s2))
                },
                Err(e) => Err(e),
            },
            Err(e) => Err(e),
        }
    }
}

/// The aggregate after a branch: each field is that of the branch that control
/// comes from, and so is the tag, where branches differ in it. There are as many
/// fields as the widest branch has.
pub open spec fn joined_s(live: Seq<TipView>, tag: Seq<char>, s: LlSt) -> Result<
    (PieceView, LlSt),
    LlvmErrorView,
> {
    match joined_fields_s(live, widest(live, live.len()), s) {
        Ok((v, s1)) => if one_tag(live, tag) {
            Ok((PieceView::Tuple { tag, fields: v }, s1))
        } else {
            match incoming_tags(live, live.len()) {
                Ok(w) => {
                    let (t, s2) = phi_s(w, s1);
                    Ok((PieceView::Tuple { tag: t, fields: v }, s2))
                },
                Err(e) => Err(e),
            }
        },
        Err(e) => Err(e),
    }
}

/// The value after a branch: that of the only branch that control comes out of,
/// or one chosen by where control comes from.
#[verifier::opaque]
pub open spec fn merge_s(label: Seq<char>, arms: Seq<TipView>, s: LlSt) -> Result<
    (PieceView, LlSt),
    LlvmErrorView,
> {
    let live = live_arms(arms, arms.len());
    if live.len() == 0 {
        Ok((PieceView::Returned, s))
    } else {
        let s1 = llvm_text::block(s, label);
        if live.len() == 1 {
            Ok((live[0].item, s1))
        } else {
            match live[0].item {
                PieceView::Val(_) | PieceView::Unit => match incoming(live, live.len()) {
                    Ok(v) => {
                        let (t, s2) = phi_s(v, s1);
                        Ok((PieceView::Val(t), s2))
                    },
                    Err(e) => Err(e),
                },
                PieceView::Tuple { tag, fields } => joined_s(live, tag, s1),
                x => Err(llvm_text::refused("cannot merge branch result "@ + llvm_text::item_text(x))),
            }
        }
    }
}

proof fn lemma_incoming_fail(live: Seq<TipView>, i: nat, n: nat)
    requires
        i <= n,
        incoming(live, i) is Err,
    ensures
        incoming(live, n) == incoming(live, i),
    decreases n - i,
{
    if i < n {
        assert(incoming(live, i + 1) == incoming(live, i));
        lemma_incoming_fail(live, i + 1, n);
    }
}

proof fn lemma_field_fail(live: Seq<TipView>, f: int, i: nat, n: nat)
    requires
        i <= n,
        incoming_field(live, f, i) is Err,
    ensures
        incoming_field(live, f, n) == incoming_field(live, f, i),
    decreases n - i,
{
    if i < n {
        assert(incoming_field(live, f, i + 1) == incoming_field(live, f, i));
        lemma_field_fail(live, f, i + 1, n);
    }
}

proof fn lemma_tags_fail(live: Seq<TipView>, i: nat, n: nat)
    requires
        i <= n,
        incoming_tags(live, i) is Err,
    ensures
        incoming_tags(live, n) == incoming_tags(live, i),
    decreases n - i,
{
    if i < n {
        assert(incoming_tags(live, i + 1) == incoming_tags(live, i));
        lemma_tags_fail(live, i + 1, n);
    }
}

proof fn lemma_joined_fail(live: Seq<TipView>, i: nat, n: nat, s: LlSt)
    requires
        i <= n,
        joined_fields_s(live, i, s) is Err,
    ensures
        joined_fields_s(live, n, s) == joined_fields_s(live, i, s),
    decreases n - i,
{
    if i < n {
        assert(joined_fields_s(live, i + 1, s) == joined_fields_s(live, i, s));
        lemma_joined_fail(live, i + 1, n, s);
    }
}

fn unmergeable(x: &Piece) -> (r: LlvmError)
    ensures
        r@ == llvm_text::refused("cannot merge branch result "@ + llvm_text::item_text(x@)),
{
    let shown = show_item(x);
    let text = {
        let mut x = "cannot merge branch result ".to_owned();
        x.append(shown.as_str());
        x
    };
    LlvmError::Unsupported(text)
}

fn pair(v: &str, label: &str) -> (r: String)
    ensures
        r@ == from_block(v@, label@),
{
    {
        let mut x = "[ ".to_owned();
        x.append(v);
        x.append(", %");
        x.append(label);
        x.append(" ]");
        x
    }
}

fn keep_live(arms: Vec<Tip>) -> (r: Vec<Tip>)
    ensures
        arm_ends(r@) == live_arms(arm_ends(arms@), arms@.len()),
{
    let ghost all = arm_ends(arms@);
    let mut out: Vec<Tip> = Vec::new();
    let mut i: usize = 0;
    assert(arm_ends(out@) =~= Seq::empty());
    while i < arms.len()
        invariant
            i <= arms@.len(),
            all == arm_ends(arms@),
            arm_ends(out@) == live_arms(all, i as nat),
        decreases arms@.len() - i,
    {
        assert(all[i as int] == arms@[i as int]@);
        if arms[i].live {
            let ghost before = out@;
            let a = Tip {
                item: arms[i].item.clone(),
                end: arms[i].end.as_str().to_owned(),
                live: true,
            };
            let ghost av = a@;
            out.push(a);
            assert(arm_ends(out@) =~= arm_ends(before).push(av));
        }
        i = i + 1;
    }
    out
}

fn incoming_words(live: &Vec<Tip>) -> (r: Result<Vec<String>, LlvmError>)
    ensures
        match incoming(arm_ends(live@), live@.len()) {
            Ok(v) => r is Ok && text::strings_view(r->Ok_0@) == v,
            Err(e) => r is Err && r->Err_0@ == e,
        },
{
    let ghost all = arm_ends(live@);
    let mut out: Vec<String> = Vec::new();
    let mut i: usize = 0;
    assert(text::strings_view(out@) =~= Seq::empty());
    while i < live.len()
        invariant
            i <= live@.len(),
            all == arm_ends(live@),
            incoming(all, i as nat) == Ok::<Seq<Seq<char>>, LlvmErrorView>(text::strings_view(out@)),
        decreases live@.len() - i,
    {
        assert(all[i as int] == live@[i as int]@);
        let ghost before = out@;
        let text = match &live[i].item {
            Piece::Val(v) => pair(v.as_str(), live[i].end.as_str()),
            Piece::Unit => pair("0", live[i].end.as_str()),
            _ => {
                proof {
                    lemma_incoming_fail(all, (i + 1) as nat, live@.len());
                }
                return Err(unmergeable(&live[i].item));
            },
        };
        let ghost xv = text@;
        out.push(text);
        assert(text::strings_view(out@) =~= text::strings_view(before).push(xv));
        i = i + 1;
    }
    Ok(out)
}

fn word_of(x: &Piece) -> (r: Result<String, LlvmError>)
    ensures
        match flat_word(x@) {
            Ok(v) => r is Ok && r->Ok_0@ == v,
            Err(e) => r is Err && r->Err_0@ == e,
        },
{
    match x {
        Piece::Val(v) => Ok(v.as_str().to_owned()),
        Piece::Unit => Ok("0".to_owned()),
        Piece::Returned => Err(refuse("returned value used")),
        Piece::Partial { func: _, got: _ } => Err(refuse("partially applied function escaped")),
        _ => Err(unmergeable(x)),
    }
}

fn field_words(live: &Vec<Tip>, f: usize) -> (r: Result<Vec<String>, LlvmError>)
    ensures
        match incoming_field(arm_ends(live@), f as int, live@.len()) {
            Ok(v) => r is Ok && text::strings_view(r->Ok_0@) == v,
            Err(e) => r is Err && r->Err_0@ == e,
        },
{
    broadcast use llvm_text::lemma_pieces_view;

    let ghost all = arm_ends(live@);
    let mut out: Vec<String> = Vec::new();
    let mut i: usize = 0;
    assert(text::strings_view(out@) =~= Seq::empty());
    while i < live.len()
        invariant
            i <= live@.len(),
            all == arm_ends(live@),
            incoming_field(all, f as int, i as nat) == Ok::<Seq<Seq<char>>, LlvmErrorView>(
                text::strings_view(out@),
            ),
        decreases live@.len() - i,
    {
        assert(all[i as int] == live@[i as int]@);
        let ghost before = out@;
        let word = match &live[i].item {
            Piece::Tuple { tag: _, fields } => {
                if f < fields.len() {
                    assert(llvm_text::pieces_view(fields@)[f as int] == fields@[f as int]@);
                    word_of(&fields[f])
                } else {
                    word_of(&Piece::Unit)
                }
            },
            _ => Err(refuse("branch tuple/non-tuple mismatch")),
        };
        match word {
            Ok(v) => {
                let text = pair(v.as_str(), live[i].end.as_str());
                let ghost xv = text@;
                out.push(text);
                assert(text::strings_view(out@) =~= text::strings_view(before).push(xv));
            },
            Err(e) => {
                proof {
                    lemma_field_fail(all, f as int, (i + 1) as nat, live@.len());
                }
                return Err(e);
            },
        }
        i = i + 1;
    }
    Ok(out)
}

fn tag_words(live: &Vec<Tip>) -> (r: Result<Vec<String>, LlvmError>)
    ensures
        match incoming_tags(arm_ends(live@), live@.len()) {
            Ok(v) => r is Ok && text::strings_view(r->Ok_0@) == v,
            Err(e) => r is Err && r->Err_0@ == e,
        },
{
    let ghost all = arm_ends(live@);
    let mut out: Vec<String> = Vec::new();
    let mut i: usize = 0;
    assert(text::strings_view(out@) =~= Seq::empty());
    while i < live.len()
        invariant
            i <= live@.len(),
            all == arm_ends(live@),
            incoming_tags(all, i as nat) == Ok::<Seq<Seq<char>>, LlvmErrorView>(
                text::strings_view(out@),
            ),
        decreases live@.len() - i,
    {
        assert(all[i as int] == live@[i as int]@);
        let ghost before = out@;
        let text = match &live[i].item {
            Piece::Tuple { tag, fields: _ } => pair(tag.as_str(), live[i].end.as_str()),
            _ => {
                proof {
                    lemma_tags_fail(all, (i + 1) as nat, live@.len());
                }
                return Err(refuse("branch tuple/non-tuple mismatch"));
            },
        };
        let ghost xv = text@;
        out.push(text);
        assert(text::strings_view(out@) =~= text::strings_view(before).push(xv));
        i = i + 1;
    }
    Ok(out)
}

fn widest_of(live: &Vec<Tip>) -> (r: usize)
    ensures
        r == widest(arm_ends(live@), live@.len()),
{
    broadcast use llvm_text::lemma_pieces_view;

    let ghost all = arm_ends(live@);
    let mut most: usize = 0;
    let mut i: usize = 0;
    while i < live.len()
        invariant
            i <= live@.len(),
            all == arm_ends(live@),
            most == widest(all, i as nat),
        decreases live@.len() - i,
    {
        assert(all[i as int] == live@[i as int]@);
        if let Piece::Tuple { tag: _, fields } = &live[i].item {
            if fields.len() > most {
                most = fields.len();
            }
        }
        i = i + 1;
    }
    most
}

fn have_one_tag(live: &Vec<Tip>, tag: &str) -> (r: bool)
    ensures
        r == one_tag(arm_ends(live@), tag@),
{
    let ghost all = arm_ends(live@);
    let mut i: usize = 0;
    while i < live.len()
        invariant
            i <= live@.len(),
            all == arm_ends(live@),
            forall|k: int| 0 <= k < i ==> has_tag((#[trigger] all[k]).item, tag@),
        decreases live@.len() - i,
    {
        assert(all[i as int] == live@[i as int]@);
        let fits = match &live[i].item {
            Piece::Tuple { tag: t, fields: _ } => str_eq(t.as_str(), tag),
            _ => false,
        };
        if !fits {
            assert(!has_tag(all[i as int].item, tag@));
            return false;
        }
        i = i + 1;
    }
    true
}

impl FuncBuilder {
    fn phi(&mut self, v: &Vec<String>) -> (r: String)
        ensures
            (r@, final(self)@) == phi_s(text::strings_view(v@), old(self)@),
    {
        let list = join(v, ", ");
        let text = {
            let mut x = " = phi i64 ".to_owned();
            x.append(list.as_str());
            x
        };
        self.make(text.as_str())
    }

    fn settled_fields(&mut self, fields: &Vec<Piece>) -> (r: Result<Vec<Piece>, LlvmError>)
        ensures
            match settled_fields_s(llvm_text::pieces_view(fields@), fields@.len(), old(self)@) {
                Ok((v, s)) => r is Ok && llvm_text::pieces_view(r->Ok_0@) == v && final(self)@ == s,
                Err(e) => r is Err && r->Err_0@ == e,
            },
    {
        broadcast use llvm_text::lemma_pieces_view;

        let ghost s0 = self@;
        let ghost all = llvm_text::pieces_view(fields@);
        let mut out: Vec<Piece> = Vec::new();
        let mut i: usize = 0;
        assert(llvm_text::pieces_view(out@) =~= Seq::empty());
        while i < fields.len()
            invariant
                i <= fields@.len(),
                s0 == old(self)@,
                all == llvm_text::pieces_view(fields@),
                settled_fields_s(all, i as nat, s0) == Ok::<(Seq<PieceView>, LlSt), LlvmErrorView>(
                    (llvm_text::pieces_view(out@), self@),
                ),
            decreases fields@.len() - i,
        {
            let ghost before = out@;
            assert(all[i as int] == fields@[i as int]@);
            let x = match &fields[i] {
                Piece::Tuple { tag: _, fields: _ } => match self.as_word(&fields[i]) {
                    Ok(v) => Piece::Val(v),
                    Err(e) => {
                        proof {
                            lemma_settled_fail(all, (i + 1) as nat, fields@.len(), s0);
                        }
                        return Err(e);
                    },
                },
                other => other.clone(),
            };
            let ghost xv = x@;
            out.push(x);
            assert(llvm_text::pieces_view(out@) =~= llvm_text::pieces_view(before).push(xv));
            i = i + 1;
        }
        Ok(out)
    }

    pub fn settled(&mut self, x: Piece) -> (r: Result<Piece, LlvmError>)
        ensures
            llvm_text::ll_did_item(r, *final(self), settled_s(x@, old(self)@)),
    {
        match x {
            Piece::Tuple { tag, fields } => match self.settled_fields(&fields) {
                Ok(v) => Ok(Piece::Tuple { tag, fields: v }),
                Err(e) => Err(e),
            },
            other => Ok(other),
        }
    }

    fn joined_fields(&mut self, live: &Vec<Tip>, m: usize) -> (r: Result<Vec<Piece>, LlvmError>)
        ensures
            match joined_fields_s(arm_ends(live@), m as nat, old(self)@) {
                Ok((v, s)) => r is Ok && llvm_text::pieces_view(r->Ok_0@) == v && final(self)@ == s,
                Err(e) => r is Err && r->Err_0@ == e,
            },
    {
        broadcast use llvm_text::lemma_pieces_view;

        let ghost s0 = self@;
        let ghost all = arm_ends(live@);
        let mut out: Vec<Piece> = Vec::new();
        let mut i: usize = 0;
        assert(llvm_text::pieces_view(out@) =~= Seq::empty());
        while i < m
            invariant
                i <= m,
                s0 == old(self)@,
                all == arm_ends(live@),
                all.len() == live@.len(),
                joined_fields_s(all, i as nat, s0) == Ok::<(Seq<PieceView>, LlSt), LlvmErrorView>(
                    (llvm_text::pieces_view(out@), self@),
                ),
            decreases m - i,
        {
            let ghost before = out@;
            match field_words(live, i) {
                Ok(v) => {
                    let t = self.phi(&v);
                    let x = Piece::Val(t);
                    let ghost xv = x@;
                    out.push(x);
                    assert(llvm_text::pieces_view(out@) =~= llvm_text::pieces_view(before).push(xv));
                },
                Err(e) => {
                    proof {
                        lemma_joined_fail(all, (i + 1) as nat, m as nat, s0);
                    }
                    return Err(e);
                },
            }
            i = i + 1;
        }
        Ok(out)
    }

    fn joined(&mut self, live: &Vec<Tip>, tag: &str) -> (r: Result<Piece, LlvmError>)
        ensures
            llvm_text::ll_did_item(r, *final(self), joined_s(arm_ends(live@), tag@, old(self)@)),
    {
        let m = widest_of(live);
        let v = match self.joined_fields(live, m) {
            Ok(v) => v,
            Err(e) => {
                return Err(e);
            },
        };
        if have_one_tag(live, tag) {
            return Ok(Piece::Tuple { tag: tag.to_owned(), fields: v });
        }
        let w = match tag_words(live) {
            Ok(w) => w,
            Err(e) => {
                return Err(e);
            },
        };
        let t = self.phi(&w);
        Ok(Piece::Tuple { tag: t, fields: v })
    }

    pub fn merge_slots(&mut self, label: &str, arms: Vec<Tip>) -> (r: Result<Piece, LlvmError>)
        ensures
            llvm_text::ll_did_item(r, *final(self), merge_s(label@, arm_ends(arms@), old(self)@)),
    {
        reveal(merge_s);
        broadcast use llvm_text::lemma_pieces_view;

        let live = keep_live(arms);
        let ghost all = arm_ends(live@);
        assert(all.len() == live@.len());
        if live.len() == 0 {
            return Ok(Piece::Returned);
        }
        assert(all[0] == live@[0]@);
        self.push_label(label);
        if live.len() == 1 {
            return Ok(live[0].item.clone());
        }
        match &live[0].item {
            Piece::Val(_) | Piece::Unit => {
                let v = match incoming_words(&live) {
                    Ok(v) => v,
                    Err(e) => {
                        return Err(e);
                    },
                };
                let t = self.phi(&v);
                Ok(Piece::Val(t))
            },
            Piece::Tuple { tag, fields: _ } => self.joined(&live, tag.as_str()),
            _ => Err(unmergeable(&live[0].item)),
        }
    }
}

} // verus!
