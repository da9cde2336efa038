//! Machine-independent code for the native backend.
//!
//! A function is a list of steps for an SSA builder. Values and blocks are
//! numbered in the order in which the steps make them; the parameters of a
//! function are its first values, and its first block is number 0.
use vstd::prelude::*;
use vstd::string::*;

use crate::indices;
use crate::indices::deeper;
use crate::ir::{Branch, Type, TypeView};
use crate::ops;
use crate::syntax::Param;
use crate::table::Table;
use crate::text;
use crate::text::push_decimal;
use crate::world;

verus! {

/// Why a program was not compiled or run.
#[derive(Debug, PartialEq, Eq)]
pub enum CodegenError {
    /// A construct that is not lowered.
    Unsupported(String),
    /// A reference to something that is no function of the program.
    UnknownGlobal(crate::ir::Hash),
    /// There is no such entry point.
    NoSuchEntry(String),
    /// An entry was given another number of arguments than it takes.
    ArgCount { expected: usize, got: usize },
    /// The machine is not supported, or the code generator failed.
    Backend(String),
}

/// The mathematical counterpart of [`CodegenError`].
pub enum CodegenErrorView {
    Unsupported(Seq<char>),
    UnknownGlobal(Seq<u8>),
    NoSuchEntry(Seq<char>),
    ArgCount { expected: usize, got: usize },
    Backend(Seq<char>),
}

impl View for CodegenError {
    type V = CodegenErrorView;

    open spec fn view(&self) -> CodegenErrorView {
        match self {
            CodegenError::Unsupported(s) => CodegenErrorView::Unsupported(s@),
            CodegenError::UnknownGlobal(h) => CodegenErrorView::UnknownGlobal(h@),
            CodegenError::NoSuchEntry(s) => CodegenErrorView::NoSuchEntry(s@),
            CodegenError::ArgCount { expected, got } => CodegenErrorView::ArgCount {
                expected: *expected,
                got: *got,
            },
            CodegenError::Backend(s) => CodegenErrorView::Backend(s@),
        }
    }
}

/// The text of an error.
pub open spec fn codegen_error_text(e: CodegenErrorView) -> Seq<char> {
    match e {
        CodegenErrorView::Unsupported(d) => ("cranelift backend: unsupported: "@ + d),
        CodegenErrorView::UnknownGlobal(h) => "cranelift backend: unknown global "@ + ("b3:"@
            + ops::hex_view(h)),
        CodegenErrorView::NoSuchEntry(e) => ("cranelift backend: no entry point `"@ + e + "`"@),
        CodegenErrorView::ArgCount { expected, got } =>
            ("cranelift backend: entry expects "@ + text::decimal(expected as nat) + " argument(s), got "@ + text::decimal(got as nat)),
        CodegenErrorView::Backend(m) => ("cranelift backend: "@ + m),
    }
}

impl CodegenError {
    /// The text of an error.
    pub fn message(&self) -> (r: String)
        ensures
            r@ == codegen_error_text(self@),
    {
        match self {
            CodegenError::Unsupported(d) => {
                let mut x = "cranelift backend: unsupported: ".to_owned();
                x.append(d.as_str());
                x
            },
            CodegenError::UnknownGlobal(h) => {
                let mut s = "cranelift backend: unknown global ".to_owned();
                s.append(h.to_b3().as_str());
                s
            },
            CodegenError::NoSuchEntry(e) => {
                let mut x = "cranelift backend: no entry point `".to_owned();
                x.append(e.as_str());
                x.append("`");
                x
            },
            CodegenError::ArgCount { expected, got } => {
                let mut s = "cranelift backend: entry expects ".to_owned();
                push_decimal(&mut s, *expected as u64);
                s.append(" argument(s), got ");
                push_decimal(&mut s, *got as u64);
                s
            },
            CodegenError::Backend(m) => {
                let mut x = "cranelift backend: ".to_owned();
                x.append(m.as_str());
                x
            },
        }
    }
}

pub open spec fn cl_refused(m: Seq<char>) -> CodegenErrorView {
    CodegenErrorView::Unsupported(m)
}

pub fn cl_refuse(m: &str) -> (r: CodegenError)
    ensures
        r@ == cl_refused(m@),
{
    CodegenError::Unsupported(m.to_owned())
}

// ---- steps -----------------------------------------------------------------------------------------

/// Operations on two words.
#[derive(Debug, Clone, Copy, PartialEq, Eq, Structural)]
pub enum Binary {
    Add,
    Sub,
    Mul,
    Div,
    Rem,
    And,
    Or,
}

/// Operations on a word and a constant.
#[derive(Debug, Clone, Copy, PartialEq, Eq, Structural)]
pub enum WithImm {
    Add,
    Mul,
    Xor,
    Shl,
    ShrSigned,
    ShrUnsigned,
}

/// Relations between words.
#[derive(Debug, Clone, Copy, PartialEq, Eq, Structural)]
pub enum Relation {
    Equal,
    NotEqual,
    SignedLess,
    SignedLessOrEqual,
    SignedGreater,
    SignedGreaterOrEqual,
    UnsignedLess,
}

/// A step of building a function.
#[derive(Debug, PartialEq, Eq)]
pub enum Step {
    /// A new value: a constant.
    Const(i64),
    /// A new value.
    Binary(Binary, u32, u32),
    /// A new value.
    WithImm(WithImm, u32, i64),
    /// A new value: the negative.
    Negate(u32),
    /// A new value: a truth value, not yet a word.
    Compare(Relation, u32, u32),
    /// A new value: a truth value as a word.
    Widen(u32),
    /// A new value: the low half of a word.
    Narrow(u32),
    /// A new value: the word at an offset from an address.
    Load(u32, i32),
    /// A word (first) stored at an offset from an address (second).
    Store(u32, u32, i32),
    /// A new value: as many words of memory as a value says.
    Alloc(u32),
    /// A new value: the result of a call of the function at that position.
    Call(usize, Vec<u32>),
    /// The report that a position is outside a length; it does not come back.
    BoundsFail(u32, u32),
    /// A new block.
    Block,
    /// A new value: a further parameter of a block.
    Param(u32),
    /// Go on in a block.
    Switch(u32),
    /// All jumps to a block are known.
    Seal(u32),
    Jump(u32, Vec<u32>),
    /// To the first block without arguments, or to the second with arguments.
    Branch(u32, u32, u32, Vec<u32>),
    /// To one of the blocks by number, else to the last one.
    Table(u32, Vec<u32>, u32),
    Trap,
    Return(u32),
}

/// The mathematical counterpart of [`Step`].
#[verifier::ext_equal]
pub enum StepView {
    Const(i64),
    Binary(Binary, u32, u32),
    WithImm(WithImm, u32, i64),
    Negate(u32),
    Compare(Relation, u32, u32),
    Widen(u32),
    Narrow(u32),
    Load(u32, i32),
    Store(u32, u32, i32),
    Alloc(u32),
    Call(usize, Seq<u32>),
    BoundsFail(u32, u32),
    Block,
    Param(u32),
    Switch(u32),
    Seal(u32),
    Jump(u32, Seq<u32>),
    Branch(u32, u32, u32, Seq<u32>),
    Table(u32, Seq<u32>, u32),
    Trap,
    Return(u32),
}

impl View for Step {
    type V = StepView;

    open spec fn view(&self) -> StepView {
        match self {
            Step::Const(n) => StepView::Const(*n),
            Step::Binary(op, a, b) => StepView::Binary(*op, *a, *b),
            Step::WithImm(op, a, n) => StepView::WithImm(*op, *a, *n),
            Step::Negate(a) => StepView::Negate(*a),
            Step::Compare(r, a, b) => StepView::Compare(*r, *a, *b),
            Step::Widen(a) => StepView::Widen(*a),
            Step::Narrow(a) => StepView::Narrow(*a),
            Step::Load(a, at) => StepView::Load(*a, *at),
            Step::Store(v, a, at) => StepView::Store(*v, *a, *at),
            Step::Alloc(n) => StepView::Alloc(*n),
            Step::Call(f, args) => StepView::Call(*f, args@),
            Step::BoundsFail(i, n) => StepView::BoundsFail(*i, *n),
            Step::Block => StepView::Block,
            Step::Param(b) => StepView::Param(*b),
            Step::Switch(b) => StepView::Switch(*b),
            Step::Seal(b) => StepView::Seal(*b),
            Step::Jump(b, args) => StepView::Jump(*b, args@),
            Step::Branch(c, yes, no, args) => StepView::Branch(*c, *yes, *no, args@),
            Step::Table(v, blocks, other) => StepView::Table(*v, blocks@, *other),
            Step::Trap => StepView::Trap,
            Step::Return(v) => StepView::Return(*v),
        }
    }
}

pub open spec fn steps_view(v: Seq<Step>) -> Seq<StepView> {
    Seq::new(v.len(), |i: int| v[i]@)
}

// ---- values -----------------------------------------------------------------------------------------

/// What a term has become: a value, nothing, a call that lacks arguments, or an
/// aggregate.
#[derive(Debug, PartialEq, Eq)]
pub enum Reg {
    Val(u32),
    Unit,
    Partial { func: crate::ir::Hash, got: Vec<Reg> },
    Tuple { tag: u32, fields: Vec<Reg> },
}

/// The mathematical counterpart of [`Reg`].
#[verifier::ext_equal]
pub enum RegValue {
    Val(u32),
    Unit,
    Partial { func: Seq<u8>, got: Seq<RegValue> },
    Tuple { tag: u32, fields: Seq<RegValue> },
}

impl Reg {
    pub open spec fn model(self) -> RegValue
        decreases self,
    {
        match self {
            Reg::Val(v) => RegValue::Val(v),
            Reg::Unit => RegValue::Unit,
            Reg::Partial { func, got } => RegValue::Partial { func: func@, got: regs_view(got@) },
            Reg::Tuple { tag, fields } => RegValue::Tuple { tag, fields: regs_view(fields@) },
        }
    }
}

/// The counterpart of a list of values, member by member.
pub open spec fn regs_view(v: Seq<Reg>) -> Seq<RegValue>
    decreases v,
{
    Seq::new(
        v.len(),
        |i: int|
            if 0 <= i < v.len() {
                v[i].model()
            } else {
                RegValue::Unit
            },
    )
}

impl View for Reg {
    type V = RegValue;

    open spec fn view(&self) -> RegValue {
        self.model()
    }
}

/// Each member of a list's counterpart is the counterpart of the member.
pub broadcast proof fn lemma_regs_view(v: Seq<Reg>)
    ensures
        (#[trigger] regs_view(v)).len() == v.len(),
        forall|i: int| 0 <= i < v.len() ==> #[trigger] regs_view(v)[i] == v[i]@,
{
    assert forall|i: int| 0 <= i < v.len() implies #[trigger] regs_view(v)[i] == v[i]@ by {
        assert(v[i]@ == v[i].model());
    }
}

impl Clone for Reg {
    fn clone(&self) -> (r: Self)
        ensures
            r@ == self@,
        decreases self,
    {
        match self {
            Reg::Val(v) => Reg::Val(*v),
            Reg::Unit => Reg::Unit,
            Reg::Partial { func, got } => Reg::Partial { func: *func, got: clone_regs(got) },
            Reg::Tuple { tag, fields } => Reg::Tuple { tag: *tag, fields: clone_regs(fields) },
        }
    }
}

fn clone_regs(v: &Vec<Reg>) -> (r: Vec<Reg>)
    ensures
        regs_view(r@) == regs_view(v@),
    decreases v@,
{
    let mut out: Vec<Reg> = Vec::new();
    let mut i: usize = 0;
    while i < v.len()
        invariant
            i <= v@.len(),
            out@.len() == i,
            forall|k: int| 0 <= k < i ==> #[trigger] out@[k]@ == v@[k]@,
        decreases v@.len() - i,
    {
        let c = v[i].clone();
        out.push(c);
        i = i + 1;
    }
    broadcast use lemma_regs_view;

    assert(regs_view(out@) =~= regs_view(v@));
    out
}

// ---- the function being built ----------------------------------------------------------------------------

/// A function under construction: its steps, the binders in scope with their
/// types, and the next numbers of a value and of a block.
pub struct StepBuilder {
    pub steps: Vec<Step>,
    pub env: Vec<Reg>,
    pub tys: Vec<Option<Type>>,
    pub values: u32,
    pub blocks: u32,
}

/// The mathematical counterpart of [`StepBuilder`].
#[verifier::ext_equal]
pub struct ClSt {
    pub steps: Seq<StepView>,
    pub env: Seq<RegValue>,
    pub tys: Seq<Option<TypeView>>,
    pub values: u32,
    pub blocks: u32,
}

impl View for StepBuilder {
    type V = ClSt;

    open spec fn view(&self) -> ClSt {
        ClSt {
            steps: steps_view(self.steps@),
            env: regs_view(self.env@),
            tys: world::opt_types_view(self.tys@),
            values: self.values,
            blocks: self.blocks,
        }
    }
}

/// A step that makes nothing.
pub open spec fn act(s: ClSt, x: StepView) -> ClSt {
    ClSt { steps: s.steps.push(x), ..s }
}

/// A step that makes a value.
pub open spec fn gain(s: ClSt, x: StepView) -> (u32, ClSt) {
    (s.values, ClSt { steps: s.steps.push(x), values: indices::add32(s.values, 1), ..s })
}

/// A new block.
pub open spec fn fork(s: ClSt) -> (u32, ClSt) {
    (s.blocks, ClSt { steps: s.steps.push(StepView::Block), blocks: indices::add32(s.blocks, 1), ..s })
}

/// Go on in a block that no further jump leads to.
pub open spec fn at_sealed(s: ClSt, b: u32) -> ClSt {
    act(act(s, StepView::Switch(b)), StepView::Seal(b))
}

impl StepBuilder {
    pub fn emit(&mut self, x: Step)
        ensures
            final(self)@ == act(old(self)@, x@),
    {
        let ghost before = self.steps@;
        let ghost xv = x@;
        self.steps.push(x);
        assert(steps_view(self.steps@) =~= steps_view(before).push(xv));
    }

    pub fn value(&mut self, x: Step) -> (r: u32)
        ensures
            (r, final(self)@) == gain(old(self)@, x@),
    {
        let n = self.values;
        self.emit(x);
        self.values = deeper(n, 1);
        n
    }

    pub fn block(&mut self) -> (r: u32)
        ensures
            (r, final(self)@) == fork(old(self)@),
    {
        let n = self.blocks;
        self.emit(Step::Block);
        self.blocks = deeper(n, 1);
        n
    }

    pub fn go_sealed(&mut self, b: u32)
        ensures
            final(self)@ == at_sealed(old(self)@, b),
    {
        self.emit(Step::Switch(b));
        self.emit(Step::Seal(b));
    }
}

/// The offset of word `i` after the header of a block.
pub open spec fn field_at_offset(i: nat) -> i32 {
    ((((i as usize) as u128 + 1) * 8) as u128) as i32
}

pub fn field_offset(i: usize) -> (r: i32)
    ensures
        r == field_at_offset(i as nat),
{
    let b: u128 = (i as u128 + 1) * 8;
    b as i32
}

/// How many words a block with `n` fields has.
pub open spec fn block_words(n: nat) -> i64 {
    (((n as usize) as u128 + 1) as u128) as i64
}

pub fn block_words_of(n: usize) -> (r: i64)
    ensures
        r == block_words(n as nat),
{
    let b: u128 = n as u128 + 1;
    b as i64
}

// ---- words --------------------------------------------------------------------------------------------------

/// The word of a value: an aggregate becomes a block of memory.
pub open spec fn reg_word_s(x: RegValue, s: ClSt) -> Result<(u32, ClSt), CodegenErrorView>
    decreases x, 1nat, 0nat,
{
    match x {
        RegValue::Val(v) => Ok((v, s)),
        RegValue::Unit => Ok(gain(s, StepView::Const(0))),
        RegValue::Partial { func, got } => Err(
            cl_refused("a partially-applied function used as a value"@),
        ),
        RegValue::Tuple { tag, fields } => {
            let (n, s1) = gain(s, StepView::Const(block_words(fields.len())));
            let (base, s2) = gain(s1, StepView::Alloc(n));
            let (t, s3) = gain(s2, StepView::Const(tag as i64));
            match reg_fields_s(fields, fields.len(), base, act(s3, StepView::Store(t, base, 0))) {
                Ok(s4) => Ok((base, s4)),
                Err(e) => Err(e),
            }
        },
    }
}

/// The first `n` fields of a block, stored.
pub open spec fn reg_fields_s(fields: Seq<RegValue>, n: nat, base: u32, s: ClSt) -> Result<
    ClSt,
    CodegenErrorView,
>
    decreases fields, 0nat, n,
{
    if n == 0 || n > fields.len() {
        Ok(s)
    } else {
        match reg_fields_s(fields, (n - 1) as nat, base, s) {
            Ok(s1) => match reg_word_s(fields[n - 1], s1) {
                Ok((w, s2)) => Ok(
                    act(s2, StepView::Store(w, base, field_at_offset((n - 1) as nat))),
                ),
                Err(e) => Err(e),
            },
            Err(e) => Err(e),
        }
    }
}

/// The words of the first `n` values.
pub open spec fn reg_words_s(v: Seq<RegValue>, n: nat, s: ClSt) -> Result<
    (Seq<u32>, ClSt),
    CodegenErrorView,
>
    decreases n,
{
    if n == 0 {
        Ok((Seq::empty(), s))
    } else {
        match reg_words_s(v, (n - 1) as nat, s) {
            Ok((out, s1)) => match reg_word_s(v[n - 1], s1) {
                Ok((w, s2)) => Ok((out.push(w), s2)),
                Err(e) => Err(e),
            },
            Err(e) => Err(e),
        }
    }
}

proof fn lemma_reg_fields_fail(fields: Seq<RegValue>, i: nat, n: nat, base: u32, s: ClSt)
    requires
        i <= n <= fields.len(),
        reg_fields_s(fields, i, base, s) is Err,
    ensures
        reg_fields_s(fields, n, base, s) == reg_fields_s(fields, i, base, s),
    decreases n - i,
{
    if i < n {
        assert(reg_fields_s(fields, i + 1, base, s) == reg_fields_s(fields, i, base, s));
        lemma_reg_fields_fail(fields, i + 1, n, base, s);
    }
}

proof fn lemma_reg_words_fail(v: Seq<RegValue>, i: nat, n: nat, s: ClSt)
    requires
        i <= n,
        reg_words_s(v, i, s) is Err,
    ensures
        reg_words_s(v, n, s) == reg_words_s(v, i, s),
    decreases n - i,
{
    if i < n {
        assert(reg_words_s(v, i + 1, s) == reg_words_s(v, i, s));
        lemma_reg_words_fail(v, i + 1, n, s);
    }
}

/// What a step that leaves a word did: `want`.
pub open spec fn did_reg_word(
    r: Result<u32, CodegenError>,
    b: StepBuilder,
    want: Result<(u32, ClSt), CodegenErrorView>,
) -> bool {
    match want {
        Ok((v, s)) => r is Ok && r->Ok_0 == v && b@ == s,
        Err(e) => r is Err && r->Err_0@ == e,
    }
}

/// What a step did: `want`.
pub open spec fn did_act(
    r: Result<(), CodegenError>,
    b: StepBuilder,
    want: Result<ClSt, CodegenErrorView>,
) -> bool {
    match want {
        Ok(s) => r is Ok && b@ == s,
        Err(e) => r is Err && r->Err_0@ == e,
    }
}

/// What a step that leaves a value did: `want`.
pub open spec fn did_reg(
    r: Result<Reg, CodegenError>,
    b: StepBuilder,
    want: Result<(RegValue, ClSt), CodegenErrorView>,
) -> bool {
    match want {
        Ok((x, s)) => r is Ok && r->Ok_0@ == x && b@ == s,
        Err(e) => r is Err && r->Err_0@ == e,
    }
}

impl StepBuilder {
    pub fn as_word(&mut self, x: &Reg) -> (r: Result<u32, CodegenError>)
        ensures
            did_reg_word(r, *final(self), reg_word_s(x@, old(self)@)),
        decreases x, 1nat,
    {
        broadcast use lemma_regs_view;

        match x {
            Reg::Val(v) => Ok(*v),
            Reg::Unit => Ok(self.value(Step::Const(0))),
            Reg::Partial { func: _, got: _ } => Err(
                cl_refuse("a partially-applied function used as a value"),
            ),
            Reg::Tuple { tag, fields } => {
                let n = self.value(Step::Const(block_words_of(fields.len())));
                let base = self.value(Step::Alloc(n));
                let t = self.value(Step::Const(*tag as i64));
                self.emit(Step::Store(t, base, 0));
                if let Err(e) = self.store_fields(fields, base) {
                    return Err(e);
                }
                Ok(base)
            },
        }
    }

    fn store_fields(&mut self, fields: &Vec<Reg>, base: u32) -> (r: Result<(), CodegenError>)
        ensures
            did_act(
                r,
                *final(self),
                reg_fields_s(regs_view(fields@), fields@.len(), base, old(self)@),
            ),
        decreases fields@, 0nat,
    {
        broadcast use lemma_regs_view;

        let ghost s0 = self@;
        let ghost fv = regs_view(fields@);
        let mut i: usize = 0;
        while i < fields.len()
            invariant
                i <= fields@.len(),
                fv == regs_view(fields@),
                fv.len() == fields@.len(),
                s0 == old(self)@,
                reg_fields_s(fv, i as nat, base, s0) == Ok::<ClSt, CodegenErrorView>(self@),
            decreases fields@.len() - i,
        {
            assert(fv[i as int] == fields@[i as int]@);
            match self.as_word(&fields[i]) {
                Ok(w) => {
                    self.emit(Step::Store(w, base, field_offset(i)));
                },
                Err(e) => {
                    proof {
                        lemma_reg_fields_fail(fv, (i + 1) as nat, fields@.len(), base, s0);
                    }
                    return Err(e);
                },
            }
            i = i + 1;
        }
        Ok(())
    }

    pub fn as_words(&mut self, v: &Vec<Reg>) -> (r: Result<Vec<u32>, CodegenError>)
        ensures
            match reg_words_s(regs_view(v@), v@.len(), old(self)@) {
                Ok((x, s)) => r is Ok && r->Ok_0@ == x && final(self)@ == s,
                Err(e) => r is Err && r->Err_0@ == e,
            },
    {
        broadcast use lemma_regs_view;

        let ghost s0 = self@;
        let ghost rv = regs_view(v@);
        let mut out: Vec<u32> = Vec::new();
        let mut i: usize = 0;
        assert(out@ =~= Seq::empty());
        while i < v.len()
            invariant
                i <= v@.len(),
                rv == regs_view(v@),
                s0 == old(self)@,
                reg_words_s(rv, i as nat, s0) == Ok::<(Seq<u32>, ClSt), CodegenErrorView>(
                    (out@, self@),
                ),
            decreases v@.len() - i,
        {
            assert(rv[i as int] == v@[i as int]@);
            match self.as_word(&v[i]) {
                Ok(w) => {
                    out.push(w);
                },
                Err(e) => {
                    proof {
                        lemma_reg_words_fail(rv, (i + 1) as nat, v@.len(), s0);
                    }
                    return Err(e);
                },
            }
            i = i + 1;
        }
        Ok(out)
    }
}

} // verus!
