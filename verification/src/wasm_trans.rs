//! Core terms to WebAssembly code.
//!
//! The functions whose names end in `_s` say what comes out of a term: what it
//! leaves behind, and the state with the instructions that were added. Calls are
//! curried in Core; arguments are collected at compile time until a call has all
//! of its own. An aggregate stays in locals as long as it can, and becomes a block
//! in memory where a single word is needed.
use vstd::prelude::*;
use vstd::string::*;

use crate::find;
use crate::indices;
use crate::indices::deeper;
use crate::ir;
use crate::ir::{Atom, AtomView, Literal, LiteralView, Type, TypeView};
use crate::ops;
use crate::text;
use crate::text::{push_decimal, str_eq};
use crate::wasm_code::Inst;
use crate::wasm_seq;
use crate::wasm_seq::{addr_code_of, bounds_code_of, bump_code_of, bump_dyn_code_of, commit_code_of, const_code_of, const_put_code_of, copy_code_of, copy_range_code_of, get_code_of, heap_code_of, load_put_code_of, plus_code_of, put_code_of, store_code_of, store_tag_code_of};
use crate::world;
use crate::world::{World, WorldView};

verus! {

// ---- errors -----------------------------------------------------------------------------------

/// Why a program was not compiled.
#[derive(Debug, PartialEq, Eq)]
pub enum WasmError {
    /// A construct that is not lowered.
    Unsupported(String),
    /// A reference to something that is no function of the program.
    UnknownGlobal(crate::ir::Hash),
    /// An operation whose capability is not known.
    UnresolvedCapability,
    /// There is no such entry point.
    NoSuchEntry(String),
    /// The module is not valid, in the validator's words.
    Invalid(String),
}

/// The mathematical counterpart of [`WasmError`].
pub enum WasmErrorView {
    Unsupported(Seq<char>),
    UnknownGlobal(Seq<u8>),
    UnresolvedCapability,
    NoSuchEntry(Seq<char>),
    Invalid(Seq<char>),
}

impl View for WasmError {
    type V = WasmErrorView;

    open spec fn view(&self) -> WasmErrorView {
        match self {
            WasmError::Unsupported(s) => WasmErrorView::Unsupported(s@),
            WasmError::UnknownGlobal(h) => WasmErrorView::UnknownGlobal(h@),
            WasmError::UnresolvedCapability => WasmErrorView::UnresolvedCapability,
            WasmError::NoSuchEntry(s) => WasmErrorView::NoSuchEntry(s@),
            WasmError::Invalid(s) => WasmErrorView::Invalid(s@),
        }
    }
}

/// The text of an error.
pub open spec fn wasm_error_text(e: WasmErrorView) -> Seq<char> {
    match e {
        WasmErrorView::Unsupported(d) => "wasm backend: unsupported: "@ + d,
        WasmErrorView::UnknownGlobal(h) => "wasm backend: unknown global "@ + ("b3:"@ + ops::hex_view(h)),
        WasmErrorView::UnresolvedCapability =>
            "wasm backend: could not resolve the capability of a `perform` to a declared cap"@,
        WasmErrorView::NoSuchEntry(e) => "wasm backend: no entry point `"@ + e + "`"@,
        WasmErrorView::Invalid(m) => "wasm backend: emitted an invalid module: "@ + m,
    }
}

impl WasmError {
    /// The text of an error.
    pub fn message(&self) -> (r: String)
        ensures
            r@ == wasm_error_text(self@),
    {
        match self {
            WasmError::Unsupported(d) => {
                let mut s = "wasm backend: unsupported: ".to_owned();
                s.append(d.as_str());
                s
            },
            WasmError::UnknownGlobal(h) => {
                let mut s = "wasm backend: unknown global ".to_owned();
                s.append(h.to_b3().as_str());
                s
            },
            WasmError::UnresolvedCapability => {
                "wasm backend: could not resolve the capability of a `perform` to a declared cap".to_owned()
            },
            WasmError::NoSuchEntry(e) => {
                let mut s = "wasm backend: no entry point `".to_owned();
                s.append(e.as_str());
                s.append("`");
                s
            },
            WasmError::Invalid(m) => {
                let mut s = "wasm backend: emitted an invalid module: ".to_owned();
                s.append(m.as_str());
                s
            },
        }
    }
}

pub open spec fn unsupported_view(m: Seq<char>) -> WasmErrorView {
    WasmErrorView::Unsupported(m)
}

pub fn unsupported(m: &str) -> (r: WasmError)
    ensures
        r@ == unsupported_view(m@),
{
    WasmError::Unsupported(m.to_owned())
}

// ---- values at compile time ------------------------------------------------------------------------

/// An argument that can be emitted anywhere in the function.
#[derive(Debug, PartialEq, Eq)]
pub enum ArgVal {
    Local(u32),
    Const(i64),
    Unit,
    /// An aggregate, made into a block where it is emitted.
    Boxed { tag: u32, fields: Vec<ArgVal> },
}

/// The mathematical counterpart of [`ArgVal`].
#[verifier::ext_equal]
pub enum ArgValView {
    Local(u32),
    Const(i64),
    Unit,
    Boxed { tag: u32, fields: Seq<ArgValView> },
}

impl ArgVal {
    pub open spec fn model(self) -> ArgValView
        decreases self,
    {
        match self {
            ArgVal::Local(l) => ArgValView::Local(l),
            ArgVal::Const(n) => ArgValView::Const(n),
            ArgVal::Unit => ArgValView::Unit,
            ArgVal::Boxed { tag, fields } => ArgValView::Boxed {
                tag,
                fields: argvals_view(fields@),
            },
        }
    }
}

/// The counterpart of a list of arguments, member by member.
pub open spec fn argvals_view(v: Seq<ArgVal>) -> Seq<ArgValView>
    decreases v,
{
    Seq::new(
        v.len(),
        |i: int|
            if 0 <= i < v.len() {
                v[i].model()
            } else {
                ArgValView::Unit
            },
    )
}

impl View for ArgVal {
    type V = ArgValView;

    open spec fn view(&self) -> ArgValView {
        self.model()
    }
}

/// Each member of a list's counterpart is the counterpart of the member.
pub broadcast proof fn lemma_argvals_view(v: Seq<ArgVal>)
    ensures
        (#[trigger] argvals_view(v)).len() == v.len(),
        forall|i: int| 0 <= i < v.len() ==> #[trigger] argvals_view(v)[i] == v[i]@,
{
    assert forall|i: int| 0 <= i < v.len() implies #[trigger] argvals_view(v)[i] == v[i]@ by {
        assert(v[i]@ == v[i].model());
    }
}

impl Clone for ArgVal {
    fn clone(&self) -> (r: Self)
        ensures
            r@ == self@,
        decreases self,
    {
        match self {
            ArgVal::Local(l) => ArgVal::Local(*l),
            ArgVal::Const(n) => ArgVal::Const(*n),
            ArgVal::Unit => ArgVal::Unit,
            ArgVal::Boxed { tag, fields } => ArgVal::Boxed {
                tag: *tag,
                fields: clone_argvals(fields),
            },
        }
    }
}

pub fn clone_argvals(v: &Vec<ArgVal>) -> (r: Vec<ArgVal>)
    ensures
        argvals_view(r@) == argvals_view(v@),
    decreases v@,
{
    let mut out: Vec<ArgVal> = Vec::new();
    let mut i: usize = 0;
    while i < v.len()
        invariant
            i <= v@.len(),
            out@.len() == i,
            forall|k: int| 0 <= k < i ==> #[trigger] out@[k]@ == v@[k]@,
        decreases v@.len() - i,
    {
        let c = v[i].clone();
        out.push(c);
        i = i + 1;
    }
    broadcast use lemma_argvals_view;

    assert(argvals_view(out@) =~= argvals_view(v@));
    out
}

/// What a binder is: a local, nothing, a call that lacks arguments, or an
/// aggregate whose fields are binders themselves.
#[derive(Debug, PartialEq, Eq)]
pub enum Slot {
    Local(u32),
    Unit,
    Partial { func: crate::ir::Hash, args: Vec<ArgVal> },
    Tuple { tag: u32, fields: Vec<Slot> },
}

/// The mathematical counterpart of [`Slot`].
#[verifier::ext_equal]
pub enum SlotView {
    Local(u32),
    Unit,
    Partial { func: Seq<u8>, args: Seq<ArgValView> },
    Tuple { tag: u32, fields: Seq<SlotView> },
}

impl Slot {
    pub open spec fn model(self) -> SlotView
        decreases self,
    {
        match self {
            Slot::Local(l) => SlotView::Local(l),
            Slot::Unit => SlotView::Unit,
            Slot::Partial { func, args } => SlotView::Partial {
                func: func@,
                args: argvals_view(args@),
            },
            Slot::Tuple { tag, fields } => SlotView::Tuple { tag, fields: slots_view(fields@) },
        }
    }
}

/// The counterpart of a list of binders, member by member.
pub open spec fn slots_view(v: Seq<Slot>) -> Seq<SlotView>
    decreases v,
{
    Seq::new(
        v.len(),
        |i: int|
            if 0 <= i < v.len() {
                v[i].model()
            } else {
                SlotView::Unit
            },
    )
}

impl View for Slot {
    type V = SlotView;

    open spec fn view(&self) -> SlotView {
        self.model()
    }
}

/// Each member of a list's counterpart is the counterpart of the member.
pub broadcast proof fn lemma_slots_view(v: Seq<Slot>)
    ensures
        (#[trigger] slots_view(v)).len() == v.len(),
        forall|i: int| 0 <= i < v.len() ==> #[trigger] slots_view(v)[i] == v[i]@,
{
    assert forall|i: int| 0 <= i < v.len() implies #[trigger] slots_view(v)[i] == v[i]@ by {
        assert(v[i]@ == v[i].model());
    }
}

impl Clone for Slot {
    fn clone(&self) -> (r: Self)
        ensures
            r@ == self@,
        decreases self,
    {
        match self {
            Slot::Local(l) => Slot::Local(*l),
            Slot::Unit => Slot::Unit,
            Slot::Partial { func, args } => Slot::Partial {
                func: *func,
                args: clone_argvals(args),
            },
            Slot::Tuple { tag, fields } => Slot::Tuple { tag: *tag, fields: clone_slots(fields) },
        }
    }
}

pub fn clone_slots(v: &Vec<Slot>) -> (r: Vec<Slot>)
    ensures
        slots_view(r@) == slots_view(v@),
    decreases v@,
{
    let mut out: Vec<Slot> = Vec::new();
    let mut i: usize = 0;
    while i < v.len()
        invariant
            i <= v@.len(),
            out@.len() == i,
            forall|k: int| 0 <= k < i ==> #[trigger] out@[k]@ == v@[k]@,
        decreases v@.len() - i,
    {
        let c = v[i].clone();
        out.push(c);
        i = i + 1;
    }
    broadcast use lemma_slots_view;

    assert(slots_view(out@) =~= slots_view(v@));
    out
}

/// What a term leaves behind: a word on the stack, nothing because the function
/// has returned, or a value known at compile time.
pub enum Out {
    Stack,
    Returned,
    Held(Slot),
}

/// The mathematical counterpart of [`Out`].
#[verifier::ext_equal]
pub enum OutView {
    Stack,
    Returned,
    Held(SlotView),
}

impl View for Out {
    type V = OutView;

    open spec fn view(&self) -> OutView {
        match self {
            Out::Stack => OutView::Stack,
            Out::Returned => OutView::Returned,
            Out::Held(s) => OutView::Held(s@),
        }
    }
}

// ---- the program around a function -------------------------------------------------------------------

/// A function of the program: the hash it is called by, how many arguments its
/// calls have, and how many of these are words.
#[derive(Debug, PartialEq, Eq)]
pub struct FnMeta {
    pub hash: crate::ir::Hash,
    pub arity: usize,
    pub words: usize,
}

/// The mathematical counterpart of [`FnMeta`].
#[verifier::ext_equal]
pub struct MetaView {
    pub hash: Seq<u8>,
    pub arity: usize,
    pub words: usize,
}

impl View for FnMeta {
    type V = MetaView;

    open spec fn view(&self) -> MetaView {
        MetaView { hash: self.hash@, arity: self.arity, words: self.words }
    }
}

pub open spec fn metas_view(v: Seq<FnMeta>) -> Seq<MetaView> {
    Seq::new(v.len(), |i: int| v[i]@)
}

/// An operation that a module imports from its host: the unit of authority.
#[derive(Debug, PartialEq, Eq)]
pub struct CapImport {
    pub cap: String,
    pub op: u32,
    /// The number of operands that are words.
    pub params: usize,
    pub returns_value: bool,
}

/// The mathematical counterpart of [`CapImport`].
#[verifier::ext_equal]
pub struct CapImportView {
    pub cap: Seq<char>,
    pub op: u32,
    pub params: usize,
    pub returns_value: bool,
}

impl View for CapImport {
    type V = CapImportView;

    open spec fn view(&self) -> CapImportView {
        CapImportView {
            cap: self.cap@,
            op: self.op,
            params: self.params,
            returns_value: self.returns_value,
        }
    }
}

pub open spec fn cap_imports_view(v: Seq<CapImport>) -> Seq<CapImportView> {
    Seq::new(v.len(), |i: int| v[i]@)
}

/// The program that a function is part of. Functions come after imports in the
/// index space. `checks` asks for positions to be tested at run time.
pub struct Cx<'a> {
    pub world: &'a World,
    pub fns: &'a Vec<FnMeta>,
    pub imports: &'a Vec<CapImport>,
    pub checks: bool,
}

/// The mathematical counterpart of [`Cx`].
pub struct CxView {
    pub world: WorldView,
    pub fns: Seq<MetaView>,
    pub imports: Seq<CapImportView>,
    pub checks: bool,
}

impl<'a> View for Cx<'a> {
    type V = CxView;

    open spec fn view(&self) -> CxView {
        CxView {
            world: self.world@,
            fns: metas_view(self.fns@),
            imports: cap_imports_view(self.imports@),
            checks: self.checks,
        }
    }
}

pub open spec fn has_hash(cx: CxView, h: Seq<u8>) -> spec_fn(int) -> bool {
    |i: int| cx.fns[i].hash == h
}

/// The position of the function of that hash; the last one counts.
pub open spec fn fn_pos(cx: CxView, h: Seq<u8>) -> Option<int> {
    find::last_below(has_hash(cx, h), cx.fns.len() as int)
}

/// The index of the function at that position.
pub open spec fn fn_index(cx: CxView, i: int) -> u32 {
    indices::add32((cx.imports.len() as usize) as u32, (i as usize) as u32)
}

pub open spec fn is_import(cx: CxView, cap: Seq<char>, op: u32) -> spec_fn(int) -> bool {
    |i: int| cx.imports[i].cap == cap && cx.imports[i].op == op
}

/// The index of the import of an operation.
pub open spec fn import_pos(cx: CxView, cap: Seq<char>, op: u32) -> Option<int> {
    find::first_from(is_import(cx, cap, op), 0, cx.imports.len() as int)
}

impl<'a> Cx<'a> {
    /// The position of the function of that hash.
    pub fn find_fn(&self, h: &crate::ir::Hash) -> (r: Option<usize>)
        ensures
            match fn_pos(self@, h@) {
                Some(i) => r is Some && r->0 == i && 0 <= i < self.fns@.len(),
                None => r is None,
            },
    {
        let ghost p = has_hash(self@, h@);
        let mut i: usize = self.fns.len();
        while i > 0
            invariant
                i <= self.fns@.len(),
                p == has_hash(self@, h@),
                find::last_below(p, self@.fns.len() as int) == find::last_below(p, i as int),
            decreases i,
        {
            assert(self@.fns[i - 1] == self.fns@[i - 1]@);
            if self.fns[i - 1].hash.same(h) {
                assert(p(i - 1));
                return Some(i - 1);
            }
            assert(!p(i - 1));
            i = i - 1;
        }
        None
    }

    /// The index of the import of an operation.
    pub fn find_import_op(&self, cap: &str, op: u32) -> (r: Option<usize>)
        ensures
            match import_pos(self@, cap@, op) {
                Some(i) => r is Some && r->0 == i,
                None => r is None,
            },
    {
        let ghost p = is_import(self@, cap@, op);
        let ghost n = self@.imports.len() as int;
        let mut i: usize = 0;
        while i < self.imports.len()
            invariant
                i <= self.imports@.len(),
                n == self.imports@.len(),
                p == is_import(self@, cap@, op),
                find::first_from(p, 0, n) == find::first_from(p, i as int, n),
            decreases n - i,
        {
            assert(self@.imports[i as int] == self.imports@[i as int]@);
            let hit = self.imports[i].op == op && str_eq(self.imports[i].cap.as_str(), cap);
            assert(hit == p(i as int));
            if hit {
                return Some(i);
            }
            i = i + 1;
        }
        None
    }
}

// ---- the function being compiled --------------------------------------------------------------------------

/// A function under compilation: its code so far, the binders in scope with
/// their types, and the next free local.
pub struct Trans {
    pub insts: Vec<Inst>,
    pub env: Vec<Slot>,
    pub tys: Vec<Option<Type>>,
    pub next: u32,
}

/// The mathematical counterpart of [`Trans`].
#[verifier::ext_equal]
pub struct TrSt {
    pub insts: Seq<Inst>,
    pub env: Seq<SlotView>,
    pub tys: Seq<Option<TypeView>>,
    pub next: u32,
}

impl View for Trans {
    type V = TrSt;

    open spec fn view(&self) -> TrSt {
        TrSt {
            insts: self.insts@,
            env: slots_view(self.env@),
            tys: world::opt_types_view(self.tys@),
            next: self.next,
        }
    }
}

/// A new local.
pub open spec fn fresh(s: TrSt) -> (u32, TrSt) {
    (s.next, TrSt { next: indices::add32(s.next, 1), ..s })
}

/// More code.
pub open spec fn em(s: TrSt, code: Seq<Inst>) -> TrSt {
    TrSt { insts: s.insts + code, ..s }
}

/// The size in bytes of a block with a header and `n` words.
pub open spec fn block_bytes(n: nat) -> i64 {
    ((((n as usize) as u128 + 1) * 8) as u128) as i64
}

/// The offset of word `i` after the header of a block.
pub open spec fn word_at(i: nat) -> u64 {
    ((((i as usize) as u128 + 1) * 8) as u128) as u64
}

pub fn block_bytes_of(n: usize) -> (r: i64)
    ensures
        r == block_bytes(n as nat),
{
    let b: u128 = (n as u128 + 1) * 8;
    b as i64
}

pub fn word_offset(i: usize) -> (r: u64)
    ensures
        r == word_at(i as nat),
{
    let b: u128 = (i as u128 + 1) * 8;
    b as u64
}

impl Trans {
    pub fn emit(&mut self, code: Vec<Inst>)
        ensures
            final(self)@ == em(old(self)@, code@),
    {
        let mut c = code;
        self.insts.append(&mut c);
    }

    pub fn local(&mut self) -> (r: u32)
        ensures
            (r, final(self)@) == fresh(old(self)@),
    {
        let l = self.next;
        self.next = deeper(self.next, 1);
        l
    }
}

// ---- memory ---------------------------------------------------------------------------------------------------

/// Memory reaches `end`.
pub open spec fn heap_s(end: u32, s: TrSt) -> TrSt {
    let (pages, s1) = fresh(s);
    let (bytes, s2) = fresh(s1);
    let (needed, s3) = fresh(s2);
    em(s3, wasm_seq::heap_code(end, pages, bytes, needed))
}

/// A block with a header and `n` words.
pub open spec fn bump_s(n: nat, s: TrSt) -> (u32, TrSt) {
    let (base, s1) = fresh(s);
    let (end, s2) = fresh(s1);
    (base, em(heap_s(end, em(s2, wasm_seq::bump_code(block_bytes(n), base, end))), wasm_seq::commit_code(end)))
}

/// A block of as many words as the local `words` says.
pub open spec fn bump_dyn_s(words: u32, s: TrSt) -> (u32, TrSt) {
    let (base, s1) = fresh(s);
    let (end, s2) = fresh(s1);
    (base, em(heap_s(end, em(s2, wasm_seq::bump_dyn_code(words, base, end))), wasm_seq::commit_code(end)))
}

/// A local with a word of a block.
pub open spec fn load_word_s(base: u32, at: u64, s: TrSt) -> (u32, TrSt) {
    let (r, s1) = fresh(s);
    (r, em(s1, wasm_seq::load_put_code(base, at, r)))
}

/// A local with a constant.
pub open spec fn const_local_s(n: i64, s: TrSt) -> (u32, TrSt) {
    let (r, s1) = fresh(s);
    (r, em(s1, wasm_seq::const_put_code(n, r)))
}

/// A local with the sum of a local and a constant.
pub open spec fn plus_s(x: u32, n: i64, s: TrSt) -> (u32, TrSt) {
    let (r, s1) = fresh(s);
    (r, em(s1, wasm_seq::plus_code(x, n, r)))
}

/// Words copied.
pub open spec fn copy_words_s(src: u32, dst: u32, total: u32, s: TrSt) -> TrSt {
    let (k, s1) = fresh(s);
    em(s1, wasm_seq::copy_code(src, dst, total, k))
}

/// Words copied between positions.
pub open spec fn copy_range_s(src: u32, from: u32, dst: u32, to: u32, count: u32, s: TrSt) -> TrSt {
    let (k, s1) = fresh(s);
    em(s1, wasm_seq::copy_range_code(src, from, dst, to, count, k))
}

/// A position tested, if that is asked for.
pub open spec fn bounds_s(cx: CxView, ptr: u32, i: u32, s: TrSt) -> TrSt {
    if cx.checks {
        em(s, wasm_seq::bounds_code(ptr, i))
    } else {
        s
    }
}

impl Trans {
    pub fn fit_heap(&mut self, end: u32)
        ensures
            final(self)@ == heap_s(end, old(self)@),
    {
        let pages = self.local();
        let bytes = self.local();
        let needed = self.local();
        self.emit(heap_code_of(end, pages, bytes, needed));
    }

    pub fn bump_alloc(&mut self, n: usize) -> (r: u32)
        ensures
            (r, final(self)@) == bump_s(n as nat, old(self)@),
    {
        let base = self.local();
        let end = self.local();
        self.emit(bump_code_of(block_bytes_of(n), base, end));
        self.fit_heap(end);
        self.emit(commit_code_of(end));
        base
    }

    pub fn bump_alloc_dyn(&mut self, words: u32) -> (r: u32)
        ensures
            (r, final(self)@) == bump_dyn_s(words, old(self)@),
    {
        let base = self.local();
        let end = self.local();
        self.emit(bump_dyn_code_of(words, base, end));
        self.fit_heap(end);
        self.emit(commit_code_of(end));
        base
    }

    pub fn load_word(&mut self, base: u32, at: u64) -> (r: u32)
        ensures
            (r, final(self)@) == load_word_s(base, at, old(self)@),
    {
        let r = self.local();
        self.emit(load_put_code_of(base, at, r));
        r
    }

    pub fn const_local(&mut self, n: i64) -> (r: u32)
        ensures
            (r, final(self)@) == const_local_s(n, old(self)@),
    {
        let r = self.local();
        self.emit(const_put_code_of(n, r));
        r
    }

    pub fn plus(&mut self, x: u32, n: i64) -> (r: u32)
        ensures
            (r, final(self)@) == plus_s(x, n, old(self)@),
    {
        let r = self.local();
        self.emit(plus_code_of(x, n, r));
        r
    }

    pub fn copy_words(&mut self, src: u32, dst: u32, total: u32)
        ensures
            final(self)@ == copy_words_s(src, dst, total, old(self)@),
    {
        let k = self.local();
        self.emit(copy_code_of(src, dst, total, k));
    }

    pub fn copy_word_range(&mut self, src: u32, from: u32, dst: u32, to: u32, count: u32)
        ensures
            final(self)@ == copy_range_s(src, from, dst, to, count, old(self)@),
    {
        let k = self.local();
        self.emit(copy_range_code_of(src, from, dst, to, count, k));
    }

    pub fn check_bounds(&mut self, cx: &Cx, ptr: u32, i: u32)
        ensures
            final(self)@ == bounds_s(cx@, ptr, i, old(self)@),
    {
        if cx.checks {
            self.emit(bounds_code_of(ptr, i));
        }
    }
}

// ---- arguments ---------------------------------------------------------------------------------------------------

/// The word of an argument as a field: nothing is a zero word.
pub open spec fn arg_word_s(a: ArgValView, s: TrSt) -> TrSt
    decreases a, 1nat, 0nat,
{
    match a {
        ArgValView::Local(l) => em(s, wasm_seq::get_code(l)),
        ArgValView::Const(n) => em(s, wasm_seq::const_code(n)),
        ArgValView::Unit => em(s, wasm_seq::const_code(0)),
        ArgValView::Boxed { tag, fields } => box_args_s(tag, fields, s),
    }
}

/// A block made of arguments; its pointer is left on the stack.
pub open spec fn box_args_s(tag: u32, fields: Seq<ArgValView>, s: TrSt) -> TrSt
    decreases fields, 1nat, 0nat,
{
    let (base, s1) = bump_s(fields.len(), s);
    em(
        arg_fields_s(fields, fields.len(), base, em(s1, wasm_seq::store_tag_code(base, tag as i64))),
        wasm_seq::get_code(base),
    )
}

/// The first `n` fields of a block, stored.
pub open spec fn arg_fields_s(fields: Seq<ArgValView>, n: nat, base: u32, s: TrSt) -> TrSt
    decreases fields, 0nat, n,
{
    if n == 0 || n > fields.len() {
        s
    } else {
        let s1 = em(arg_fields_s(fields, (n - 1) as nat, base, s), wasm_seq::addr_code(base));
        em(arg_word_s(fields[n - 1], s1), wasm_seq::store_code(word_at((n - 1) as nat)))
    }
}

/// An argument of a call: nothing is left out.
pub open spec fn push_arg_s(a: ArgValView, s: TrSt) -> TrSt {
    match a {
        ArgValView::Unit => s,
        _ => arg_word_s(a, s),
    }
}

/// The first `n` arguments of a call.
pub open spec fn push_args_s(v: Seq<ArgValView>, n: nat, s: TrSt) -> TrSt
    decreases n,
{
    if n == 0 {
        s
    } else {
        push_arg_s(v[n - 1], push_args_s(v, (n - 1) as nat, s))
    }
}

impl Trans {
    pub fn emit_arg_word(&mut self, a: &ArgVal)
        ensures
            final(self)@ == arg_word_s(a@, old(self)@),
        decreases a, 1nat,
    {
        match a {
            ArgVal::Local(l) => self.emit(get_code_of(*l)),
            ArgVal::Const(n) => self.emit(const_code_of(*n)),
            ArgVal::Unit => self.emit(const_code_of(0)),
            ArgVal::Boxed { tag, fields } => self.box_argvals(*tag, fields),
        }
    }

    pub fn box_argvals(&mut self, tag: u32, fields: &Vec<ArgVal>)
        ensures
            final(self)@ == box_args_s(tag, argvals_view(fields@), old(self)@),
        decreases fields@, 0nat,
    {
        broadcast use lemma_argvals_view;

        let base = self.bump_alloc(fields.len());
        self.emit(store_tag_code_of(base, tag as i64));
        let ghost s0 = self@;
        let ghost v = argvals_view(fields@);
        let mut i: usize = 0;
        while i < fields.len()
            invariant
                i <= fields@.len(),
                v == argvals_view(fields@),
                v.len() == fields@.len(),
                self@ == arg_fields_s(v, i as nat, base, s0),
            decreases fields@.len() - i,
        {
            assert(v[i as int] == fields@[i as int]@);
            self.emit(addr_code_of(base));
            self.emit_arg_word(&fields[i]);
            self.emit(store_code_of(word_offset(i)));
            i = i + 1;
        }
        self.emit(get_code_of(base));
    }

    pub fn push_argval(&mut self, a: &ArgVal)
        ensures
            final(self)@ == push_arg_s(a@, old(self)@),
    {
        match a {
            ArgVal::Unit => {},
            _ => self.emit_arg_word(a),
        }
    }

    pub fn push_argvals(&mut self, v: &Vec<ArgVal>)
        ensures
            final(self)@ == push_args_s(argvals_view(v@), v@.len(), old(self)@),
    {
        broadcast use lemma_argvals_view;

        let ghost s0 = self@;
        let mut i: usize = 0;
        while i < v.len()
            invariant
                i <= v@.len(),
                self@ == push_args_s(argvals_view(v@), i as nat, s0),
            decreases v@.len() - i,
        {
            assert(argvals_view(v@)[i as int] == v@[i as int]@);
            self.push_argval(&v[i]);
            i = i + 1;
        }
    }
}

// ---- binders -----------------------------------------------------------------------------------------------------

/// A binder as an argument.
pub open spec fn slot_arg(s: SlotView) -> Result<ArgValView, WasmErrorView>
    decreases s, 0nat,
{
    match s {
        SlotView::Local(l) => Ok(ArgValView::Local(l)),
        SlotView::Unit => Ok(ArgValView::Unit),
        SlotView::Partial { func, args } => Err(
            unsupported_view("passing a partially-applied function as an argument"@),
        ),
        SlotView::Tuple { tag, fields } => match slot_args(fields, fields.len()) {
            Ok(v) => Ok(ArgValView::Boxed { tag, fields: v }),
            Err(e) => Err(e),
        },
    }
}

/// The first `n` binders as arguments.
pub open spec fn slot_args(v: Seq<SlotView>, n: nat) -> Result<Seq<ArgValView>, WasmErrorView>
    decreases v, n,
{
    if n == 0 || n > v.len() {
        Ok(Seq::empty())
    } else {
        match slot_args(v, (n - 1) as nat) {
            Ok(out) => match slot_arg(v[n - 1]) {
                Ok(a) => Ok(out.push(a)),
                Err(e) => Err(e),
            },
            Err(e) => Err(e),
        }
    }
}

/// The word of a binder as a field.
pub open spec fn slot_word_s(x: SlotView, s: TrSt) -> Result<TrSt, WasmErrorView>
    decreases x, 1nat, 0nat,
{
    match x {
        SlotView::Local(l) => Ok(em(s, wasm_seq::get_code(l))),
        SlotView::Unit => Ok(em(s, wasm_seq::const_code(0))),
        SlotView::Partial { func, args } => Err(
            unsupported_view("a partially-applied function used as an aggregate field"@),
        ),
        SlotView::Tuple { tag, fields } => box_slots_s(tag, fields, s),
    }
}

/// A block made of binders; its pointer is left on the stack.
pub open spec fn box_slots_s(tag: u32, fields: Seq<SlotView>, s: TrSt) -> Result<TrSt, WasmErrorView>
    decreases fields, 1nat, 0nat,
{
    let (base, s1) = bump_s(fields.len(), s);
    match slot_fields_s(fields, fields.len(), base, em(s1, wasm_seq::store_tag_code(base, tag as i64))) {
        Ok(s2) => Ok(em(s2, wasm_seq::get_code(base))),
        Err(e) => Err(e),
    }
}

/// The first `n` fields of a block, stored.
pub open spec fn slot_fields_s(fields: Seq<SlotView>, n: nat, base: u32, s: TrSt) -> Result<
    TrSt,
    WasmErrorView,
>
    decreases fields, 0nat, n,
{
    if n == 0 || n > fields.len() {
        Ok(s)
    } else {
        match slot_fields_s(fields, (n - 1) as nat, base, s) {
            Ok(s1) => match slot_word_s(fields[n - 1], em(s1, wasm_seq::addr_code(base))) {
                Ok(s2) => Ok(em(s2, wasm_seq::store_code(word_at((n - 1) as nat)))),
                Err(e) => Err(e),
            },
            Err(e) => Err(e),
        }
    }
}

/// Exactly one word on the stack.
pub open spec fn coerce_s(out: OutView, s: TrSt) -> Result<TrSt, WasmErrorView> {
    match out {
        OutView::Stack => Ok(s),
        OutView::Returned => Ok(s),
        OutView::Held(SlotView::Partial { func, args }) => Err(
            unsupported_view("a partially-applied function used as a value"@),
        ),
        OutView::Held(x) => slot_word_s(x, s),
    }
}

/// A binder as a value again.
pub open spec fn slot_out_s(x: SlotView, s: TrSt) -> (OutView, TrSt) {
    match x {
        SlotView::Local(l) => (OutView::Stack, em(s, wasm_seq::get_code(l))),
        _ => (OutView::Held(x), s),
    }
}

/// What a bound value becomes: a word goes to a local. None if the function has
/// returned.
pub open spec fn bind_out_s(out: OutView, s: TrSt) -> Option<(SlotView, TrSt)> {
    match out {
        OutView::Stack => {
            let (l, s1) = fresh(s);
            Some((SlotView::Local(l), em(s1, wasm_seq::put_code(l))))
        },
        OutView::Returned => None,
        OutView::Held(x) => Some((x, s)),
    }
}

/// The text for an index that no binder has.
pub open spec fn scope_text(idx: u32, d: nat) -> Seq<char> {
    "de Bruijn index "@ + text::decimal(idx as nat) + " out of scope at depth "@ + text::decimal(
        ((d as usize) as u64) as nat,
    )
}

/// The binder of an index.
pub open spec fn slot_at(env: Seq<SlotView>, idx: u32) -> Result<SlotView, WasmErrorView> {
    if idx < env.len() {
        Ok(env[env.len() - 1 - idx])
    } else {
        Err(unsupported_view(scope_text(idx, env.len())))
    }
}

/// What a step did: `want`.
pub open spec fn did(r: Result<(), WasmError>, t: Trans, want: Result<TrSt, WasmErrorView>) -> bool {
    match want {
        Ok(s) => r is Ok && t@ == s,
        Err(e) => r is Err && r->Err_0@ == e,
    }
}

/// What compiling a term did: `want`.
pub open spec fn did_out(
    r: Result<Out, WasmError>,
    t: Trans,
    want: Result<(OutView, TrSt), WasmErrorView>,
) -> bool {
    match want {
        Ok((o, s)) => r is Ok && r->Ok_0@ == o && t@ == s,
        Err(e) => r is Err && r->Err_0@ == e,
    }
}

pub fn slot_to_argval(s: &Slot) -> (r: Result<ArgVal, WasmError>)
    ensures
        match slot_arg(s@) {
            Ok(a) => r is Ok && r->Ok_0@ == a,
            Err(e) => r is Err && r->Err_0@ == e,
        },
    decreases s, 0nat,
{
    match s {
        Slot::Local(l) => Ok(ArgVal::Local(*l)),
        Slot::Unit => Ok(ArgVal::Unit),
        Slot::Partial { func: _, args: _ } => Err(
            unsupported("passing a partially-applied function as an argument"),
        ),
        Slot::Tuple { tag, fields } => {
            assert(slots_view(fields@).len() == fields@.len()) by {
                broadcast use lemma_slots_view;

            }
            let v = match slots_to_argvals(fields) {
                Ok(v) => v,
                Err(e) => {
                    return Err(e);
                },
            };
            Ok(ArgVal::Boxed { tag: *tag, fields: v })
        },
    }
}

proof fn lemma_slot_args_fail(v: Seq<SlotView>, i: nat, n: nat)
    requires
        i <= n <= v.len(),
        slot_args(v, i) is Err,
    ensures
        slot_args(v, n) == slot_args(v, i),
    decreases n - i,
{
    if i < n {
        assert(slot_args(v, i + 1) == slot_args(v, i));
        lemma_slot_args_fail(v, i + 1, n);
    }
}

pub fn slots_to_argvals(v: &Vec<Slot>) -> (r: Result<Vec<ArgVal>, WasmError>)
    ensures
        match slot_args(slots_view(v@), v@.len()) {
            Ok(a) => r is Ok && argvals_view(r->Ok_0@) == a,
            Err(e) => r is Err && r->Err_0@ == e,
        },
    decreases v@, 0nat,
{
    broadcast use lemma_argvals_view;
    broadcast use lemma_slots_view;

    let ghost sv = slots_view(v@);
    let mut out: Vec<ArgVal> = Vec::new();
    let mut i: usize = 0;
    assert(argvals_view(out@) =~= Seq::empty());
    while i < v.len()
        invariant
            i <= v@.len(),
            sv == slots_view(v@),
            sv.len() == v@.len(),
            slot_args(sv, i as nat) == Ok::<Seq<ArgValView>, WasmErrorView>(argvals_view(out@)),
        decreases v@.len() - i,
    {
        assert(sv[i as int] == v@[i as int]@);
        match slot_to_argval(&v[i]) {
            Ok(a) => {
                let ghost before = out@;
                out.push(a);
                assert(argvals_view(out@) =~= argvals_view(before).push(a@));
            },
            Err(e) => {
                proof {
                    lemma_slot_args_fail(sv, (i + 1) as nat, sv.len());
                }
                return Err(e);
            },
        }
        i = i + 1;
    }
    Ok(out)
}

proof fn lemma_slot_fields_fail(fields: Seq<SlotView>, i: nat, n: nat, base: u32, s: TrSt)
    requires
        i <= n <= fields.len(),
        slot_fields_s(fields, i, base, s) is Err,
    ensures
        slot_fields_s(fields, n, base, s) == slot_fields_s(fields, i, base, s),
    decreases n - i,
{
    if i < n {
        assert(slot_fields_s(fields, i + 1, base, s) == slot_fields_s(fields, i, base, s));
        lemma_slot_fields_fail(fields, i + 1, n, base, s);
    }
}

impl Trans {
    pub fn emit_slot_word(&mut self, x: &Slot) -> (r: Result<(), WasmError>)
        ensures
            did(r, *final(self), slot_word_s(x@, old(self)@)),
        decreases x, 1nat,
    {
        match x {
            Slot::Local(l) => {
                self.emit(get_code_of(*l));
                Ok(())
            },
            Slot::Unit => {
                self.emit(const_code_of(0));
                Ok(())
            },
            Slot::Partial { func: _, args: _ } => Err(
                unsupported("a partially-applied function used as an aggregate field"),
            ),
            Slot::Tuple { tag, fields } => self.box_tuple_slots(*tag, fields),
        }
    }

    pub fn box_tuple_slots(&mut self, tag: u32, fields: &Vec<Slot>) -> (r: Result<(), WasmError>)
        ensures
            did(r, *final(self), box_slots_s(tag, slots_view(fields@), old(self)@)),
        decreases fields@, 0nat,
    {
        broadcast use lemma_slots_view;

        let base = self.bump_alloc(fields.len());
        self.emit(store_tag_code_of(base, tag as i64));
        let ghost s0 = self@;
        let ghost first = old(self)@;
        let ghost v = slots_view(fields@);
        let mut i: usize = 0;
        while i < fields.len()
            invariant
                i <= fields@.len(),
                v == slots_view(fields@),
                v.len() == fields@.len(),
                first == old(self)@,
                base == bump_s(v.len(), first).0,
                s0 == em(bump_s(v.len(), first).1, wasm_seq::store_tag_code(base, tag as i64)),
                slot_fields_s(v, i as nat, base, s0) == Ok::<TrSt, WasmErrorView>(self@),
            decreases fields@.len() - i,
        {
            assert(v[i as int] == fields@[i as int]@);
            self.emit(addr_code_of(base));
            match self.emit_slot_word(&fields[i]) {
                Ok(_) => {},
                Err(e) => {
                    proof {
                        lemma_slot_fields_fail(v, (i + 1) as nat, v.len(), base, s0);
                    }
                    return Err(e);
                },
            }
            self.emit(store_code_of(word_offset(i)));
            i = i + 1;
        }
        self.emit(get_code_of(base));
        Ok(())
    }

    pub fn coerce_to_word(&mut self, out: Out) -> (r: Result<(), WasmError>)
        ensures
            did(r, *final(self), coerce_s(out@, old(self)@)),
    {
        match out {
            Out::Stack => Ok(()),
            Out::Returned => Ok(()),
            Out::Held(x) => match &x {
                Slot::Partial { func: _, args: _ } => Err(
                    unsupported("a partially-applied function used as a value"),
                ),
                _ => self.emit_slot_word(&x),
            },
        }
    }

    pub fn slot_to_out(&mut self, x: Slot) -> (r: Out)
        ensures
            (r@, final(self)@) == slot_out_s(x@, old(self)@),
    {
        match x {
            Slot::Local(l) => {
                self.emit(get_code_of(l));
                Out::Stack
            },
            _ => Out::Held(x),
        }
    }

    pub fn bind_out(&mut self, out: Out) -> (r: Option<Slot>)
        ensures
            match bind_out_s(out@, old(self)@) {
                Some((x, s)) => r is Some && r->0@ == x && final(self)@ == s,
                None => r is None && final(self)@ == old(self)@,
            },
    {
        match out {
            Out::Stack => {
                let l = self.local();
                self.emit(put_code_of(l));
                Some(Slot::Local(l))
            },
            Out::Returned => None,
            Out::Held(x) => Some(x),
        }
    }

    pub fn slot(&self, idx: u32) -> (r: Result<Slot, WasmError>)
        ensures
            match slot_at(self@.env, idx) {
                Ok(x) => r is Ok && r->Ok_0@ == x,
                Err(e) => r is Err && r->Err_0@ == e,
            },
    {
        broadcast use lemma_slots_view;

        let d = self.env.len();
        if (idx as usize) < d {
            assert(self@.env[d - 1 - idx] == self.env@[d - 1 - idx]@);
            Ok(self.env[d - 1 - idx as usize].clone())
        } else {
            let mut s = "de Bruijn index ".to_owned();
            push_decimal(&mut s, idx as u64);
            s.append(" out of scope at depth ");
            push_decimal(&mut s, d as u64);
            Err(WasmError::Unsupported(s))
        }
    }
}

// ---- atoms --------------------------------------------------------------------------------------------------------

/// The code point of a character.
pub open spec fn code_point(c: char) -> i64 {
    (c as u32) as i64
}

/// A truth value as a word.
pub open spec fn truth(b: bool) -> i64 {
    if b {
        1
    } else {
        0
    }
}

pub fn truth_of(b: bool) -> (r: i64)
    ensures
        r == truth(b),
{
    if b {
        1
    } else {
        0
    }
}

/// A local for each of the first `n` characters.
pub open spec fn chars_s(t: Seq<char>, n: nat, s: TrSt) -> (Seq<SlotView>, TrSt)
    decreases n,
{
    if n == 0 {
        (Seq::empty(), s)
    } else {
        let (out, s1) = chars_s(t, (n - 1) as nat, s);
        let (l, s2) = const_local_s(code_point(t[n - 1]), s1);
        (out.push(SlotView::Local(l)), s2)
    }
}

/// The value of an atom.
pub open spec fn atom_out_s(cx: CxView, a: AtomView, s: TrSt) -> Result<
    (OutView, TrSt),
    WasmErrorView,
> {
    match a {
        AtomView::Lit(LiteralView::Unit) => Ok((OutView::Held(SlotView::Unit), s)),
        AtomView::Lit(LiteralView::Int(n)) => Ok((OutView::Stack, em(s, wasm_seq::const_code(n)))),
        AtomView::Lit(LiteralView::Bool(b)) => Ok((OutView::Stack, em(s, wasm_seq::const_code(truth(b))))),
        AtomView::Lit(LiteralView::Float(_)) => Err(unsupported_view("float literal"@)),
        AtomView::Lit(LiteralView::Str(t)) => {
            let (fields, s1) = chars_s(t, t.len(), s);
            Ok((OutView::Held(SlotView::Tuple { tag: (t.len() as usize) as u32, fields }), s1))
        },
        AtomView::Lit(LiteralView::Char(c)) => Ok((OutView::Stack, em(s, wasm_seq::const_code(code_point(c))))),
        AtomView::Var(i) => match slot_at(s.env, i) {
            Ok(x) => Ok(slot_out_s(x, s)),
            Err(e) => Err(e),
        },
        AtomView::Global(h) => if fn_pos(cx, h) is Some {
            Ok((OutView::Held(SlotView::Partial { func: h, args: Seq::empty() }), s))
        } else {
            Err(WasmErrorView::UnknownGlobal(h))
        },
    }
}

/// The characters as constants.
pub open spec fn char_args(t: Seq<char>) -> Seq<ArgValView> {
    Seq::new(t.len(), |i: int| ArgValView::Const(code_point(t[i])))
}

/// An atom as an argument.
pub open spec fn atom_arg(env: Seq<SlotView>, a: AtomView) -> Result<ArgValView, WasmErrorView> {
    match a {
        AtomView::Lit(LiteralView::Int(n)) => Ok(ArgValView::Const(n)),
        AtomView::Lit(LiteralView::Bool(b)) => Ok(ArgValView::Const(truth(b))),
        AtomView::Lit(LiteralView::Char(c)) => Ok(ArgValView::Const(code_point(c))),
        AtomView::Lit(LiteralView::Str(t)) => Ok(
            ArgValView::Boxed { tag: (t.len() as usize) as u32, fields: char_args(t) },
        ),
        AtomView::Lit(LiteralView::Unit) => Ok(ArgValView::Unit),
        AtomView::Lit(LiteralView::Float(_)) => Err(
            unsupported_view("non-scalar literal argument"@),
        ),
        AtomView::Var(i) => match slot_at(env, i) {
            Ok(x) => slot_arg(x),
            Err(e) => Err(e),
        },
        AtomView::Global(_) => Err(unsupported_view("passing a function as a value argument"@)),
    }
}

/// The first `n` atoms as arguments.
pub open spec fn atom_args(env: Seq<SlotView>, v: Seq<AtomView>, n: nat) -> Result<
    Seq<ArgValView>,
    WasmErrorView,
>
    decreases n,
{
    if n == 0 {
        Ok(Seq::empty())
    } else {
        match atom_args(env, v, (n - 1) as nat) {
            Ok(out) => match atom_arg(env, v[n - 1]) {
                Ok(a) => Ok(out.push(a)),
                Err(e) => Err(e),
            },
            Err(e) => Err(e),
        }
    }
}

/// A local with the word of an atom.
pub open spec fn word_local_s(cx: CxView, a: AtomView, s: TrSt) -> Result<(u32, TrSt), WasmErrorView> {
    match atom_out_s(cx, a, s) {
        Ok((out, s1)) => match coerce_s(out, s1) {
            Ok(s2) => {
                let (l, s3) = fresh(s2);
                Ok((l, em(s3, wasm_seq::put_code(l))))
            },
            Err(e) => Err(e),
        },
        Err(e) => Err(e),
    }
}

/// A binder with the value of an atom; a word gets a local of its own.
pub open spec fn local_slot_s(cx: CxView, a: AtomView, s: TrSt) -> Result<
    (SlotView, TrSt),
    WasmErrorView,
> {
    match atom_out_s(cx, a, s) {
        Ok((out, s1)) => match bind_out_s(out, s1) {
            Some((x, s2)) => Ok((x, s2)),
            None => Err(unsupported_view("early return used as a value"@)),
        },
        Err(e) => Err(e),
    }
}

/// Binders with the values of the first `n` atoms.
pub open spec fn local_slots_s(cx: CxView, v: Seq<AtomView>, n: nat, s: TrSt) -> Result<
    (Seq<SlotView>, TrSt),
    WasmErrorView,
>
    decreases n,
{
    if n == 0 {
        Ok((Seq::empty(), s))
    } else {
        match local_slots_s(cx, v, (n - 1) as nat, s) {
            Ok((out, s1)) => match local_slot_s(cx, v[n - 1], s1) {
                Ok((x, s2)) => Ok((out.push(x), s2)),
                Err(e) => Err(e),
            },
            Err(e) => Err(e),
        }
    }
}

pub fn chars_to_argvals(t: &str) -> (r: Vec<ArgVal>)
    ensures
        argvals_view(r@) == char_args(t@),
{
    broadcast use lemma_argvals_view;

    let n = t.unicode_len();
    let mut out: Vec<ArgVal> = Vec::new();
    let mut i: usize = 0;
    while i < n
        invariant
            i <= n,
            n == t@.len(),
            out@.len() == i,
            forall|k: int| 0 <= k < i ==> #[trigger] out@[k]@ == char_args(t@)[k],
        decreases n - i,
    {
        let c = t.get_char(i);
        out.push(ArgVal::Const(c as u32 as i64));
        i = i + 1;
    }
    assert(argvals_view(out@) =~= char_args(t@));
    out
}

proof fn lemma_atom_args_fail(env: Seq<SlotView>, v: Seq<AtomView>, i: nat, n: nat)
    requires
        i <= n,
        atom_args(env, v, i) is Err,
    ensures
        atom_args(env, v, n) == atom_args(env, v, i),
    decreases n - i,
{
    if i < n {
        assert(atom_args(env, v, i + 1) == atom_args(env, v, i));
        lemma_atom_args_fail(env, v, i + 1, n);
    }
}

proof fn lemma_local_slots_fail(cx: CxView, v: Seq<AtomView>, i: nat, n: nat, s: TrSt)
    requires
        i <= n,
        local_slots_s(cx, v, i, s) is Err,
    ensures
        local_slots_s(cx, v, n, s) == local_slots_s(cx, v, i, s),
    decreases n - i,
{
    if i < n {
        assert(local_slots_s(cx, v, i + 1, s) == local_slots_s(cx, v, i, s));
        lemma_local_slots_fail(cx, v, i + 1, n, s);
    }
}

impl Trans {
    pub fn char_locals(&mut self, t: &str) -> (r: Vec<Slot>)
        ensures
            (slots_view(r@), final(self)@) == chars_s(t@, t@.len(), old(self)@),
    {
        broadcast use lemma_slots_view;

        let ghost s0 = self@;
        let n = t.unicode_len();
        let mut out: Vec<Slot> = Vec::new();
        let mut i: usize = 0;
        assert(slots_view(out@) =~= Seq::empty());
        while i < n
            invariant
                i <= n,
                n == t@.len(),
                (slots_view(out@), self@) == chars_s(t@, i as nat, s0),
            decreases n - i,
        {
            let c = t.get_char(i);
            let l = self.const_local(c as u32 as i64);
            let ghost before = out@;
            let x = Slot::Local(l);
            out.push(x);
            assert(slots_view(out@) =~= slots_view(before).push(x@));
            i = i + 1;
        }
        out
    }

    pub fn eval_atom(&mut self, cx: &Cx, a: &Atom) -> (r: Result<Out, WasmError>)
        ensures
            did_out(r, *final(self), atom_out_s(cx@, a@, old(self)@)),
    {
        match a {
            Atom::Lit(Literal::Unit) => Ok(Out::Held(Slot::Unit)),
            Atom::Lit(Literal::Int(n)) => {
                self.emit(const_code_of(*n));
                Ok(Out::Stack)
            },
            Atom::Lit(Literal::Bool(b)) => {
                self.emit(const_code_of(truth_of(*b)));
                Ok(Out::Stack)
            },
            Atom::Lit(Literal::Float(_)) => Err(unsupported("float literal")),
            Atom::Lit(Literal::Str(t)) => {
                let fields = self.char_locals(t.as_str());
                let tag = t.as_str().unicode_len() as u32;
                Ok(Out::Held(Slot::Tuple { tag, fields }))
            },
            Atom::Lit(Literal::Char(c)) => {
                self.emit(const_code_of(*c as u32 as i64));
                Ok(Out::Stack)
            },
            Atom::Var(i) => {
                let x = match self.slot(*i) {
                    Ok(v) => v,
                    Err(e) => {
                        return Err(e);
                    },
                };
                Ok(self.slot_to_out(x))
            },
            Atom::Global(h) => {
                if cx.find_fn(h).is_some() {
                    let none: Vec<ArgVal> = Vec::new();
                    assert(argvals_view(none@) =~= Seq::empty());
                    Ok(Out::Held(Slot::Partial { func: *h, args: none }))
                } else {
                    Err(WasmError::UnknownGlobal(*h))
                }
            },
        }
    }

    pub fn resolve_arg(&self, a: &Atom) -> (r: Result<ArgVal, WasmError>)
        ensures
            match atom_arg(self@.env, a@) {
                Ok(x) => r is Ok && r->Ok_0@ == x,
                Err(e) => r is Err && r->Err_0@ == e,
            },
    {
        match a {
            Atom::Lit(Literal::Int(n)) => Ok(ArgVal::Const(*n)),
            Atom::Lit(Literal::Bool(b)) => Ok(ArgVal::Const(truth_of(*b))),
            Atom::Lit(Literal::Char(c)) => Ok(ArgVal::Const(*c as u32 as i64)),
            Atom::Lit(Literal::Str(t)) => {
                let tag = t.as_str().unicode_len() as u32;
                Ok(ArgVal::Boxed { tag, fields: chars_to_argvals(t.as_str()) })
            },
            Atom::Lit(Literal::Unit) => Ok(ArgVal::Unit),
            Atom::Lit(Literal::Float(_)) => Err(unsupported("non-scalar literal argument")),
            Atom::Var(i) => {
                let x = match self.slot(*i) {
                    Ok(v) => v,
                    Err(e) => {
                        return Err(e);
                    },
                };
                slot_to_argval(&x)
            },
            Atom::Global(_) => Err(unsupported("passing a function as a value argument")),
        }
    }

    pub fn resolve_args(&self, v: &Vec<Atom>) -> (r: Result<Vec<ArgVal>, WasmError>)
        ensures
            match atom_args(self@.env, ir::atoms_view(v@), v@.len()) {
                Ok(x) => r is Ok && argvals_view(r->Ok_0@) == x,
                Err(e) => r is Err && r->Err_0@ == e,
            },
    {
        broadcast use lemma_argvals_view;

        let ghost env = self@.env;
        let ghost av = ir::atoms_view(v@);
        let mut out: Vec<ArgVal> = Vec::new();
        let mut i: usize = 0;
        assert(argvals_view(out@) =~= Seq::empty());
        while i < v.len()
            invariant
                i <= v@.len(),
                env == self@.env,
                av == ir::atoms_view(v@),
                atom_args(env, av, i as nat) == Ok::<Seq<ArgValView>, WasmErrorView>(
                    argvals_view(out@),
                ),
            decreases v@.len() - i,
        {
            assert(av[i as int] == v@[i as int]@);
            match self.resolve_arg(&v[i]) {
                Ok(a) => {
                    let ghost before = out@;
                    out.push(a);
                    assert(argvals_view(out@) =~= argvals_view(before).push(a@));
                },
                Err(e) => {
                    proof {
                        lemma_atom_args_fail(env, av, (i + 1) as nat, v@.len());
                    }
                    return Err(e);
                },
            }
            i = i + 1;
        }
        Ok(out)
    }

    pub fn atom_to_word_local(&mut self, cx: &Cx, a: &Atom) -> (r: Result<u32, WasmError>)
        ensures
            match word_local_s(cx@, a@, old(self)@) {
                Ok((l, s)) => r is Ok && r->Ok_0 == l && final(self)@ == s,
                Err(e) => r is Err && r->Err_0@ == e,
            },
    {
        let out = match self.eval_atom(cx, a) {
            Ok(v) => v,
            Err(e) => {
                return Err(e);
            },
        };
        if let Err(e) = self.coerce_to_word(out) {
            return Err(e);
        }
        let l = self.local();
        self.emit(put_code_of(l));
        Ok(l)
    }

    pub fn atom_to_local_slot(&mut self, cx: &Cx, a: &Atom) -> (r: Result<Slot, WasmError>)
        ensures
            match local_slot_s(cx@, a@, old(self)@) {
                Ok((x, s)) => r is Ok && r->Ok_0@ == x && final(self)@ == s,
                Err(e) => r is Err && r->Err_0@ == e,
            },
    {
        let out = match self.eval_atom(cx, a) {
            Ok(v) => v,
            Err(e) => {
                return Err(e);
            },
        };
        match self.bind_out(out) {
            Some(x) => Ok(x),
            None => Err(unsupported("early return used as a value")),
        }
    }

    pub fn atoms_to_local_slots(&mut self, cx: &Cx, v: &Vec<Atom>) -> (r: Result<Vec<Slot>, WasmError>)
        ensures
            match local_slots_s(cx@, ir::atoms_view(v@), v@.len(), old(self)@) {
                Ok((x, s)) => r is Ok && slots_view(r->Ok_0@) == x && final(self)@ == s,
                Err(e) => r is Err && r->Err_0@ == e,
            },
    {
        broadcast use lemma_slots_view;

        let ghost s0 = self@;
        let ghost c = cx@;
        let ghost av = ir::atoms_view(v@);
        let mut out: Vec<Slot> = Vec::new();
        let mut i: usize = 0;
        assert(slots_view(out@) =~= Seq::empty());
        while i < v.len()
            invariant
                i <= v@.len(),
                s0 == old(self)@,
                c == cx@,
                av == ir::atoms_view(v@),
                local_slots_s(c, av, i as nat, s0) == Ok::<(Seq<SlotView>, TrSt), WasmErrorView>(
                    (slots_view(out@), self@),
                ),
            decreases v@.len() - i,
        {
            assert(av[i as int] == v@[i as int]@);
            match self.atom_to_local_slot(cx, &v[i]) {
                Ok(x) => {
                    let ghost before = out@;
                    out.push(x);
                    assert(slots_view(out@) =~= slots_view(before).push(x@));
                },
                Err(e) => {
                    proof {
                        lemma_local_slots_fail(c, av, (i + 1) as nat, v@.len(), s0);
                    }
                    return Err(e);
                },
            }
            i = i + 1;
        }
        Ok(out)
    }
}

} // verus!
