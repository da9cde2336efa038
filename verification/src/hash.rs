//! Content hashing of Core definitions.
//!
//! The hash of a [`Def`] is the BLAKE3 digest of a canonical byte encoding:
//!
//! 1. names never reach the encoder, so definitions that differ only in the
//!    names of their locals encode identically;
//! 2. a reference contributes the 32 bytes of the hash it holds;
//! 3. set-like members (effect rows) are sorted; positional members keep their
//!    order;
//! 4. every sum is written with an explicit tag byte, every variable-length
//!    part with its length, and every integer in little-endian order, so the
//!    byte stream reads back in one way only ([`lemma_def_bytes_injective`]).
use vstd::prelude::*;
use vstd::string::*;
use vstd::utf8::*;

use crate::ir;
use crate::ir::{ArithOp, Atom, AtomView, Branch, BranchView, CExpr, CExprView, CNode, CmpOp, Core, CoreView, Def, DefKind, DefView, EffectRow, EffectView, FloatTy, IntTy, Literal, LiteralView, Pred, PredView, PrimOp, Type, TypeView};
use crate::order;
use crate::seqs;
use crate::order::sort_hashes;

verus! {

/// What [`blake3::hash`] returns for the given bytes.
pub uninterp spec fn blake3_digest(data: Seq<u8>) -> Seq<u8>;

/// Calls `blake3::hash`, the BLAKE3 hash of its input with the default key and
/// mode. The contract says that the 32 bytes returned depend on the input alone.
#[verifier::external_body]
fn blake3_hash(data: &Vec<u8>) -> (r: [u8; 32])
    ensures
        r@ == blake3_digest(data@),
{
    *blake3::hash(data.as_slice()).as_bytes()
}

// ---- the encoding, as a specification ------------------------------------

/// The bytes of a 32-bit number, lowest first.
pub open spec fn le32(n: u32) -> Seq<u8> {
    seq![
        (n % 256) as u8,
        (n / 256 % 256) as u8,
        (n / 65536 % 256) as u8,
        (n / 16777216) as u8,
    ]
}

/// The bytes of a 64-bit number, lowest first.
pub open spec fn le64(n: u64) -> Seq<u8> {
    le32((n % 4294967296) as u32) + le32((n / 4294967296) as u32)
}

/// A tag byte.
pub open spec fn tag(n: u8) -> Seq<u8> {
    seq![n]
}

pub open spec fn enc_bool(b: bool) -> Seq<u8> {
    if b {
        tag(1)
    } else {
        tag(0)
    }
}

/// A length, as eight bytes.
pub open spec fn enc_len(n: nat) -> Seq<u8> {
    le64(n as u64)
}

/// A string: the length of its UTF-8 form, and that form.
pub open spec fn enc_str(s: Seq<char>) -> Seq<u8> {
    enc_len(encode_utf8(s).len()) + encode_utf8(s)
}

pub open spec fn defkind_tag(k: DefKind) -> u8 {
    match k {
        DefKind::Fn => 0,
        DefKind::Struct => 1,
        DefKind::Enum => 2,
        DefKind::Interface => 3,
        DefKind::Impl => 4,
        DefKind::Const => 5,
        DefKind::Cap => 6,
        DefKind::Error => 7,
    }
}

pub open spec fn intty_tag(t: IntTy) -> u8 {
    match t {
        IntTy::I8 => 0,
        IntTy::I16 => 1,
        IntTy::I32 => 2,
        IntTy::I64 => 3,
        IntTy::Isize => 4,
        IntTy::U8 => 5,
        IntTy::U16 => 6,
        IntTy::U32 => 7,
        IntTy::U64 => 8,
        IntTy::Usize => 9,
    }
}

pub open spec fn floatty_tag(t: FloatTy) -> u8 {
    match t {
        FloatTy::F32 => 0,
        FloatTy::F64 => 1,
    }
}

pub open spec fn primop_tag(op: PrimOp) -> u8 {
    match op {
        PrimOp::Add => 0,
        PrimOp::Sub => 1,
        PrimOp::Mul => 2,
        PrimOp::Div => 3,
        PrimOp::Rem => 4,
        PrimOp::Eq => 5,
        PrimOp::Ne => 6,
        PrimOp::Lt => 7,
        PrimOp::Le => 8,
        PrimOp::Gt => 9,
        PrimOp::Ge => 10,
        PrimOp::And => 11,
        PrimOp::Or => 12,
        PrimOp::Not => 13,
        PrimOp::Len => 14,
        PrimOp::Index => 15,
        PrimOp::Neg => 16,
        PrimOp::Slice => 17,
        PrimOp::FromChars => 18,
    }
}

pub open spec fn cmpop_tag(op: CmpOp) -> u8 {
    match op {
        CmpOp::Eq => 0,
        CmpOp::Ne => 1,
        CmpOp::Lt => 2,
        CmpOp::Le => 3,
        CmpOp::Gt => 4,
        CmpOp::Ge => 5,
    }
}

pub open spec fn arithop_tag(op: ArithOp) -> u8 {
    match op {
        ArithOp::Add => 0,
        ArithOp::Sub => 1,
        ArithOp::Mul => 2,
        ArithOp::Div => 3,
        ArithOp::Rem => 4,
    }
}

/// The first `n` byte strings of `v`, one after another.
pub open spec fn concat(v: Seq<Seq<u8>>, n: nat) -> Seq<u8>
    decreases n,
{
    if n == 0 || n > v.len() {
        Seq::empty()
    } else {
        concat(v, (n - 1) as nat) + v[n - 1]
    }
}

/// A set of hashes: their number, then the hashes in ascending order.
pub open spec fn enc_hash_set(v: Seq<Seq<u8>>) -> Seq<u8> {
    enc_len(v.len()) + concat(order::sorted(v), v.len())
}

pub open spec fn enc_row(row: EffectView) -> Seq<u8> {
    enc_hash_set(row.caps) + enc_hash_set(row.errors)
}

pub open spec fn enc_type(t: TypeView) -> Seq<u8>
    decreases t, 0nat,
{
    match t {
        TypeView::Unit => tag(0),
        TypeView::Bool => tag(1),
        TypeView::Int(it) => tag(2) + tag(intty_tag(it)),
        TypeView::Float(ft) => tag(3) + tag(floatty_tag(ft)),
        TypeView::Str => tag(4),
        TypeView::Char => tag(5),
        TypeView::Array(inner, n) => tag(6) + enc_type(*inner) + le64(n),
        TypeView::Slice(inner) => tag(7) + enc_type(*inner),
        TypeView::Tuple(elems) => tag(8) + enc_len(elems.len()) + enc_types(elems, elems.len()),
        TypeView::Arrow { param, ret, effects } => tag(9) + enc_type(*param) + enc_type(*ret)
            + enc_row(effects),
        TypeView::Nominal { def, args } => tag(10) + def + enc_len(args.len()) + enc_types(
            args,
            args.len(),
        ),
        TypeView::Ref { mutable, of } => tag(11) + enc_bool(mutable) + enc_type(*of),
        TypeView::Linear(inner) => tag(12) + enc_type(*inner),
        TypeView::Var(idx) => tag(13) + le32(idx),
    }
}

/// The encodings of the first `n` types of `v`, one after another.
pub open spec fn enc_types(v: Seq<TypeView>, n: nat) -> Seq<u8>
    decreases v, n,
{
    if n == 0 || n > v.len() {
        Seq::empty()
    } else {
        enc_types(v, (n - 1) as nat) + enc_type(v[n - 1])
    }
}

pub open spec fn enc_literal(l: LiteralView) -> Seq<u8> {
    match l {
        LiteralView::Unit => tag(0),
        LiteralView::Bool(b) => tag(1) + enc_bool(b),
        LiteralView::Int(n) => tag(2) + le64(n as u64),
        LiteralView::Float(bits) => tag(3) + le64(bits),
        LiteralView::Str(s) => tag(4) + enc_str(s),
        LiteralView::Char(c) => tag(5) + le32(c as u32),
    }
}

pub open spec fn enc_atom(a: AtomView) -> Seq<u8> {
    match a {
        AtomView::Var(idx) => tag(0) + le32(idx),
        AtomView::Global(h) => tag(1) + h,
        AtomView::Lit(l) => tag(2) + enc_literal(l),
    }
}

/// The encodings of the first `n` atoms of `v`, one after another.
pub open spec fn enc_atom_list(v: Seq<AtomView>, n: nat) -> Seq<u8>
    decreases n,
{
    if n == 0 || n > v.len() {
        Seq::empty()
    } else {
        enc_atom_list(v, (n - 1) as nat) + enc_atom(v[n - 1])
    }
}

pub open spec fn enc_atoms(v: Seq<AtomView>) -> Seq<u8> {
    enc_len(v.len()) + enc_atom_list(v, v.len())
}

/// An atom operand has the bytes of the atom itself; compound forms take the
/// tags that no atom uses.
pub open spec fn enc_cexpr(x: CExprView) -> Seq<u8>
    decreases x,
{
    match x {
        CExprView::Atom(a) => enc_atom(a),
        CExprView::Bin(op, l, r) => tag(3) + tag(arithop_tag(op)) + enc_cexpr(*l) + enc_cexpr(*r),
        CExprView::Neg(e) => tag(4) + enc_cexpr(*e),
        CExprView::Len(e) => tag(5) + enc_cexpr(*e),
        CExprView::Index(b, i) => tag(6) + enc_cexpr(*b) + enc_cexpr(*i),
        CExprView::Proj(b, k) => tag(7) + enc_cexpr(*b) + le32(k),
    }
}

pub open spec fn enc_pred(p: PredView) -> Seq<u8>
    decreases p,
{
    match p {
        PredView::True => tag(0),
        PredView::False => tag(1),
        PredView::Cmp(op, l, r) => tag(2) + tag(cmpop_tag(op)) + enc_cexpr(l) + enc_cexpr(r),
        PredView::And(l, r) => tag(3) + enc_pred(*l) + enc_pred(*r),
        PredView::Or(l, r) => tag(4) + enc_pred(*l) + enc_pred(*r),
        PredView::Not(q) => tag(5) + enc_pred(*q),
        PredView::Forall { lo, hi, body } => tag(6) + enc_cexpr(lo) + enc_cexpr(hi) + enc_pred(
            *body,
        ),
        PredView::Exists { lo, hi, body } => tag(7) + enc_cexpr(lo) + enc_cexpr(hi) + enc_pred(
            *body,
        ),
    }
}

/// The encodings of the first `n` predicates of `v`, one after another.
pub open spec fn enc_pred_list(v: Seq<PredView>, n: nat) -> Seq<u8>
    decreases n,
{
    if n == 0 || n > v.len() {
        Seq::empty()
    } else {
        enc_pred_list(v, (n - 1) as nat) + enc_pred(v[n - 1])
    }
}

pub open spec fn enc_preds(v: Seq<PredView>) -> Seq<u8> {
    enc_len(v.len()) + enc_pred_list(v, v.len())
}

pub open spec fn enc_inv(p: Option<PredView>) -> Seq<u8> {
    match p {
        None => tag(0),
        Some(q) => tag(1) + enc_pred(q),
    }
}

pub open spec fn enc_core(c: CoreView) -> Seq<u8>
    decreases c, 0nat,
{
    match c {
        CoreView::Atom(a) => tag(0) + enc_atom(a),
        CoreView::Let { value, body } => tag(1) + enc_core(*value) + enc_core(*body),
        CoreView::Lam { param, effects, body } => tag(2) + enc_type(param) + enc_row(effects)
            + enc_core(*body),
        CoreView::App { func, arg } => tag(3) + enc_atom(func) + enc_atom(arg),
        CoreView::Ctor { ty, tag: t, fields } => tag(4) + ty + le32(t) + enc_atoms(fields),
        CoreView::Proj { base, idx } => tag(5) + enc_atom(base) + le32(idx),
        CoreView::Match { scrutinee, branches } => tag(6) + enc_atom(scrutinee) + enc_len(
            branches.len(),
        ) + enc_branches(branches, branches.len()),
        CoreView::Prim { op, args } => tag(7) + tag(primop_tag(op)) + enc_atoms(args),
        CoreView::Perform { cap, op, args } => tag(8) + enc_atom(cap) + le32(op) + enc_atoms(args),
        CoreView::Raise { error, args } => tag(9) + error + enc_atoms(args),
        CoreView::Loop { state, inv, cond, body } => tag(10) + enc_atoms(state) + enc_inv(inv)
            + enc_core(*cond) + enc_core(*body),
        CoreView::Cast { value, to } => tag(11) + enc_atom(value) + enc_type(to),
        CoreView::Ref { mutable, of } => tag(12) + enc_bool(mutable) + enc_atom(of),
        CoreView::Array { elem, items } => tag(13) + enc_type(elem) + enc_atoms(items),
        CoreView::IndexSet { base, index, value } => tag(14) + enc_atom(base) + enc_atom(index)
            + enc_atom(value),
        CoreView::ListNew { elem, alloc, capacity } => tag(15) + enc_type(elem) + enc_atom(alloc)
            + enc_atom(capacity),
        CoreView::ListPush { alloc, list, value } => tag(16) + enc_atom(alloc) + enc_atom(list)
            + enc_atom(value),
        CoreView::ListPop { list } => tag(17) + enc_atom(list),
        CoreView::ListSet { list, index, value } => tag(18) + enc_atom(list) + enc_atom(index)
            + enc_atom(value),
        CoreView::Return { value } => tag(19) + enc_atom(value),
    }
}

/// The encodings of the first `n` branches of `v`, one after another.
pub open spec fn enc_branches(v: Seq<BranchView>, n: nat) -> Seq<u8>
    decreases v, n,
{
    if n == 0 || n > v.len() {
        Seq::empty()
    } else {
        enc_branches(v, (n - 1) as nat) + le32(v[n - 1].binds) + enc_core(v[n - 1].body)
    }
}

pub open spec fn enc_body(b: Option<CoreView>) -> Seq<u8> {
    match b {
        None => tag(0),
        Some(c) => tag(1) + enc_core(c),
    }
}

pub open spec fn enc_def(d: DefView) -> Seq<u8> {
    tag(defkind_tag(d.kind)) + enc_type(d.ty) + enc_preds(d.pre) + enc_preds(d.post) + enc_body(
        d.body,
    )
}

/// The bytes whose digest is a definition's content hash.
pub open spec fn def_stream(d: DefView) -> Seq<u8> {
    encode_utf8("marv-core-def-v0"@) + enc_def(d)
}

/// The bytes whose digest is the identity of a named symbol.
pub open spec fn symbol_stream(name: Seq<char>) -> Seq<u8> {
    encode_utf8("marv-core-sym-v0"@) + enc_str(name)
}

/// The content hash of a definition.
pub open spec fn content_id(d: DefView) -> Seq<u8> {
    blake3_digest(def_stream(d))
}

/// The identity of a symbol resolved by name.
pub open spec fn symbol_id(name: Seq<char>) -> Seq<u8> {
    blake3_digest(symbol_stream(name))
}

// ---- the encoder -----------------------------------------------------------

/// A growing canonical encoding.
pub struct Encoder {
    pub buf: Vec<u8>,
}

impl Encoder {
    pub fn new() -> (e: Encoder)
        ensures
            e.buf@ == Seq::<u8>::empty(),
    {
        Encoder { buf: Vec::new() }
    }

    pub fn u8(&mut self, b: u8)
        ensures
            final(self).buf@ == old(self).buf@ + tag(b),
    {
        self.buf.push(b);
        assert(self.buf@ =~= old(self).buf@ + tag(b));
    }

    pub fn u32(&mut self, n: u32)
        ensures
            final(self).buf@ == old(self).buf@ + le32(n),
    {
        self.buf.push((n % 256) as u8);
        self.buf.push((n / 256 % 256) as u8);
        self.buf.push((n / 65536 % 256) as u8);
        self.buf.push((n / 16777216) as u8);
        assert(self.buf@ =~= old(self).buf@ + le32(n));
    }

    pub fn u64(&mut self, n: u64)
        ensures
            final(self).buf@ == old(self).buf@ + le64(n),
    {
        self.u32((n % 4294967296) as u32);
        self.u32((n / 4294967296) as u32);
        assert(self.buf@ =~= old(self).buf@ + le64(n));
    }

    pub fn bytes(&mut self, b: &[u8])
        ensures
            final(self).buf@ == old(self).buf@ + b@,
    {
        self.buf.extend_from_slice(b);
        assert(self.buf@ =~= old(self).buf@ + b@);
    }

    /// Raw bytes after their length.
    pub fn blob(&mut self, b: &[u8])
        ensures
            final(self).buf@ == old(self).buf@ + enc_len(b@.len()) + b@,
    {
        self.u64(b.len() as u64);
        self.bytes(b);
    }

    pub fn str(&mut self, s: &str)
        ensures
            final(self).buf@ == old(self).buf@ + enc_str(s@),
    {
        self.blob(s.as_bytes());
        assert(self.buf@ =~= old(self).buf@ + enc_str(s@));
    }

    pub fn bool(&mut self, b: bool)
        ensures
            final(self).buf@ == old(self).buf@ + enc_bool(b),
    {
        if b {
            self.u8(1);
        } else {
            self.u8(0);
        }
    }

    pub fn hash(&mut self, h: &crate::ir::Hash)
        ensures
            final(self).buf@ == old(self).buf@ + h@,
    {
        self.bytes(h.0.as_slice());
    }
}

/// The bytes whose digest is a definition's content hash.
pub fn def_bytes(def: &Def) -> (r: Vec<u8>)
    ensures
        r@ == def_stream(def@),
{
    let mut e = Encoder::new();
    e.bytes("marv-core-def-v0".as_bytes());
    encode_def(&mut e, def);
    assert(e.buf@ =~= def_stream(def@));
    e.buf
}

/// The bytes whose digest is the identity of a named symbol.
pub fn symbol_bytes(qualified_name: &str) -> (r: Vec<u8>)
    ensures
        r@ == symbol_stream(qualified_name@),
{
    let mut e = Encoder::new();
    e.bytes("marv-core-sym-v0".as_bytes());
    e.str(qualified_name);
    assert(e.buf@ =~= symbol_stream(qualified_name@));
    e.buf
}

/// The content hash of a definition.
pub fn content_hash(def: &Def) -> (h: crate::ir::Hash)
    ensures
        h@ == content_id(def@),
{
    crate::ir::Hash(blake3_hash(&def_bytes(def)))
}

/// The identity of a cross-definition reference, keyed on its resolved name.
pub fn symbol_hash(qualified_name: &str) -> (h: crate::ir::Hash)
    ensures
        h@ == symbol_id(qualified_name@),
{
    crate::ir::Hash(blake3_hash(&symbol_bytes(qualified_name)))
}

impl Def {
    /// The content hash of this definition.
    pub fn content_hash(&self) -> (h: crate::ir::Hash)
        ensures
            h@ == content_id(self@),
    {
        content_hash(self)
    }
}

pub fn encode_def(e: &mut Encoder, def: &Def)
    ensures
        final(e).buf@ == old(e).buf@ + enc_def(def@),
{
    encode_defkind(e, def.kind);
    encode_type(e, &def.ty);
    encode_preds(e, &def.pre);
    encode_preds(e, &def.post);
    match &def.body {
        None => e.u8(0),
        Some(body) => {
            e.u8(1);
            encode_core(e, body);
        },
    }
    assert(e.buf@ =~= old(e).buf@ + enc_def(def@));
}

pub fn encode_defkind(e: &mut Encoder, k: DefKind)
    ensures
        final(e).buf@ == old(e).buf@ + tag(defkind_tag(k)),
{
    e.u8(
        match k {
            DefKind::Fn => 0,
            DefKind::Struct => 1,
            DefKind::Enum => 2,
            DefKind::Interface => 3,
            DefKind::Impl => 4,
            DefKind::Const => 5,
            DefKind::Cap => 6,
            DefKind::Error => 7,
        },
    );
}

pub fn encode_intty(e: &mut Encoder, t: IntTy)
    ensures
        final(e).buf@ == old(e).buf@ + tag(intty_tag(t)),
{
    e.u8(
        match t {
            IntTy::I8 => 0,
            IntTy::I16 => 1,
            IntTy::I32 => 2,
            IntTy::I64 => 3,
            IntTy::Isize => 4,
            IntTy::U8 => 5,
            IntTy::U16 => 6,
            IntTy::U32 => 7,
            IntTy::U64 => 8,
            IntTy::Usize => 9,
        },
    );
}

pub fn encode_floatty(e: &mut Encoder, t: FloatTy)
    ensures
        final(e).buf@ == old(e).buf@ + tag(floatty_tag(t)),
{
    e.u8(
        match t {
            FloatTy::F32 => 0,
            FloatTy::F64 => 1,
        },
    );
}

/// Append the number of types and the types.
pub fn encode_types(e: &mut Encoder, v: &Vec<Type>)
    ensures
        final(e).buf@ == old(e).buf@ + enc_len(v@.len()) + enc_types(ir::types_view(v@), v@.len()),
    decreases v@,
{
    broadcast use ir::lemma_types_view;

    e.u64(v.len() as u64);
    let ghost start = e.buf@;
    let mut i: usize = 0;
    while i < v.len()
        invariant
            i <= v@.len(),
            e.buf@ == start + enc_types(ir::types_view(v@), i as nat),
        decreases v@.len() - i,
    {
        encode_type(e, &v[i]);
        assert(e.buf@ =~= start + enc_types(ir::types_view(v@), (i + 1) as nat));
        i = i + 1;
    }
}

pub fn encode_type(e: &mut Encoder, t: &Type)
    ensures
        final(e).buf@ == old(e).buf@ + enc_type(t@),
    decreases t,
{
    broadcast use ir::lemma_types_view;

    match t {
        Type::Unit => e.u8(0),
        Type::Bool => e.u8(1),
        Type::Int(it) => {
            e.u8(2);
            encode_intty(e, *it);
        },
        Type::Float(ft) => {
            e.u8(3);
            encode_floatty(e, *ft);
        },
        Type::Str => e.u8(4),
        Type::Char => e.u8(5),
        Type::Array(inner, n) => {
            e.u8(6);
            encode_type(e, inner);
            e.u64(*n);
        },
        Type::Slice(inner) => {
            e.u8(7);
            encode_type(e, inner);
        },
        Type::Tuple(elems) => {
            e.u8(8);
            encode_types(e, elems);
        },
        Type::Arrow { param, ret, effects } => {
            e.u8(9);
            encode_type(e, param);
            encode_type(e, ret);
            encode_effectrow(e, effects);
        },
        Type::Nominal { def, args } => {
            e.u8(10);
            e.hash(def);
            encode_types(e, args);
        },
        Type::Ref { mutable, of } => {
            e.u8(11);
            e.bool(*mutable);
            encode_type(e, of);
        },
        Type::Linear(inner) => {
            e.u8(12);
            encode_type(e, inner);
        },
        Type::Var(idx) => {
            e.u8(13);
            e.u32(*idx);
        },
    }
    assert(e.buf@ =~= old(e).buf@ + enc_type(t@));
}

pub fn encode_effectrow(e: &mut Encoder, row: &EffectRow)
    ensures
        final(e).buf@ == old(e).buf@ + enc_row(row@),
{
    encode_sorted_hashes(e, &row.caps);
    encode_sorted_hashes(e, &row.errors);
    assert(e.buf@ =~= old(e).buf@ + enc_row(row@));
}

/// Append a set of hashes in ascending order, after their number.
pub fn encode_sorted_hashes(e: &mut Encoder, hashes: &Vec<crate::ir::Hash>)
    ensures
        final(e).buf@ == old(e).buf@ + enc_hash_set(ir::hashes_view(hashes@)),
{
    let sorted_list = sort_hashes(hashes);
    e.u64(sorted_list.len() as u64);
    let ghost start = e.buf@;
    let ghost all = ir::hashes_view(sorted_list@);
    let mut i: usize = 0;
    while i < sorted_list.len()
        invariant
            i <= sorted_list@.len(),
            all == ir::hashes_view(sorted_list@),
            e.buf@ == start + concat(all, i as nat),
        decreases sorted_list@.len() - i,
    {
        e.hash(&sorted_list[i]);
        assert(e.buf@ =~= start + concat(all, (i + 1) as nat));
        i = i + 1;
    }
    assert(e.buf@ =~= old(e).buf@ + enc_hash_set(ir::hashes_view(hashes@)));
}

pub fn encode_literal(e: &mut Encoder, lit: &Literal)
    ensures
        final(e).buf@ == old(e).buf@ + enc_literal(lit@),
{
    match lit {
        Literal::Unit => e.u8(0),
        Literal::Bool(b) => {
            e.u8(1);
            e.bool(*b);
        },
        Literal::Int(n) => {
            e.u8(2);
            e.u64(*n as u64);
        },
        Literal::Float(bits) => {
            e.u8(3);
            e.u64(*bits);
        },
        Literal::Str(s) => {
            e.u8(4);
            e.str(s.as_str());
        },
        Literal::Char(c) => {
            e.u8(5);
            e.u32(*c as u32);
        },
    }
    assert(e.buf@ =~= old(e).buf@ + enc_literal(lit@));
}

pub fn encode_atom(e: &mut Encoder, a: &Atom)
    ensures
        final(e).buf@ == old(e).buf@ + enc_atom(a@),
{
    match a {
        Atom::Var(idx) => {
            e.u8(0);
            e.u32(*idx);
        },
        Atom::Global(h) => {
            e.u8(1);
            e.hash(h);
        },
        Atom::Lit(lit) => {
            e.u8(2);
            encode_literal(e, lit);
        },
    }
    assert(e.buf@ =~= old(e).buf@ + enc_atom(a@));
}

pub fn encode_atoms(e: &mut Encoder, atoms: &Vec<Atom>)
    ensures
        final(e).buf@ == old(e).buf@ + enc_atoms(ir::atoms_view(atoms@)),
{
    e.u64(atoms.len() as u64);
    let ghost start = e.buf@;
    let mut i: usize = 0;
    while i < atoms.len()
        invariant
            i <= atoms@.len(),
            e.buf@ == start + enc_atom_list(ir::atoms_view(atoms@), i as nat),
        decreases atoms@.len() - i,
    {
        encode_atom(e, &atoms[i]);
        assert(e.buf@ =~= start + enc_atom_list(ir::atoms_view(atoms@), (i + 1) as nat));
        i = i + 1;
    }
    assert(e.buf@ =~= old(e).buf@ + enc_atoms(ir::atoms_view(atoms@)));
}

pub fn encode_primop(e: &mut Encoder, op: PrimOp)
    ensures
        final(e).buf@ == old(e).buf@ + tag(primop_tag(op)),
{
    e.u8(
        match op {
            PrimOp::Add => 0,
            PrimOp::Sub => 1,
            PrimOp::Mul => 2,
            PrimOp::Div => 3,
            PrimOp::Rem => 4,
            PrimOp::Eq => 5,
            PrimOp::Ne => 6,
            PrimOp::Lt => 7,
            PrimOp::Le => 8,
            PrimOp::Gt => 9,
            PrimOp::Ge => 10,
            PrimOp::And => 11,
            PrimOp::Or => 12,
            PrimOp::Not => 13,
            PrimOp::Len => 14,
            PrimOp::Index => 15,
            PrimOp::Neg => 16,
            PrimOp::Slice => 17,
            PrimOp::FromChars => 18,
        },
    );
}

pub fn encode_cmpop(e: &mut Encoder, op: CmpOp)
    ensures
        final(e).buf@ == old(e).buf@ + tag(cmpop_tag(op)),
{
    e.u8(
        match op {
            CmpOp::Eq => 0,
            CmpOp::Ne => 1,
            CmpOp::Lt => 2,
            CmpOp::Le => 3,
            CmpOp::Gt => 4,
            CmpOp::Ge => 5,
        },
    );
}

pub fn encode_arithop(e: &mut Encoder, op: ArithOp)
    ensures
        final(e).buf@ == old(e).buf@ + tag(arithop_tag(op)),
{
    e.u8(
        match op {
            ArithOp::Add => 0,
            ArithOp::Sub => 1,
            ArithOp::Mul => 2,
            ArithOp::Div => 3,
            ArithOp::Rem => 4,
        },
    );
}

/// Append the number of branches and the branches.
pub fn encode_branches(e: &mut Encoder, v: &Vec<Branch>)
    ensures
        final(e).buf@ == old(e).buf@ + enc_len(v@.len()) + enc_branches(
            ir::branches_view(v@),
            v@.len(),
        ),
    decreases v@,
{
    broadcast use ir::lemma_branches_view;

    e.u64(v.len() as u64);
    let ghost start = e.buf@;
    let mut i: usize = 0;
    while i < v.len()
        invariant
            i <= v@.len(),
            e.buf@ == start + enc_branches(ir::branches_view(v@), i as nat),
        decreases v@.len() - i,
    {
        e.u32(v[i].binds);
        encode_core(e, &v[i].body);
        assert(ir::branches_view(v@)[i as int] == v@[i as int]@);
        assert(v@[i as int]@.body == v@[i as int].body@);
        assert(e.buf@ =~= start + enc_branches(ir::branches_view(v@), (i + 1) as nat));
        i = i + 1;
    }
}

pub fn encode_core(e: &mut Encoder, c: &Core)
    ensures
        final(e).buf@ == old(e).buf@ + enc_core(c@),
    decreases c,
{
    broadcast use ir::lemma_branches_view;

    match c {
        Core::Atom(a) => {
            e.u8(0);
            encode_atom(e, a);
            proof {
                seqs::cat2(old(e).buf@, tag(0), enc_atom(a@));
            }
        },
        Core::Let { value, body } => {
            e.u8(1);
            encode_core(e, value);
            encode_core(e, body);
            proof {
                seqs::cat3(old(e).buf@, tag(1), enc_core(value@), enc_core(body@));
            }
        },
        Core::Lam { param, effects, body } => {
            e.u8(2);
            encode_type(e, param);
            encode_effectrow(e, effects);
            encode_core(e, body);
            proof {
                seqs::cat4(old(e).buf@, tag(2), enc_type(param@), enc_row(effects@), enc_core(body@));
            }
        },
        Core::App { func, arg } => {
            e.u8(3);
            encode_atom(e, func);
            encode_atom(e, arg);
            proof {
                seqs::cat3(old(e).buf@, tag(3), enc_atom(func@), enc_atom(arg@));
            }
        },
        Core::Ctor { ty, tag: t, fields } => {
            e.u8(4);
            e.hash(ty);
            e.u32(*t);
            encode_atoms(e, fields);
            proof {
                seqs::cat4(old(e).buf@, tag(4), ty@, le32(*t), enc_atoms(ir::atoms_view(fields@)));
            }
        },
        Core::Proj { base, idx } => {
            e.u8(5);
            encode_atom(e, base);
            e.u32(*idx);
            proof {
                seqs::cat3(old(e).buf@, tag(5), enc_atom(base@), le32(*idx));
            }
        },
        Core::Match { scrutinee, branches } => {
            e.u8(6);
            encode_atom(e, scrutinee);
            encode_branches(e, branches);
            proof {
                seqs::cat4(old(e).buf@, tag(6), enc_atom(scrutinee@), enc_len(branches@.len()), enc_branches(ir::branches_view(branches@), branches@.len()));
            }
        },
        Core::Prim { op, args } => {
            e.u8(7);
            encode_primop(e, *op);
            encode_atoms(e, args);
            proof {
                seqs::cat3(old(e).buf@, tag(7), tag(primop_tag(*op)), enc_atoms(ir::atoms_view(args@)));
            }
        },
        Core::Perform { cap, op, args } => {
            e.u8(8);
            encode_atom(e, cap);
            e.u32(op.0);
            encode_atoms(e, args);
            proof {
                seqs::cat4(old(e).buf@, tag(8), enc_atom(cap@), le32(op.0), enc_atoms(ir::atoms_view(args@)));
            }
        },
        Core::Raise { error, args } => {
            e.u8(9);
            e.hash(error);
            encode_atoms(e, args);
            proof {
                seqs::cat3(old(e).buf@, tag(9), error@, enc_atoms(ir::atoms_view(args@)));
            }
        },
        Core::Loop { state, inv, cond, body } => {
            e.u8(10);
            encode_atoms(e, state);
            match inv {
                None => e.u8(0),
                Some(p) => {
                    e.u8(1);
                    encode_pred(e, p);
                },
            }
            encode_core(e, cond);
            encode_core(e, body);
            proof {
                if inv is Some {
                    seqs::cat2(old(e).buf@ + tag(10) + enc_atoms(ir::atoms_view(state@)), tag(1), enc_pred(inv->0@));
                }
                seqs::cat5(old(e).buf@, tag(10), enc_atoms(ir::atoms_view(state@)), enc_inv(ir::inv_view(*inv)), enc_core(cond@), enc_core(body@));
            }
        },
        Core::Cast { value, to } => {
            e.u8(11);
            encode_atom(e, value);
            encode_type(e, to);
            proof {
                seqs::cat3(old(e).buf@, tag(11), enc_atom(value@), enc_type(to@));
            }
        },
        Core::Ref { mutable, of } => {
            e.u8(12);
            e.bool(*mutable);
            encode_atom(e, of);
            proof {
                seqs::cat3(old(e).buf@, tag(12), enc_bool(*mutable), enc_atom(of@));
            }
        },
        Core::Array { elem, items } => {
            e.u8(13);
            encode_type(e, elem);
            encode_atoms(e, items);
            proof {
                seqs::cat3(old(e).buf@, tag(13), enc_type(elem@), enc_atoms(ir::atoms_view(items@)));
            }
        },
        Core::IndexSet { base, index, value } => {
            e.u8(14);
            encode_atom(e, base);
            encode_atom(e, index);
            encode_atom(e, value);
            proof {
                seqs::cat4(old(e).buf@, tag(14), enc_atom(base@), enc_atom(index@), enc_atom(value@));
            }
        },
        Core::ListNew { elem, alloc, capacity } => {
            e.u8(15);
            encode_type(e, elem);
            encode_atom(e, alloc);
            encode_atom(e, capacity);
            proof {
                seqs::cat4(old(e).buf@, tag(15), enc_type(elem@), enc_atom(alloc@), enc_atom(capacity@));
            }
        },
        Core::ListPush { alloc, list, value } => {
            e.u8(16);
            encode_atom(e, alloc);
            encode_atom(e, list);
            encode_atom(e, value);
            proof {
                seqs::cat4(old(e).buf@, tag(16), enc_atom(alloc@), enc_atom(list@), enc_atom(value@));
            }
        },
        Core::ListPop { list } => {
            e.u8(17);
            encode_atom(e, list);
            proof {
                seqs::cat2(old(e).buf@, tag(17), enc_atom(list@));
            }
        },
        Core::ListSet { list, index, value } => {
            e.u8(18);
            encode_atom(e, list);
            encode_atom(e, index);
            encode_atom(e, value);
            proof {
                seqs::cat4(old(e).buf@, tag(18), enc_atom(list@), enc_atom(index@), enc_atom(value@));
            }
        },
        Core::Return { value } => {
            e.u8(19);
            encode_atom(e, value);
            proof {
                seqs::cat2(old(e).buf@, tag(19), enc_atom(value@));
            }
        },
    }
}

pub fn encode_preds(e: &mut Encoder, preds: &Vec<Pred>)
    ensures
        final(e).buf@ == old(e).buf@ + enc_preds(ir::preds_view(preds@)),
{
    e.u64(preds.len() as u64);
    let ghost start = e.buf@;
    let mut i: usize = 0;
    while i < preds.len()
        invariant
            i <= preds@.len(),
            e.buf@ == start + enc_pred_list(ir::preds_view(preds@), i as nat),
        decreases preds@.len() - i,
    {
        encode_pred(e, &preds[i]);
        assert(e.buf@ =~= start + enc_pred_list(ir::preds_view(preds@), (i + 1) as nat));
        i = i + 1;
    }
    assert(e.buf@ =~= old(e).buf@ + enc_preds(ir::preds_view(preds@)));
}

pub fn encode_pred(e: &mut Encoder, p: &Pred)
    ensures
        final(e).buf@ == old(e).buf@ + enc_pred(p@),
    decreases p,
{
    match p {
        Pred::True => e.u8(0),
        Pred::False => e.u8(1),
        Pred::Cmp(op, l, r) => {
            e.u8(2);
            encode_cmpop(e, *op);
            encode_cexpr(e, l);
            encode_cexpr(e, r);
        },
        Pred::And(l, r) => {
            e.u8(3);
            encode_pred(e, l);
            encode_pred(e, r);
        },
        Pred::Or(l, r) => {
            e.u8(4);
            encode_pred(e, l);
            encode_pred(e, r);
        },
        Pred::Not(inner) => {
            e.u8(5);
            encode_pred(e, inner);
        },
        Pred::Forall { domain, body } => {
            e.u8(6);
            encode_cexpr(e, &domain.0);
            encode_cexpr(e, &domain.1);
            encode_pred(e, body);
        },
        Pred::Exists { domain, body } => {
            e.u8(7);
            encode_cexpr(e, &domain.0);
            encode_cexpr(e, &domain.1);
            encode_pred(e, body);
        },
    }
    assert(e.buf@ =~= old(e).buf@ + enc_pred(p@));
}

/// Append a contract expression: an atom has the bytes of the atom itself.
pub fn encode_cexpr(e: &mut Encoder, x: &CExpr)
    ensures
        final(e).buf@ == old(e).buf@ + enc_cexpr(x@),
    decreases x,
{
    match x {
        CExpr::Atom(a) => encode_atom(e, a),
        CExpr::Node(n) => encode_cnode(e, n),
    }
}

fn encode_cnode(e: &mut Encoder, n: &CNode)
    ensures
        final(e).buf@ == old(e).buf@ + enc_cexpr(n@),
    decreases n,
{
    match n {
        CNode::Bin(op, l, r) => {
            e.u8(3);
            encode_arithop(e, *op);
            encode_cexpr(e, l);
            encode_cexpr(e, r);
        },
        CNode::Neg(inner) => {
            e.u8(4);
            encode_cexpr(e, inner);
        },
        CNode::Len(inner) => {
            e.u8(5);
            encode_cexpr(e, inner);
        },
        CNode::Index(base, index) => {
            e.u8(6);
            encode_cexpr(e, base);
            encode_cexpr(e, index);
        },
        CNode::Proj(base, idx) => {
            e.u8(7);
            encode_cexpr(e, base);
            e.u32(*idx);
        },
    }
    assert(e.buf@ =~= old(e).buf@ + enc_cexpr(n@));
}

} // verus!
