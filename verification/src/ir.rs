//! The Core intermediate representation.
//!
//! Every surface program becomes a small typed term language in A-normal form
//! (each operand is atomic) with de Bruijn indices (variable names never
//! appear), so two programs that differ only in the names of their locals are
//! the same Core term. The unit of identity is the content hash of a [`Def`];
//! see [`crate::hash`].
//!
//! Each executable type has a mathematical counterpart whose name ends in
//! `View`: vectors become sequences and strings become sequences of characters.
//! `x@` is the counterpart of `x`, and the contracts of this crate speak of it.
use vstd::prelude::*;
use vstd::string::*;

use crate::ops;
use crate::ops::hex_value;
use crate::text::digit;

verus! {

/// A content hash: 32 bytes. Used for the identity of a definition and for
/// references to other definitions ([`Atom::Global`], [`Type::Nominal`]).
#[derive(Debug, Clone, Copy, PartialEq, Eq, PartialOrd, Ord, Hash)]
pub struct Hash(pub [u8; 32]);

impl View for Hash {
    type V = Seq<u8>;

    open spec fn view(&self) -> Seq<u8> {
        self.0@
    }
}

impl Hash {
    /// Whether two hashes hold the same bytes.
    pub fn same(&self, other: &Hash) -> (r: bool)
        ensures
            r == (self@ == other@),
    {
        let mut i: usize = 0;
        while i < 32
            invariant
                i <= 32,
                forall|k: int| 0 <= k < i ==> self@[k] == other@[k],
            decreases 32 - i,
        {
            if self.0[i] != other.0[i] {
                assert(self@[i as int] != other@[i as int]);
                return false;
            }
            i = i + 1;
        }
        assert(self@ =~= other@);
        true
    }

    /// The lower-case hexadecimal spelling of all 32 bytes.
    pub fn to_hex(&self) -> (s: String)
        ensures
            s@ == ops::hex_view(self@),
    {
        let mut s = String::new();
        let mut i: usize = 0;
        while i < 32
            invariant
                i <= 32,
                s@ == ops::hex_view(self@).take(2 * i),
            decreases 32 - i,
        {
            let b = self.0[i];
            s.push(digit(b / 16));
            s.push(digit(b % 16));
            assert(s@ =~= ops::hex_view(self@).take(2 * (i + 1)));
            i = i + 1;
        }
        assert(ops::hex_view(self@).take(64) =~= ops::hex_view(self@));
        s
    }

    /// The wire spelling: `b3:` and the hexadecimal spelling.
    pub fn to_b3(&self) -> (s: String)
        ensures
            s@ == "b3:"@ + ops::hex_view(self@),
    {
        let mut s = "b3:".to_owned();
        s.append(self.to_hex().as_str());
        s
    }

    /// Read a `b3:` (or bare hexadecimal) spelling; `None` unless its body is
    /// exactly 64 hexadecimal digits.
    pub fn from_b3(s: &str) -> (r: Option<Hash>)
        ensures
            match ops::hex_bytes(ops::b3_body(s@)) {
                Some(b) => r is Some && r->0@ == b,
                None => r is None,
            },
    {
        let n = s.unicode_len();
        let mut start: usize = 0;
        if n >= 3 && s.get_char(0) == 'b' && s.get_char(1) == '3' && s.get_char(2) == ':' {
            start = 3;
        }
        let ghost body = ops::b3_body(s@);
        assert(body.len() == n - start);
        assert(forall|k: int| 0 <= k < body.len() ==> #[trigger] body[k] == s@[k + start]);
        if n - start != 64 {
            return None;
        }
        let mut bytes: [u8; 32] = [0u8;32];
        let mut i: usize = 0;
        while i < 32
            invariant
                i <= 32,
                n == s@.len(),
                n - start == 64,
                body.len() == 64,
                forall|k: int| 0 <= k < body.len() ==> #[trigger] body[k] == s@[k + start],
                forall|k: int| 0 <= k < 2 * i ==> ops::digit_value(#[trigger] body[k]) is Some,
                forall|k: int|
                    0 <= k < i ==> #[trigger] bytes@[k] == ops::digit_value(body[2 * k])->0 * 16
                        + ops::digit_value(body[2 * k + 1])->0,
                ops::hex_bytes(body) is Some ==> forall|k: int|
                    0 <= k < 64 ==> ops::digit_value(#[trigger] body[k]) is Some,
                body == ops::b3_body(s@),
            decreases 32 - i,
        {
            let c1 = s.get_char(start + 2 * i);
            let c2 = s.get_char(start + 2 * i + 1);
            assert(body[2 * i as int] == c1);
            assert(body[2 * i + 1] == c2);
            let h = match hex_value(c1) {
                Some(v) => v,
                None => {
                    return None;
                },
            };
            let l = match hex_value(c2) {
                Some(v) => v,
                None => {
                    return None;
                },
            };
            let ghost before = bytes@;
            bytes[i] = h * 16 + l;
            assert forall|k: int| 0 <= k < 2 * (i + 1) implies ops::digit_value(
                #[trigger] body[k],
            ) is Some by {
                if k == 2 * i {
                } else if k == 2 * i + 1 {
                }
            }
            i = i + 1;
        }
        let r = Hash(bytes);
        proof {
            assert(ops::hex_bytes(body) is Some);
            assert(r@ =~= ops::hex_bytes(body)->0);
        }
        Some(r)
    }
}

/// Width of an integer type.
#[derive(Debug, Clone, Copy, PartialEq, Eq, Structural)]
pub enum IntTy {
    I8,
    I16,
    I32,
    I64,
    Isize,
    U8,
    U16,
    U32,
    U64,
    Usize,
}

/// Width of a floating-point type.
#[derive(Debug, Clone, Copy, PartialEq, Eq, Structural)]
pub enum FloatTy {
    F32,
    F64,
}

/// A canonical Core type.
#[derive(Debug, PartialEq, Eq)]
pub enum Type {
    Unit,
    Bool,
    Int(IntTy),
    Float(FloatTy),
    Str,
    Char,
    Array(Box<Type>, u64),
    Slice(Box<Type>),
    Tuple(Vec<Type>),
    /// A function type; it carries the effects a call may have.
    Arrow { param: Box<Type>, ret: Box<Type>, effects: EffectRow },
    /// A declared type, referred to by hash.
    Nominal { def: Hash, args: Vec<Type> },
    /// A second-class reference; never stored.
    Ref { mutable: bool, of: Box<Type> },
    /// A resource type, used exactly once.
    Linear(Box<Type>),
    /// A generic type variable (de Bruijn).
    Var(u32),
}

/// The mathematical counterpart of [`Type`].
#[verifier::ext_equal]
pub enum TypeView {
    Unit,
    Bool,
    Int(IntTy),
    Float(FloatTy),
    Str,
    Char,
    Array(Box<TypeView>, u64),
    Slice(Box<TypeView>),
    Tuple(Seq<TypeView>),
    Arrow { param: Box<TypeView>, ret: Box<TypeView>, effects: EffectView },
    Nominal { def: Seq<u8>, args: Seq<TypeView> },
    Ref { mutable: bool, of: Box<TypeView> },
    Linear(Box<TypeView>),
    Var(u32),
}

/// The capabilities a computation may exercise and the errors it may raise.
///
/// Both members are sets: the order in which they are written is incidental.
/// The empty row means `pure`.
#[derive(Debug, PartialEq, Eq)]
pub struct EffectRow {
    pub caps: Vec<Hash>,
    pub errors: Vec<Hash>,
}

/// The mathematical counterpart of [`EffectRow`].
#[verifier::ext_equal]
pub struct EffectView {
    pub caps: Seq<Seq<u8>>,
    pub errors: Seq<Seq<u8>>,
}

/// The bytes of each hash of a sequence.
pub open spec fn hashes_view(v: Seq<Hash>) -> Seq<Seq<u8>> {
    Seq::new(v.len(), |i: int| v[i]@)
}

impl View for EffectRow {
    type V = EffectView;

    open spec fn view(&self) -> EffectView {
        EffectView { caps: hashes_view(self.caps@), errors: hashes_view(self.errors@) }
    }
}

impl EffectView {
    /// The row of a pure computation.
    pub open spec fn pure() -> EffectView {
        EffectView { caps: Seq::empty(), errors: Seq::empty() }
    }
}

impl Type {
    pub open spec fn model(self) -> TypeView
        decreases self,
    {
        match self {
            Type::Unit => TypeView::Unit,
            Type::Bool => TypeView::Bool,
            Type::Int(t) => TypeView::Int(t),
            Type::Float(t) => TypeView::Float(t),
            Type::Str => TypeView::Str,
            Type::Char => TypeView::Char,
            Type::Array(t, n) => TypeView::Array(Box::new(t.model()), n),
            Type::Slice(t) => TypeView::Slice(Box::new(t.model())),
            Type::Tuple(v) => TypeView::Tuple(types_view(v@)),
            Type::Arrow { param, ret, effects } => TypeView::Arrow {
                param: Box::new(param.model()),
                ret: Box::new(ret.model()),
                effects: effects@,
            },
            Type::Nominal { def, args } => TypeView::Nominal { def: def@, args: types_view(args@) },
            Type::Ref { mutable, of } => TypeView::Ref { mutable, of: Box::new(of.model()) },
            Type::Linear(t) => TypeView::Linear(Box::new(t.model())),
            Type::Var(i) => TypeView::Var(i),
        }
    }
}

/// The counterpart of a sequence of types, member by member.
pub open spec fn types_view(v: Seq<Type>) -> Seq<TypeView>
    decreases v,
{
    Seq::new(
        v.len(),
        |i: int|
            if 0 <= i < v.len() {
                v[i].model()
            } else {
                TypeView::Unit
            },
    )
}

/// Each member of a list's counterpart is the counterpart of the member.
pub broadcast proof fn lemma_types_view(v: Seq<Type>)
    ensures
        (#[trigger] types_view(v)).len() == v.len(),
        forall|i: int| 0 <= i < v.len() ==> #[trigger] types_view(v)[i] == v[i]@,
{
    assert forall|i: int| 0 <= i < v.len() implies #[trigger] types_view(v)[i] == v[i]@ by {
        assert(v[i]@ == v[i].model());
    }
}

impl View for Type {
    type V = TypeView;

    open spec fn view(&self) -> TypeView {
        self.model()
    }
}

/// A literal value. Floats are kept as their bits, so the encoding is exact.
#[derive(Debug, PartialEq, Eq)]
pub enum Literal {
    Unit,
    Bool(bool),
    Int(i64),
    Float(u64),
    Str(String),
    Char(char),
}

/// The mathematical counterpart of [`Literal`].
#[verifier::ext_equal]
pub enum LiteralView {
    Unit,
    Bool(bool),
    Int(i64),
    Float(u64),
    Str(Seq<char>),
    Char(char),
}

impl View for Literal {
    type V = LiteralView;

    open spec fn view(&self) -> LiteralView {
        match self {
            Literal::Unit => LiteralView::Unit,
            Literal::Bool(b) => LiteralView::Bool(*b),
            Literal::Int(n) => LiteralView::Int(*n),
            Literal::Float(n) => LiteralView::Float(*n),
            Literal::Str(s) => LiteralView::Str(s@),
            Literal::Char(c) => LiteralView::Char(*c),
        }
    }
}

/// An atomic operand.
#[derive(Debug, PartialEq, Eq)]
pub enum Atom {
    /// A de Bruijn index into the local environment.
    Var(u32),
    /// A reference to another definition.
    Global(Hash),
    Lit(Literal),
}

/// The mathematical counterpart of [`Atom`].
#[verifier::ext_equal]
pub enum AtomView {
    Var(u32),
    Global(Seq<u8>),
    Lit(LiteralView),
}

impl View for Atom {
    type V = AtomView;

    open spec fn view(&self) -> AtomView {
        match self {
            Atom::Var(i) => AtomView::Var(*i),
            Atom::Global(h) => AtomView::Global(h@),
            Atom::Lit(l) => AtomView::Lit(l@),
        }
    }
}

/// The counterpart of a sequence of atoms, member by member.
pub open spec fn atoms_view(v: Seq<Atom>) -> Seq<AtomView> {
    Seq::new(v.len(), |i: int| v[i]@)
}

/// A primitive operation.
#[derive(Debug, Clone, Copy, PartialEq, Eq, Structural)]
pub enum PrimOp {
    Add,
    Sub,
    Mul,
    Div,
    Rem,
    Eq,
    Ne,
    Lt,
    Le,
    Gt,
    Ge,
    /// Strict conjunction: both operands are already evaluated.
    And,
    /// Strict disjunction.
    Or,
    Not,
    /// Arithmetic negation.
    Neg,
    Len,
    Index,
    /// A part of a string, between two positions.
    Slice,
    /// A string built from a list of characters.
    FromChars,
}

/// A comparison inside a contract predicate.
#[derive(Debug, Clone, Copy, PartialEq, Eq, Structural)]
pub enum CmpOp {
    Eq,
    Ne,
    Lt,
    Le,
    Gt,
    Ge,
}

/// An arithmetic operator inside a contract expression. Division and remainder
/// truncate toward zero.
#[derive(Debug, Clone, Copy, PartialEq, Eq, Structural)]
pub enum ArithOp {
    Add,
    Sub,
    Mul,
    Div,
    Rem,
}

/// A contract expression: what a [`Pred`] compares and quantifies over.
#[derive(Debug, PartialEq, Eq)]
pub enum CExpr {
    Atom(Atom),
    Node(Box<CNode>),
}

/// The compound forms of a [`CExpr`].
#[derive(Debug, PartialEq, Eq)]
pub enum CNode {
    /// Integer arithmetic `l op r`.
    Bin(ArithOp, CExpr, CExpr),
    /// Negation `-e`.
    Neg(CExpr),
    /// Collection length `len(e)`.
    Len(CExpr),
    /// Element read `base[index]`.
    Index(CExpr, CExpr),
    /// Field projection, by declaration index.
    Proj(CExpr, u32),
}

/// The mathematical counterpart of [`CExpr`].
#[verifier::ext_equal]
pub enum CExprView {
    Atom(AtomView),
    Bin(ArithOp, Box<CExprView>, Box<CExprView>),
    Neg(Box<CExprView>),
    Len(Box<CExprView>),
    Index(Box<CExprView>, Box<CExprView>),
    Proj(Box<CExprView>, u32),
}

impl CExpr {
    pub open spec fn model(self) -> CExprView
        decreases self,
    {
        match self {
            CExpr::Atom(a) => CExprView::Atom(a@),
            CExpr::Node(n) => n.model(),
        }
    }
}

impl CNode {
    pub open spec fn model(self) -> CExprView
        decreases self,
    {
        match self {
            CNode::Bin(op, l, r) => CExprView::Bin(op, Box::new(l.model()), Box::new(r.model())),
            CNode::Neg(e) => CExprView::Neg(Box::new(e.model())),
            CNode::Len(e) => CExprView::Len(Box::new(e.model())),
            CNode::Index(b, i) => CExprView::Index(Box::new(b.model()), Box::new(i.model())),
            CNode::Proj(b, k) => CExprView::Proj(Box::new(b.model()), k),
        }
    }
}

impl View for CExpr {
    type V = CExprView;

    open spec fn view(&self) -> CExprView {
        self.model()
    }
}

impl View for CNode {
    type V = CExprView;

    open spec fn view(&self) -> CExprView {
        self.model()
    }
}

/// A capability method at a [`Core::Perform`].
#[derive(Debug, Clone, Copy, PartialEq, Eq, Structural)]
pub struct OpId(pub u32);

/// A Core term.
#[allow(inconsistent_fields)]
#[derive(Debug, PartialEq, Eq)]
pub enum Core {
    Atom(Atom),
    /// Binds one variable (index 0) in `body`.
    Let { value: Box<Core>, body: Box<Core> },
    /// Binds one parameter.
    Lam { param: Type, effects: EffectRow, body: Box<Core> },
    App { func: Atom, arg: Atom },
    /// A product (tag 0) or a variant of a sum.
    Ctor { ty: Hash, tag: u32, fields: Vec<Atom> },
    /// A fixed-length array.
    Array { elem: Type, items: Vec<Atom> },
    /// A fresh copy of `base` in which position `index` holds `value`.
    IndexSet { base: Atom, index: Atom, value: Atom },
    /// Field `idx` of an aggregate.
    Proj { base: Atom, idx: u32 },
    /// Case over a sum; branch `i` covers tag `i`.
    Match { scrutinee: Atom, branches: Vec<Branch> },
    Prim { op: PrimOp, args: Vec<Atom> },
    /// Scalar conversion.
    Cast { value: Atom, to: Type },
    /// A second-class reference; at run time it is its referent.
    Ref { mutable: bool, of: Atom },
    /// A capability operation.
    Perform { cap: Atom, op: OpId, args: Vec<Atom> },
    Raise { error: Hash, args: Vec<Atom> },
    /// Loop with explicit carried state. `state` is evaluated outside; inside
    /// `inv`, `cond` and `body` the carried variables are the innermost
    /// `state.len()` slots, `body` yields their next values as a tuple, and the
    /// loop itself yields their final values.
    Loop { state: Vec<Atom>, inv: Option<Box<Pred>>, cond: Box<Core>, body: Box<Core> },
    /// A new growable list with room for `capacity` elements.
    ListNew { elem: Type, alloc: Atom, capacity: Atom },
    /// The list with `value` appended.
    ListPush { alloc: Atom, list: Atom, value: Atom },
    /// The last element of a list, removed from it.
    ListPop { list: Atom },
    /// The list with position `index` replaced.
    ListSet { list: Atom, index: Atom, value: Atom },
    /// Early exit from the enclosing function.
    Return { value: Atom },
}

/// One arm of a [`Core::Match`]; `binds` is the number of fields it brings into
/// scope.
#[derive(Debug, PartialEq, Eq)]
pub struct Branch {
    pub binds: u32,
    pub body: Core,
}

/// A first-order predicate of a contract or a loop invariant.
///
/// In `Def::pre` and `Def::post`, `Var(k)` is the k-th parameter,
/// `Var(n)` (n the arity) is `result`, and `Var(n + 1 + j)` is the binder of the
/// j-th enclosing quantifier, the outermost first. In a loop invariant `Var(k)`
/// is a de Bruijn index and each quantifier binds index 0 in its body.
#[derive(Debug, PartialEq, Eq)]
pub enum Pred {
    True,
    False,
    Cmp(CmpOp, CExpr, CExpr),
    And(Box<Pred>, Box<Pred>),
    Or(Box<Pred>, Box<Pred>),
    Not(Box<Pred>),
    /// Over the half-open range `[lo, hi)`, evaluated outside the binder.
    Forall { domain: (CExpr, CExpr), body: Box<Pred> },
    Exists { domain: (CExpr, CExpr), body: Box<Pred> },
}

/// The mathematical counterpart of [`Core`].
#[allow(inconsistent_fields)]
#[verifier::ext_equal]
pub enum CoreView {
    Atom(AtomView),
    Let { value: Box<CoreView>, body: Box<CoreView> },
    Lam { param: TypeView, effects: EffectView, body: Box<CoreView> },
    App { func: AtomView, arg: AtomView },
    Ctor { ty: Seq<u8>, tag: u32, fields: Seq<AtomView> },
    Array { elem: TypeView, items: Seq<AtomView> },
    IndexSet { base: AtomView, index: AtomView, value: AtomView },
    Proj { base: AtomView, idx: u32 },
    Match { scrutinee: AtomView, branches: Seq<BranchView> },
    Prim { op: PrimOp, args: Seq<AtomView> },
    Cast { value: AtomView, to: TypeView },
    Ref { mutable: bool, of: AtomView },
    Perform { cap: AtomView, op: u32, args: Seq<AtomView> },
    Raise { error: Seq<u8>, args: Seq<AtomView> },
    Loop { state: Seq<AtomView>, inv: Option<PredView>, cond: Box<CoreView>, body: Box<CoreView> },
    ListNew { elem: TypeView, alloc: AtomView, capacity: AtomView },
    ListPush { alloc: AtomView, list: AtomView, value: AtomView },
    ListPop { list: AtomView },
    ListSet { list: AtomView, index: AtomView, value: AtomView },
    Return { value: AtomView },
}

/// The mathematical counterpart of [`Branch`].
#[verifier::ext_equal]
pub struct BranchView {
    pub binds: u32,
    pub body: CoreView,
}

/// The mathematical counterpart of [`Pred`].
#[verifier::ext_equal]
pub enum PredView {
    True,
    False,
    Cmp(CmpOp, CExprView, CExprView),
    And(Box<PredView>, Box<PredView>),
    Or(Box<PredView>, Box<PredView>),
    Not(Box<PredView>),
    Forall { lo: CExprView, hi: CExprView, body: Box<PredView> },
    Exists { lo: CExprView, hi: CExprView, body: Box<PredView> },
}

impl Pred {
    pub open spec fn model(self) -> PredView
        decreases self,
    {
        match self {
            Pred::True => PredView::True,
            Pred::False => PredView::False,
            Pred::Cmp(op, l, r) => PredView::Cmp(op, l@, r@),
            Pred::And(l, r) => PredView::And(Box::new(l.model()), Box::new(r.model())),
            Pred::Or(l, r) => PredView::Or(Box::new(l.model()), Box::new(r.model())),
            Pred::Not(p) => PredView::Not(Box::new(p.model())),
            Pred::Forall { domain, body } => PredView::Forall {
                lo: domain.0@,
                hi: domain.1@,
                body: Box::new(body.model()),
            },
            Pred::Exists { domain, body } => PredView::Exists {
                lo: domain.0@,
                hi: domain.1@,
                body: Box::new(body.model()),
            },
        }
    }
}

impl View for Pred {
    type V = PredView;

    open spec fn view(&self) -> PredView {
        self.model()
    }
}

/// The counterpart of a sequence of predicates, member by member.
pub open spec fn preds_view(v: Seq<Pred>) -> Seq<PredView> {
    Seq::new(v.len(), |i: int| v[i]@)
}

/// The counterpart of a loop's optional invariant.
pub open spec fn inv_view(p: Option<Box<Pred>>) -> Option<PredView> {
    match p {
        Some(p) => Some(p@),
        None => None,
    }
}

impl Core {
    pub open spec fn model(self) -> CoreView
        decreases self,
    {
        match self {
            Core::Atom(a) => CoreView::Atom(a@),
            Core::Let { value, body } => CoreView::Let {
                value: Box::new(value.model()),
                body: Box::new(body.model()),
            },
            Core::Lam { param, effects, body } => CoreView::Lam {
                param: param@,
                effects: effects@,
                body: Box::new(body.model()),
            },
            Core::App { func, arg } => CoreView::App { func: func@, arg: arg@ },
            Core::Ctor { ty, tag, fields } => CoreView::Ctor {
                ty: ty@,
                tag,
                fields: atoms_view(fields@),
            },
            Core::Array { elem, items } => CoreView::Array {
                elem: elem@,
                items: atoms_view(items@),
            },
            Core::IndexSet { base, index, value } => CoreView::IndexSet {
                base: base@,
                index: index@,
                value: value@,
            },
            Core::Proj { base, idx } => CoreView::Proj { base: base@, idx },
            Core::Match { scrutinee, branches } => CoreView::Match {
                scrutinee: scrutinee@,
                branches: branches_view(branches@),
            },
            Core::Prim { op, args } => CoreView::Prim { op, args: atoms_view(args@) },
            Core::Cast { value, to } => CoreView::Cast { value: value@, to: to@ },
            Core::Ref { mutable, of } => CoreView::Ref { mutable, of: of@ },
            Core::Perform { cap, op, args } => CoreView::Perform {
                cap: cap@,
                op: op.0,
                args: atoms_view(args@),
            },
            Core::Raise { error, args } => CoreView::Raise {
                error: error@,
                args: atoms_view(args@),
            },
            Core::Loop { state, inv, cond, body } => CoreView::Loop {
                state: atoms_view(state@),
                inv: inv_view(inv),
                cond: Box::new(cond.model()),
                body: Box::new(body.model()),
            },
            Core::ListNew { elem, alloc, capacity } => CoreView::ListNew {
                elem: elem@,
                alloc: alloc@,
                capacity: capacity@,
            },
            Core::ListPush { alloc, list, value } => CoreView::ListPush {
                alloc: alloc@,
                list: list@,
                value: value@,
            },
            Core::ListPop { list } => CoreView::ListPop { list: list@ },
            Core::ListSet { list, index, value } => CoreView::ListSet {
                list: list@,
                index: index@,
                value: value@,
            },
            Core::Return { value } => CoreView::Return { value: value@ },
        }
    }
}

impl Branch {
    pub open spec fn model(self) -> BranchView
        decreases self,
    {
        BranchView { binds: self.binds, body: self.body.model() }
    }
}

/// The counterpart of a sequence of branches, member by member.
pub open spec fn branches_view(v: Seq<Branch>) -> Seq<BranchView>
    decreases v,
{
    Seq::new(
        v.len(),
        |i: int|
            if 0 <= i < v.len() {
                v[i].model()
            } else {
                BranchView { binds: 0, body: CoreView::Atom(AtomView::Var(0)) }
            },
    )
}

/// Each member of a list's counterpart is the counterpart of the member.
pub broadcast proof fn lemma_branches_view(v: Seq<Branch>)
    ensures
        (#[trigger] branches_view(v)).len() == v.len(),
        forall|i: int| 0 <= i < v.len() ==> #[trigger] branches_view(v)[i] == v[i]@,
{
    assert forall|i: int| 0 <= i < v.len() implies #[trigger] branches_view(v)[i] == v[i]@ by {
        assert(v[i]@ == v[i].model());
    }
}

impl View for Core {
    type V = CoreView;

    open spec fn view(&self) -> CoreView {
        self.model()
    }
}

impl View for Branch {
    type V = BranchView;

    open spec fn view(&self) -> BranchView {
        self.model()
    }
}

/// The kind of a top-level definition.
#[derive(Debug, Clone, Copy, PartialEq, Eq, Structural)]
pub enum DefKind {
    Fn,
    Struct,
    Enum,
    Interface,
    Impl,
    Const,
    Cap,
    Error,
}

/// A top-level definition.
#[derive(Debug, PartialEq, Eq)]
pub struct Def {
    pub kind: DefKind,
    pub ty: Type,
    pub pre: Vec<Pred>,
    pub post: Vec<Pred>,
    /// `None` for signatures without a body.
    pub body: Option<Core>,
}

/// The mathematical counterpart of [`Def`].
#[verifier::ext_equal]
pub struct DefView {
    pub kind: DefKind,
    pub ty: TypeView,
    pub pre: Seq<PredView>,
    pub post: Seq<PredView>,
    pub body: Option<CoreView>,
}

/// The counterpart of an optional body.
pub open spec fn body_view(b: Option<Core>) -> Option<CoreView> {
    match b {
        Some(c) => Some(c@),
        None => None,
    }
}

impl View for Def {
    type V = DefView;

    open spec fn view(&self) -> DefView {
        DefView {
            kind: self.kind,
            ty: self.ty@,
            pre: preds_view(self.pre@),
            post: preds_view(self.post@),
            body: body_view(self.body),
        }
    }
}

} // verus!
