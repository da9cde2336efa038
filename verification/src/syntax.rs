//! The surface syntax tree, as the front end hands it over.
use vstd::prelude::*;

use crate::text;
use crate::text::clone_strings;

verus! {

/// A parsed module.
#[derive(Debug, PartialEq, Eq)]
pub struct Module {
    /// Its dotted name, segment by segment.
    pub name: Vec<String>,
    pub imports: Vec<Import>,
    pub items: Vec<Item>,
}

/// `import path (names...)`.
#[derive(Debug, PartialEq, Eq)]
pub struct Import {
    pub path: Vec<String>,
    pub names: Vec<String>,
}

/// A top-level item.
#[derive(Debug, PartialEq, Eq)]
pub enum Item {
    Fn(FnDecl),
    Struct(StructDecl),
    Enum(EnumDecl),
    Error(ErrorDecl),
    Interface(InterfaceDecl),
    Impl(ImplDecl),
}

/// A generic parameter with its optional bound.
#[derive(Debug, PartialEq, Eq)]
pub struct Generic {
    pub name: String,
    pub bound: Option<Bound>,
}

/// The interface that a generic parameter must satisfy.
#[derive(Debug, PartialEq, Eq)]
pub struct Bound {
    pub path: Vec<String>,
}

#[derive(Debug, PartialEq, Eq)]
pub struct Param {
    pub name: String,
    pub ty: SType,
}

/// A function. `body` is absent in a foreign declaration.
#[derive(Debug, PartialEq, Eq)]
pub struct FnDecl {
    pub name: String,
    pub generics: Vec<Generic>,
    pub params: Vec<Param>,
    pub ret: Option<SType>,
    pub pre: Vec<Expr>,
    pub post: Vec<Expr>,
    pub body: Option<Block>,
    pub docs: Vec<String>,
    pub is_unsafe: bool,
}

#[derive(Debug, PartialEq, Eq)]
pub struct Field {
    pub name: String,
    pub ty: SType,
}

#[derive(Debug, PartialEq, Eq)]
pub struct StructDecl {
    pub name: String,
    pub generics: Vec<Generic>,
    pub linear: bool,
    pub fields: Vec<Field>,
}

#[derive(Debug, PartialEq, Eq)]
pub struct Variant {
    pub name: String,
    pub fields: Vec<SType>,
}

#[derive(Debug, PartialEq, Eq)]
pub struct EnumDecl {
    pub name: String,
    pub generics: Vec<Generic>,
    pub variants: Vec<Variant>,
}

/// An error type: variants without fields.
#[derive(Debug, PartialEq, Eq)]
pub struct ErrorDecl {
    pub name: String,
    pub variants: Vec<String>,
}

/// The signature of an interface method.
#[derive(Debug, PartialEq, Eq)]
pub struct MethodSig {
    pub name: String,
    pub params: Vec<Param>,
    pub ret: Option<SType>,
}

#[derive(Debug, PartialEq, Eq)]
pub struct InterfaceDecl {
    pub name: String,
    pub generics: Vec<Generic>,
    pub is_capability: bool,
    pub methods: Vec<MethodSig>,
}

#[derive(Debug, PartialEq, Eq)]
pub struct ImplDecl {
    /// The path of the interface.
    pub interface: Vec<String>,
    /// The concrete types that it is implemented for.
    pub args: Vec<SType>,
    pub methods: Vec<FnDecl>,
}

/// A surface type.
#[derive(Debug, PartialEq, Eq)]
pub enum SType {
    Unit,
    Named(Vec<String>),
    Generic { path: Vec<String>, args: Vec<SType> },
    Slice(Box<SType>),
    Array { len: u64, elem: Box<SType> },
    Ref { mutable: bool, inner: Box<SType> },
    /// `!T`, or a bare `!`.
    ErrorUnion(Option<Box<SType>>),
    /// `?T`.
    Optional(Box<SType>),
}

/// The mathematical counterpart of [`SType`].
#[verifier::ext_equal]
pub enum STypeView {
    Unit,
    Named(Seq<Seq<char>>),
    Generic { path: Seq<Seq<char>>, args: Seq<STypeView> },
    Slice(Box<STypeView>),
    Array { len: u64, elem: Box<STypeView> },
    Ref { mutable: bool, inner: Box<STypeView> },
    ErrorUnion(Option<Box<STypeView>>),
    Optional(Box<STypeView>),
}

impl SType {
    pub open spec fn model(self) -> STypeView
        decreases self,
    {
        match self {
            SType::Unit => STypeView::Unit,
            SType::Named(p) => STypeView::Named(text::strings_view(p@)),
            SType::Generic { path, args } => STypeView::Generic {
                path: text::strings_view(path@),
                args: stypes_view(args@),
            },
            SType::Slice(t) => STypeView::Slice(Box::new(t.model())),
            SType::Array { len, elem } => STypeView::Array { len, elem: Box::new(elem.model()) },
            SType::Ref { mutable, inner } => STypeView::Ref {
                mutable,
                inner: Box::new(inner.model()),
            },
            SType::ErrorUnion(o) => match o {
                Some(t) => STypeView::ErrorUnion(Some(Box::new(t.model()))),
                None => STypeView::ErrorUnion(None),
            },
            SType::Optional(t) => STypeView::Optional(Box::new(t.model())),
        }
    }
}

/// The counterpart of a sequence of surface types, member by member.
pub open spec fn stypes_view(v: Seq<SType>) -> Seq<STypeView>
    decreases v,
{
    Seq::new(
        v.len(),
        |i: int|
            if 0 <= i < v.len() {
                v[i].model()
            } else {
                STypeView::Unit
            },
    )
}

/// Each member of a list's counterpart is the counterpart of the member.
pub broadcast proof fn lemma_stypes_view(v: Seq<SType>)
    ensures
        (#[trigger] stypes_view(v)).len() == v.len(),
        forall|i: int| 0 <= i < v.len() ==> #[trigger] stypes_view(v)[i] == v[i]@,
{
    assert forall|i: int| 0 <= i < v.len() implies #[trigger] stypes_view(v)[i] == v[i]@ by {
        assert(v[i]@ == v[i].model());
    }
}

impl View for SType {
    type V = STypeView;

    open spec fn view(&self) -> STypeView {
        self.model()
    }
}

/// The counterpart of an optional surface type.
pub open spec fn opt_stype_view(t: Option<SType>) -> Option<STypeView> {
    match t {
        Some(t) => Some(t@),
        None => None,
    }
}

/// A copy of a list of surface types.
pub fn clone_stypes(v: &Vec<SType>) -> (r: Vec<SType>)
    ensures
        stypes_view(r@) == stypes_view(v@),
    decreases v@,
{
    let mut out: Vec<SType> = Vec::new();
    let mut i: usize = 0;
    while i < v.len()
        invariant
            i <= v@.len(),
            out@.len() == i,
            forall|k: int| 0 <= k < i ==> #[trigger] out@[k]@ == v@[k]@,
        decreases v@.len() - i,
    {
        let c = v[i].clone();
        out.push(c);
        i = i + 1;
    }
    broadcast use lemma_stypes_view;

    assert(stypes_view(out@) =~= stypes_view(v@));
    out
}

impl Clone for SType {
    fn clone(&self) -> (r: Self)
        ensures
            r@ == self@,
        decreases self,
    {
        match self {
            SType::Unit => SType::Unit,
            SType::Named(p) => SType::Named(clone_strings(p)),
            SType::Generic { path, args } => SType::Generic {
                path: clone_strings(path),
                args: clone_stypes(args),
            },
            SType::Slice(t) => SType::Slice(Box::new((**t).clone())),
            SType::Array { len, elem } => SType::Array {
                len: *len,
                elem: Box::new((**elem).clone()),
            },
            SType::Ref { mutable, inner } => SType::Ref {
                mutable: *mutable,
                inner: Box::new((**inner).clone()),
            },
            SType::ErrorUnion(o) => match o {
                Some(t) => SType::ErrorUnion(Some(Box::new((**t).clone()))),
                None => SType::ErrorUnion(None),
            },
            SType::Optional(t) => SType::Optional(Box::new((**t).clone())),
        }
    }
}

/// A copy of an optional surface type.
pub fn clone_opt_stype(t: &Option<SType>) -> (r: Option<SType>)
    ensures
        opt_stype_view(r) == opt_stype_view(*t),
{
    match t {
        Some(t) => Some(t.clone()),
        None => None,
    }
}

/// A binary operator.
#[derive(Debug, Clone, Copy, PartialEq, Eq, Structural)]
pub enum BinOp {
    Add,
    Sub,
    Mul,
    Div,
    Rem,
    Eq,
    Ne,
    Lt,
    Le,
    Gt,
    Ge,
    And,
    Or,
}

/// A prefix operator.
#[derive(Debug, Clone, Copy, PartialEq, Eq, Structural)]
pub enum UnOp {
    Neg,
    Not,
    Ref,
    RefMut,
}

/// An expression.
#[derive(Debug, PartialEq, Eq)]
pub enum Expr {
    Unit,
    Int(i64),
    Bool(bool),
    Str(String),
    Char(char),
    /// `e?`.
    Try(Box<Expr>),
    /// `e as T`.
    Cast(Box<Expr>, SType),
    Var(String),
    Binary(Box<Expr>, BinOp, Box<Expr>),
    Unary(UnOp, Box<Expr>),
    Field(Box<Expr>, String),
    Index(Box<Expr>, Box<Expr>),
    /// A struct literal, or a `List`, `Set` or `Map` literal.
    Struct { path: Vec<String>, fields: Vec<FieldInit> },
    Call(Box<Expr>, Vec<Expr>),
    /// `[e0, e1, ...]`.
    Array(Vec<Expr>),
}

#[derive(Debug, PartialEq, Eq)]
pub struct FieldInit {
    pub name: String,
    pub value: Expr,
}

/// The target of an assignment.
#[derive(Debug, PartialEq, Eq)]
pub enum LValue {
    Var(String),
    Field(Box<LValue>, String),
    Index(Box<LValue>, Box<Expr>),
}

/// A statement.
#[derive(Debug, PartialEq, Eq)]
#[allow(inconsistent_fields)]
pub enum Stmt {
    Let { name: String, ty: Option<SType>, value: Expr },
    Var { name: String, ty: Option<SType>, value: Expr },
    Assign { target: LValue, value: Expr },
    While { cond: Expr, invariants: Vec<Expr>, body: Block },
    For { binder: String, iter: Expr, body: Block },
}

/// Statements and the tail that gives the block its value.
#[derive(Debug, PartialEq, Eq)]
pub struct Block {
    pub stmts: Vec<Stmt>,
    pub tail: Option<Tail>,
}

#[derive(Debug, PartialEq, Eq)]
pub enum Tail {
    Expr(Expr),
    Return(Option<Expr>),
    If(Box<IfExpr>),
    Match(Box<MatchExpr>),
}

#[derive(Debug, PartialEq, Eq)]
pub struct IfExpr {
    pub cond: Expr,
    pub yes: Block,
    pub no: Option<Else>,
}

#[derive(Debug, PartialEq, Eq)]
pub enum Else {
    Block(Block),
    If(Box<IfExpr>),
}

#[derive(Debug, PartialEq, Eq)]
pub struct MatchExpr {
    pub scrutinee: Expr,
    pub arms: Vec<Arm>,
}

#[derive(Debug, PartialEq, Eq)]
pub struct Arm {
    pub pat: Pattern,
    pub body: ArmBody,
}

#[derive(Debug, PartialEq, Eq)]
pub enum Pattern {
    Wildcard,
    Ctor { path: Vec<String>, fields: Vec<FieldPat> },
}

#[derive(Debug, PartialEq, Eq)]
pub enum FieldPat {
    Bind(String),
    Wildcard,
}

#[derive(Debug, PartialEq, Eq)]
pub enum ArmBody {
    Expr(Expr),
    Block(Block),
}

} // verus!
