//! Expressions, in A-normal form.
//!
//! Each compound part of an expression is bound by a `let` of its own, in
//! evaluation order, so that every operand is atomic. The functions whose names
//! end in `_s` say what comes out: the atom or the term, and the state with the
//! bindings that were added on the way.
use vstd::prelude::*;
use vstd::string::*;

use crate::decls;
use crate::decls::{CtorRef, ctor_enum_name, dotted, find_struct, path_of};
use crate::find;
use crate::hash;
use crate::hash::symbol_hash;
use crate::ir;
use crate::ir::{Atom, AtomView, Core, CoreView, Literal, LiteralView, PrimOp, Type, TypeView};
use crate::lower_error::{LowerError, LowerErrorView};
use crate::resolve;
use crate::resolve::{field_position, nominal_pair};
use crate::scope;
use crate::scope::{Builder, Lowerer, LowererView, Pending, Scope, ScopeView, St};
use crate::syntax::{BinOp, Expr, Field, FieldInit, Module, UnOp};
use crate::text;
use crate::text::{join, str_eq};

verus! {

// ---- operators ---------------------------------------------------------------------------

/// The primitive of a binary operator.
pub open spec fn prim_view(op: BinOp) -> PrimOp {
    match op {
        BinOp::Add => PrimOp::Add,
        BinOp::Sub => PrimOp::Sub,
        BinOp::Mul => PrimOp::Mul,
        BinOp::Div => PrimOp::Div,
        BinOp::Rem => PrimOp::Rem,
        BinOp::Eq => PrimOp::Eq,
        BinOp::Ne => PrimOp::Ne,
        BinOp::Lt => PrimOp::Lt,
        BinOp::Le => PrimOp::Le,
        BinOp::Gt => PrimOp::Gt,
        BinOp::Ge => PrimOp::Ge,
        BinOp::And => PrimOp::And,
        BinOp::Or => PrimOp::Or,
    }
}

/// The primitive of a binary operator.
pub fn prim_op(op: BinOp) -> (r: PrimOp)
    ensures
        r == prim_view(op),
{
    match op {
        BinOp::Add => PrimOp::Add,
        BinOp::Sub => PrimOp::Sub,
        BinOp::Mul => PrimOp::Mul,
        BinOp::Div => PrimOp::Div,
        BinOp::Rem => PrimOp::Rem,
        BinOp::Eq => PrimOp::Eq,
        BinOp::Ne => PrimOp::Ne,
        BinOp::Lt => PrimOp::Lt,
        BinOp::Le => PrimOp::Le,
        BinOp::Gt => PrimOp::Gt,
        BinOp::Ge => PrimOp::Ge,
        BinOp::And => PrimOp::And,
        BinOp::Or => PrimOp::Or,
    }
}

/// The term of a prefix operator.
pub open spec fn unary_view(op: UnOp, a: AtomView) -> CoreView {
    match op {
        UnOp::Neg => CoreView::Prim { op: PrimOp::Neg, args: seq![a] },
        UnOp::Not => CoreView::Prim { op: PrimOp::Not, args: seq![a] },
        UnOp::Ref => CoreView::Ref { mutable: false, of: a },
        UnOp::RefMut => CoreView::Ref { mutable: true, of: a },
    }
}

/// The term of a prefix operator.
pub fn unary_core(op: UnOp, a: Atom) -> (r: Core)
    ensures
        r@ == unary_view(op, a@),
{
    match op {
        UnOp::Neg => prim1(PrimOp::Neg, a),
        UnOp::Not => prim1(PrimOp::Not, a),
        UnOp::Ref => Core::Ref { mutable: false, of: a },
        UnOp::RefMut => Core::Ref { mutable: true, of: a },
    }
}

/// A primitive with one operand.
pub fn prim1(op: PrimOp, a: Atom) -> (r: Core)
    ensures
        r@ == (CoreView::Prim { op, args: seq![a@] }),
{
    let mut args: Vec<Atom> = Vec::new();
    args.push(a);
    assert(ir::atoms_view(args@) =~= seq![a@]);
    Core::Prim { op, args }
}

/// A primitive with two operands.
pub fn prim2(op: PrimOp, a: Atom, b: Atom) -> (r: Core)
    ensures
        r@ == (CoreView::Prim { op, args: seq![a@, b@] }),
{
    let mut args: Vec<Atom> = Vec::new();
    args.push(a);
    args.push(b);
    assert(ir::atoms_view(args@) =~= seq![a@, b@]);
    Core::Prim { op, args }
}

/// The term of a constructor: an error variant is raised, any other one built.
pub open spec fn ctor_node_view(ms: Seq<Module>, c: CtorRef, fields: Seq<AtomView>) -> CoreView {
    if c.is_error {
        CoreView::Raise { error: hash::symbol_id(decls::ctor_enum(ms, c)), args: fields }
    } else {
        CoreView::Ctor { ty: hash::symbol_id(decls::ctor_enum(ms, c)), tag: c.tag, fields }
    }
}

/// The term of a constructor: an error variant is raised, any other one built.
pub fn ctor_node(ms: &Vec<&Module>, c: CtorRef, fields: Vec<Atom>) -> (r: Core)
    ensures
        r@ == ctor_node_view(decls::modules_of(ms@), c, ir::atoms_view(fields@)),
{
    let ty = symbol_hash(ctor_enum_name(ms, c).as_str());
    if c.is_error {
        Core::Raise { error: ty, args: fields }
    } else {
        Core::Ctor { ty, tag: c.tag, fields }
    }
}

// ---- constructors ----------------------------------------------------------------------------

/// The constructor if it has no fields.
pub open spec fn nullary(c: Option<CtorRef>) -> Option<CtorRef> {
    match c {
        Some(c) => if c.arity == 0 {
            Some(c)
        } else {
            None
        },
        None => None,
    }
}

/// `Enum.Variant` as a constructor, unless `Enum` is a local.
pub open spec fn path_ctor(
    lw: LowererView,
    base: Expr,
    variant: Seq<char>,
    sc: ScopeView,
) -> Option<CtorRef> {
    match base {
        Expr::Var(en) => if scope::local(sc, en@) is Some {
            None
        } else {
            decls::ctor_view(lw.reg, en@ + "."@ + variant)
        },
        _ => None,
    }
}

/// The module of the enum that `Enum.Variant` would need, where `Enum` is
/// imported but not part of the modules at hand.
pub open spec fn path_missing(lw: LowererView, base: Expr, sc: ScopeView) -> Option<
    (Seq<char>, Seq<char>),
> {
    match base {
        Expr::Var(en) => if scope::local(sc, en@) is Some {
            None
        } else {
            match resolve::missing_enum(lw, en@) {
                Some(m) => Some((en@, m)),
                None => None,
            }
        },
        _ => None,
    }
}

/// The constructor that a callee names.
pub open spec fn callee_ctor_view(lw: LowererView, callee: Expr, sc: ScopeView) -> Option<CtorRef> {
    match callee {
        Expr::Var(name) => if scope::local(sc, name@) is Some {
            None
        } else {
            decls::ctor_view(lw.reg, name@)
        },
        Expr::Field(base, variant) => path_ctor(lw, *base, variant@, sc),
        _ => None,
    }
}

impl<'a> Lowerer<'a> {
    fn find_path_ctor(&self, base: &Expr, variant: &str, sc: &Scope) -> (r: Option<CtorRef>)
        ensures
            r == path_ctor(self@, *base, variant@, sc@),
    {
        match base {
            Expr::Var(en) => {
                if sc.find(en.as_str()).is_some() {
                    None
                } else {
                    self.reg.ctor(dotted(en.as_str(), variant).as_str())
                }
            },
            _ => None,
        }
    }

    fn check_path(&self, base: &Expr, sc: &Scope) -> (r: Result<(), LowerError>)
        ensures
            match path_missing(self@, *base, sc@) {
                Some((name, module)) => r is Err && r->Err_0@ == (
                LowerErrorView::UnresolvedImportedEnum { name, module }),
                None => r is Ok,
            },
    {
        match base {
            Expr::Var(en) => {
                if sc.find(en.as_str()).is_some() {
                    Ok(())
                } else {
                    match self.find_missing_enum(en.as_str()) {
                        Some(module) => Err(
                            LowerError::UnresolvedImportedEnum { name: en.clone(), module },
                        ),
                        None => Ok(()),
                    }
                }
            },
            _ => Ok(()),
        }
    }

    fn callee_ctor(&self, callee: &Expr, sc: &Scope) -> (r: Option<CtorRef>)
        ensures
            r == callee_ctor_view(self@, *callee, sc@),
    {
        match callee {
            Expr::Var(name) => {
                if sc.find(name.as_str()).is_some() {
                    None
                } else {
                    self.reg.ctor(name.as_str())
                }
            },
            Expr::Field(base, variant) => self.find_path_ctor(base, variant.as_str(), sc),
            _ => None,
        }
    }
}

fn is_nullary(c: Option<CtorRef>) -> (r: Option<CtorRef>)
    ensures
        r == nullary(c),
{
    match c {
        Some(c) => {
            if c.arity == 0 {
                Some(c)
            } else {
                None
            }
        },
        None => None,
    }
}

// ---- literals ------------------------------------------------------------------------------------

/// The literal that an expression is.
pub open spec fn lit_of(e: Expr) -> Option<LiteralView> {
    match e {
        Expr::Unit => Some(LiteralView::Unit),
        Expr::Int(n) => Some(LiteralView::Int(n)),
        Expr::Bool(b) => Some(LiteralView::Bool(b)),
        Expr::Str(s) => Some(LiteralView::Str(s@)),
        Expr::Char(c) => Some(LiteralView::Char(c)),
        _ => None,
    }
}

fn literal(e: &Expr) -> (r: Option<Literal>)
    ensures
        match lit_of(*e) {
            Some(l) => r is Some && r->0@ == l,
            None => r is None,
        },
{
    match e {
        Expr::Unit => Some(Literal::Unit),
        Expr::Int(n) => Some(Literal::Int(*n)),
        Expr::Bool(b) => Some(Literal::Bool(*b)),
        Expr::Str(s) => Some(Literal::Str(s.clone())),
        Expr::Char(c) => Some(Literal::Char(*c)),
        _ => None,
    }
}

pub open spec fn is_init_named(v: Seq<FieldInit>, name: Seq<char>) -> spec_fn(int) -> bool {
    |i: int| v[i].name@ == name
}

/// The position of the first initializer of a field.
pub open spec fn init_index(v: Seq<FieldInit>, name: Seq<char>) -> Option<int> {
    find::first_from(is_init_named(v, name), 0, v.len() as int)
}

fn find_init(v: &Vec<FieldInit>, name: &str) -> (r: Option<usize>)
    ensures
        match init_index(v@, name@) {
            Some(i) => r is Some && r->0 == i && 0 <= i < v@.len(),
            None => r is None,
        },
{
    let ghost p = is_init_named(v@, name@);
    let ghost n = v@.len() as int;
    let mut i: usize = 0;
    while i < v.len()
        invariant
            i <= v@.len(),
            n == v@.len(),
            p == is_init_named(v@, name@),
            find::first_from(p, 0, n) == find::first_from(p, i as int, n),
        decreases n - i,
    {
        let hit = str_eq(v[i].name.as_str(), name);
        assert(hit == p(i as int));
        if hit {
            return Some(i);
        }
        i = i + 1;
    }
    None
}

pub open spec fn is_undeclared(v: Seq<FieldInit>, fields: Seq<Field>) -> spec_fn(int) -> bool {
    |i: int| resolve::field_index(fields, v[i].name@) is None
}

/// The first initializer of a field that the struct does not declare.
pub open spec fn undeclared(v: Seq<FieldInit>, fields: Seq<Field>) -> Option<int> {
    find::first_from(is_undeclared(v, fields), 0, v.len() as int)
}

fn find_undeclared(v: &Vec<FieldInit>, fields: &Vec<Field>) -> (r: Option<usize>)
    ensures
        match undeclared(v@, fields@) {
            Some(i) => r is Some && r->0 == i && 0 <= i < v@.len(),
            None => r is None,
        },
{
    let ghost p = is_undeclared(v@, fields@);
    let ghost n = v@.len() as int;
    let mut i: usize = 0;
    while i < v.len()
        invariant
            i <= v@.len(),
            n == v@.len(),
            p == is_undeclared(v@, fields@),
            find::first_from(p, 0, n) == find::first_from(p, i as int, n),
        decreases n - i,
    {
        let hit = field_position(fields, v[i].name.as_str()).is_none();
        assert(hit == p(i as int));
        if hit {
            return Some(i);
        }
        i = i + 1;
    }
    None
}

/// The names of the fields of a collection literal.
pub open spec fn part_names(kind: Seq<char>) -> Seq<Seq<char>> {
    if kind == "Map"@ {
        seq!["alloc"@, "keys"@, "values"@]
    } else {
        seq!["alloc"@, "items"@]
    }
}

pub open spec fn is_foreign_part(v: Seq<FieldInit>, kind: Seq<char>) -> spec_fn(int) -> bool {
    |i: int| !part_names(kind).contains(v[i].name@)
}

/// The first field that a collection literal of that kind does not have.
pub open spec fn foreign_part(v: Seq<FieldInit>, kind: Seq<char>) -> Option<int> {
    find::first_from(is_foreign_part(v, kind), 0, v.len() as int)
}

fn find_foreign_part(v: &Vec<FieldInit>, kind: &str) -> (r: Option<usize>)
    ensures
        match foreign_part(v@, kind@) {
            Some(i) => r is Some && r->0 == i && 0 <= i < v@.len(),
            None => r is None,
        },
{
    let ghost p = is_foreign_part(v@, kind@);
    let ghost n = v@.len() as int;
    let ghost names = part_names(kind@);
    let map = str_eq(kind, "Map");
    let mut i: usize = 0;
    while i < v.len()
        invariant
            i <= v@.len(),
            n == v@.len(),
            p == is_foreign_part(v@, kind@),
            names == part_names(kind@),
            map == (kind@ == "Map"@),
            find::first_from(p, 0, n) == find::first_from(p, i as int, n),
        decreases n - i,
    {
        let name = v[i].name.as_str();
        let known = str_eq(name, "alloc") || (if map {
            str_eq(name, "keys") || str_eq(name, "values")
        } else {
            str_eq(name, "items")
        });
        proof {
            assert(names[0] == "alloc"@);
            if map {
                assert(names[1] == "keys"@ && names[2] == "values"@ && names.len() == 3);
            } else {
                assert(names[1] == "items"@ && names.len() == 2);
            }
            assert(known == names.contains(v@[i as int].name@));
            assert(!known == p(i as int));
        }
        if !known {
            return Some(i);
        }
        i = i + 1;
    }
    None
}

/// The collection that a literal builds: `List`, `Set` or `Map`, unless the
/// module has a struct of that name.
pub open spec fn is_collection(lw: LowererView, path: Seq<Seq<char>>) -> bool {
    &&& path.len() == 1
    &&& (path[0] == "List"@ || path[0] == "Set"@ || path[0] == "Map"@)
    &&& decls::struct_named(lw.m, path[0]) is None
}

/// The position of a collection literal's part that is written `[...]`.
pub open spec fn array_part(v: Seq<FieldInit>, name: Seq<char>) -> Option<int> {
    match init_index(v, name) {
        Some(i) => if 0 <= i < v.len() && v[i].value is Array {
            Some(i)
        } else {
            None
        },
        None => None,
    }
}

fn find_array_part<'b>(v: &'b Vec<FieldInit>, name: &str) -> (r: Option<(usize, &'b Vec<Expr>)>)
    ensures
        match array_part(v@, name@) {
            Some(i) => r is Some && (r->0).0 == i && 0 <= i < v@.len() && v@[i].value == Expr::Array(
                *(r->0).1,
            ),
            None => r is None,
        },
{
    match find_init(v, name) {
        Some(i) => match &v[i].value {
            Expr::Array(items) => Some((i, items)),
            _ => None,
        },
        None => None,
    }
}

/// The element type of a list of expressions, as far as the first one tells it.
#[verifier::opaque]
pub open spec fn elem_view(lw: LowererView, v: Seq<Expr>, sc: ScopeView) -> TypeView {
    if v.len() == 0 {
        TypeView::Unit
    } else {
        match resolve::arg_type(lw, v[0], sc) {
            Some(t) => resolve::ty_s(lw, t, Seq::empty()),
            None => TypeView::Unit,
        }
    }
}

/// A capacity as a literal.
pub open spec fn count_atom(n: nat) -> AtomView {
    AtomView::Lit(LiteralView::Int((n as usize) as i64))
}

fn count_of(n: usize) -> (r: Atom)
    ensures
        r@ == count_atom(n as nat),
{
    Atom::Lit(Literal::Int(n as i64))
}

impl<'a> Lowerer<'a> {
    fn elem_type(&self, v: &Vec<Expr>, sc: &Scope) -> (r: Type)
        ensures
            r@ == elem_view(self@, v@, sc@),
    {
        reveal(elem_view);
        if v.len() == 0 {
            Type::Unit
        } else {
            match self.infer_type(&v[0], sc) {
                Some(t) => {
                    let none: Vec<String> = Vec::new();
                    assert(text::strings_view(none@) =~= Seq::empty());
                    self.lower_type(&t, &none)
                },
                None => Type::Unit,
            }
        }
    }

    fn collection(&self, path: &Vec<String>) -> (r: bool)
        ensures
            r == is_collection(self@, text::strings_view(path@)),
    {
        if path.len() != 1 {
            return false;
        }
        assert(text::strings_view(path@)[0] == path@[0]@);
        let name = path[0].as_str();
        (str_eq(name, "List") || str_eq(name, "Set") || str_eq(name, "Map")) && find_struct(
            self.m,
            name,
        ).is_none()
    }
}

// ---- what comes out of an expression ---------------------------------------------------------------

/// The atom of an expression, with what it takes to compute it bound before.
pub open spec fn atom_s(lw: LowererView, e: Expr, sc: ScopeView, st: St) -> Result<
    (AtomView, St),
    LowerErrorView,
>
    decreases e, 3nat, 0nat,
{
    match e {
        Expr::Unit | Expr::Int(_) | Expr::Bool(_) | Expr::Str(_) | Expr::Char(_) => Ok(
            (AtomView::Lit(lit_of(e)->0), st),
        ),
        Expr::Try(inner) => atom_s(lw, *inner, sc, st),
        Expr::Var(name) => var_s(lw, name@, sc, st),
        Expr::Struct { path, fields } => if is_collection(lw, text::strings_view(path@)) {
            collection_s(lw, path@[0]@, fields@, sc, st)
        } else {
            bound_s(node_s(lw, e, sc, st))
        },
        _ => bound_s(node_s(lw, e, sc, st)),
    }
}

/// A term, bound.
pub open spec fn bound_s(r: Result<(CoreView, St), LowerErrorView>) -> Result<
    (AtomView, St),
    LowerErrorView,
> {
    match r {
        Ok((c, st)) => Ok(scope::push_s(st, c)),
        Err(e) => Err(e),
    }
}

/// A name: a local, a constructor without fields, or a definition.
pub open spec fn var_s(lw: LowererView, name: Seq<char>, sc: ScopeView, st: St) -> Result<
    (AtomView, St),
    LowerErrorView,
> {
    match scope::local(sc, name) {
        Some(b) => Ok((b.atom, st)),
        None => match nullary(decls::ctor_view(lw.reg, name)) {
            Some(c) => Ok(scope::push_s(st, ctor_node_view(lw.ms, c, Seq::empty()))),
            None => match resolve::global_ref(lw, sc, name) {
                Ok(a) => Ok((a, st)),
                Err(e) => Err(e),
            },
        },
    }
}

/// The term of an expression, itself not bound.
pub open spec fn tail_s(lw: LowererView, e: Expr, sc: ScopeView, st: St) -> Result<
    (CoreView, St),
    LowerErrorView,
>
    decreases e, 4nat, 0nat,
{
    match e {
        Expr::Unit | Expr::Int(_) | Expr::Bool(_) | Expr::Str(_) | Expr::Char(_) | Expr::Var(
            _,
        ) => as_core(atom_s(lw, e, sc, st)),
        Expr::Try(inner) => tail_s(lw, *inner, sc, st),
        Expr::Struct { path, fields } => if is_collection(lw, text::strings_view(path@)) {
            as_core(atom_s(lw, e, sc, st))
        } else {
            node_s(lw, e, sc, st)
        },
        _ => node_s(lw, e, sc, st),
    }
}

/// An atom, as a term.
pub open spec fn as_core(r: Result<(AtomView, St), LowerErrorView>) -> Result<
    (CoreView, St),
    LowerErrorView,
> {
    match r {
        Ok((a, st)) => Ok((CoreView::Atom(a), st)),
        Err(e) => Err(e),
    }
}

/// The last step of a compound expression.
pub open spec fn node_s(lw: LowererView, e: Expr, sc: ScopeView, st: St) -> Result<
    (CoreView, St),
    LowerErrorView,
>
    decreases e, 2nat, 0nat,
{
    match e {
        Expr::Cast(inner, ty) => match atom_s(lw, *inner, sc, st) {
            Ok((value, st1)) => Ok(
                (CoreView::Cast { value, to: resolve::ty_s(lw, ty@, Seq::empty()) }, st1),
            ),
            Err(x) => Err(x),
        },
        Expr::Binary(l, op, r) => match atom_s(lw, *l, sc, st) {
            Ok((a, st1)) => match atom_s(lw, *r, sc, st1) {
                Ok((b, st2)) => Ok(
                    (CoreView::Prim { op: prim_view(op), args: seq![a, b] }, st2),
                ),
                Err(x) => Err(x),
            },
            Err(x) => Err(x),
        },
        Expr::Unary(op, operand) => match atom_s(lw, *operand, sc, st) {
            Ok((a, st1)) => Ok((unary_view(op, a), st1)),
            Err(x) => Err(x),
        },
        Expr::Index(base, index) => match atom_s(lw, *base, sc, st) {
            Ok((a, st1)) => match atom_s(lw, *index, sc, st1) {
                Ok((b, st2)) => Ok(
                    (CoreView::Prim { op: PrimOp::Index, args: seq![a, b] }, st2),
                ),
                Err(x) => Err(x),
            },
            Err(x) => Err(x),
        },
        Expr::Field(_, _) => field_s(lw, e, sc, st),
        Expr::Struct { path, fields } => struct_s(lw, text::strings_view(path@), fields@, sc, st),
        Expr::Array(items) => match atoms_s(lw, items@, items@.len(), sc, st) {
            Ok((v, st1)) => Ok(
                (CoreView::Array { elem: elem_view(lw, items@, sc), items: v }, st1),
            ),
            Err(x) => Err(x),
        },
        Expr::Call(callee, args) => call_s(lw, e, sc, st),
        _ => Ok(
            (
                CoreView::Atom(
                    AtomView::Lit(
                        match lit_of(e) {
                            Some(l) => l,
                            None => LiteralView::Unit,
                        },
                    ),
                ),
                st,
            ),
        ),
    }
}

/// `base.field`: a constructor without fields, or a projection.
pub open spec fn field_s(lw: LowererView, e: Expr, sc: ScopeView, st: St) -> Result<
    (CoreView, St),
    LowerErrorView,
>
    decreases e, 1nat, 0nat,
{
    match e {
        Expr::Field(base, field) => match nullary(path_ctor(lw, *base, field@, sc)) {
            Some(c) => Ok((ctor_node_view(lw.ms, c, Seq::empty()), st)),
            None => match path_missing(lw, *base, sc) {
                Some((name, module)) => Err(
                    LowerErrorView::UnresolvedImportedEnum { name, module },
                ),
                None => match atom_s(lw, *base, sc, st) {
                    Ok((a, st1)) => match resolve::projection(lw, resolve::expr_type(lw, *base, sc), field@) {
                        Ok((_, i)) => Ok(
                            (CoreView::Proj { base: a, idx: (i as usize) as u32 }, st1),
                        ),
                        Err(x) => Err(x),
                    },
                    Err(x) => Err(x),
                },
            },
        },
        _ => Ok((CoreView::Atom(AtomView::Lit(LiteralView::Unit)), st)),
    }
}

/// The atoms of the first `n` expressions, from left to right.
pub open spec fn atoms_s(lw: LowererView, v: Seq<Expr>, n: nat, sc: ScopeView, st: St) -> Result<
    (Seq<AtomView>, St),
    LowerErrorView,
>
    decreases v, 0nat, n,
{
    if n == 0 || n > v.len() {
        Ok((Seq::empty(), st))
    } else {
        match atoms_s(lw, v, (n - 1) as nat, sc, st) {
            Ok((out, st1)) => match atom_s(lw, v[n - 1], sc, st1) {
                Ok((a, st2)) => Ok((out.push(a), st2)),
                Err(x) => Err(x),
            },
            Err(x) => Err(x),
        }
    }
}

/// A struct literal: the fields in declaration order.
pub open spec fn struct_s(
    lw: LowererView,
    path: Seq<Seq<char>>,
    inits: Seq<FieldInit>,
    sc: ScopeView,
    st: St,
) -> Result<(CoreView, St), LowerErrorView>
    decreases inits, 1nat, 0nat,
{
    let name = text::join_view(path, "."@);
    match decls::struct_named(lw.m, name) {
        None => Err(LowerErrorView::UnknownStruct { name }),
        Some(d) => match undeclared(inits, d.fields@) {
            Some(i) => Err(LowerErrorView::UnknownField { ty: name, field: inits[i].name@ }),
            None => match inits_s(lw, name, d.fields@, d.fields@.len(), inits, sc, st) {
                Ok((fields, st1)) => Ok(
                    (CoreView::Ctor { ty: hash::symbol_id(resolve::struct_qual(lw, name)), tag: 0, fields }, st1),
                ),
                Err(x) => Err(x),
            },
        },
    }
}

/// The atoms of the first `n` declared fields.
pub open spec fn inits_s(
    lw: LowererView,
    name: Seq<char>,
    fields: Seq<Field>,
    n: nat,
    inits: Seq<FieldInit>,
    sc: ScopeView,
    st: St,
) -> Result<(Seq<AtomView>, St), LowerErrorView>
    decreases inits, 0nat, n,
{
    if n == 0 || n > fields.len() {
        Ok((Seq::empty(), st))
    } else {
        match inits_s(lw, name, fields, (n - 1) as nat, inits, sc, st) {
            Ok((out, st1)) => match init_index(inits, fields[n - 1].name@) {
                Some(i) => if 0 <= i < inits.len() {
                    match atom_s(lw, inits[i].value, sc, st1) {
                        Ok((a, st2)) => Ok((out.push(a), st2)),
                        Err(x) => Err(x),
                    }
                } else {
                    Ok((out, st1))
                },
                None => Err(
                    LowerErrorView::MissingStructField { ty: name, field: fields[n - 1].name@ },
                ),
            },
            Err(x) => Err(x),
        }
    }
}

// ---- calls ---------------------------------------------------------------------------------------------

/// Whether a call is the length of a collection.
pub open spec fn is_len(callee: Expr, args: Seq<Expr>, sc: ScopeView) -> bool {
    match callee {
        Expr::Var(name) => name@ == "len"@ && args.len() == 1 && scope::local(sc, name@) is None,
        _ => false,
    }
}

/// A call: a length, a constructor, a method or a function.
pub open spec fn call_s(
    lw: LowererView,
    e: Expr,
    sc: ScopeView,
    st: St,
) -> Result<(CoreView, St), LowerErrorView>
    decreases e, 1nat, 0nat,
{
    match e {
        Expr::Call(callee, args) => {
            if is_len(*callee, args@, sc) {
                match atom_s(lw, args@[0], sc, st) {
                    Ok((a, st1)) => Ok((CoreView::Prim { op: PrimOp::Len, args: seq![a] }, st1)),
                    Err(x) => Err(x),
                }
            } else {
                match callee_ctor_view(lw, *callee, sc) {
                    Some(c) => match atoms_s(lw, args@, args@.len(), sc, st) {
                        Ok((fields, st1)) => Ok((ctor_node_view(lw.ms, c, fields), st1)),
                        Err(x) => Err(x),
                    },
                    None => match *callee {
                        Expr::Field(recv, method) => match path_missing(lw, *recv, sc) {
                            Some((name, module)) => Err(
                                LowerErrorView::UnresolvedImportedEnum { name, module },
                            ),
                            None => match method_ref(lw, sc, method@) {
                                Ok(func) => match atom_s(lw, *recv, sc, st) {
                                    Ok((r, st1)) => {
                                        let first = CoreView::App { func, arg: r };
                                        if args@.len() == 0 {
                                            Ok((first, st1))
                                        } else {
                                            apply_s(
                                                lw,
                                                args@,
                                                args@.len(),
                                                scope::push_s(st1, first).0,
                                                sc,
                                                scope::push_s(st1, first).1,
                                            )
                                        }
                                    },
                                    Err(x) => Err(x),
                                },
                                Err(x) => Err(x),
                            },
                        },
                        _ => match callee_s(lw, e, sc, st) {
                            Ok((func, st1)) => if args@.len() == 0 {
                                Ok((CoreView::App { func, arg: AtomView::Lit(LiteralView::Unit) }, st1))
                            } else {
                                apply_s(lw, args@, args@.len(), func, sc, st1)
                            },
                            Err(x) => Err(x),
                        },
                    },
                }
            }
        },
        _ => Ok((CoreView::Atom(AtomView::Lit(LiteralView::Unit)), st)),
    }
}

/// The function that a method call denotes.
pub open spec fn method_ref(lw: LowererView, sc: ScopeView, method: Seq<char>) -> Result<
    AtomView,
    LowerErrorView,
> {
    match resolve::dispatch(lw, method) {
        Some(a) => Ok(a),
        None => resolve::global_ref(lw, sc, method),
    }
}

/// The function that the callee of a call denotes.
pub open spec fn callee_s(lw: LowererView, e: Expr, sc: ScopeView, st: St) -> Result<
    (AtomView, St),
    LowerErrorView,
>
    decreases e, 0nat, 0nat,
{
    match e {
        Expr::Call(callee, args) => match free_name(*callee, sc) {
            Some(name) => match resolve::dispatch(lw, name) {
                Some(a) => Ok((a, st)),
                None => match resolve::generic_call(lw, name, args@, sc, st.pend) {
                    Some((a, pend)) => Ok((a, St { pend, ..st })),
                    None => atom_s(lw, *callee, sc, st),
                },
            },
            None => atom_s(lw, *callee, sc, st),
        },
        _ => Ok((AtomView::Lit(LiteralView::Unit), st)),
    }
}

/// The name that a callee is, unless it is a local.
pub open spec fn free_name(callee: Expr, sc: ScopeView) -> Option<Seq<char>> {
    match callee {
        Expr::Var(name) => if scope::local(sc, name@) is None {
            Some(name@)
        } else {
            None
        },
        _ => None,
    }
}

/// A function applied to the first `n` arguments, one at a time; the last
/// application is not bound.
pub open spec fn apply_s(
    lw: LowererView,
    args: Seq<Expr>,
    n: nat,
    func: AtomView,
    sc: ScopeView,
    st: St,
) -> Result<(CoreView, St), LowerErrorView>
    decreases args, 0nat, 2 * n,
{
    if n == 0 || n > args.len() {
        Ok((CoreView::Atom(func), st))
    } else {
        match applied_s(lw, args, (n - 1) as nat, func, sc, st) {
            Ok((f, st1)) => match atom_s(lw, args[n - 1], sc, st1) {
                Ok((arg, st2)) => Ok((CoreView::App { func: f, arg }, st2)),
                Err(x) => Err(x),
            },
            Err(x) => Err(x),
        }
    }
}

/// A function applied to the first `n` arguments, each application bound.
pub open spec fn applied_s(
    lw: LowererView,
    args: Seq<Expr>,
    n: nat,
    func: AtomView,
    sc: ScopeView,
    st: St,
) -> Result<(AtomView, St), LowerErrorView>
    decreases args, 0nat, 2 * n + 1,
{
    if n == 0 {
        Ok((func, st))
    } else {
        bound_s(apply_s(lw, args, n, func, sc, st))
    }
}

// ---- collection literals -----------------------------------------------------------------------------------

/// A `List`, `Set` or `Map` literal.
pub open spec fn collection_s(
    lw: LowererView,
    kind: Seq<char>,
    inits: Seq<FieldInit>,
    sc: ScopeView,
    st: St,
) -> Result<(AtomView, St), LowerErrorView>
    decreases inits, 2nat, 0nat,
{
    match foreign_part(inits, kind) {
        Some(i) => Err(LowerErrorView::UnknownField { ty: kind, field: inits[i].name@ }),
        None => match init_index(inits, "alloc"@) {
            None => Err(LowerErrorView::CollectionLiteralMissingAlloc { kind }),
            Some(ai) => if kind == "Map"@ {
                match (array_part(inits, "keys"@), array_part(inits, "values"@)) {
                    (None, _) => Err(
                        LowerErrorView::MissingStructField { ty: kind, field: "keys"@ },
                    ),
                    (_, None) => Err(
                        LowerErrorView::MissingStructField { ty: kind, field: "values"@ },
                    ),
                    (Some(ki), Some(vi)) => map_s(lw, inits, ai, ki, vi, sc, st),
                }
            } else {
                match array_part(inits, "items"@) {
                    None => Err(LowerErrorView::MissingStructField { ty: kind, field: "items"@ }),
                    Some(ii) => if kind == "Set"@ {
                        set_s(lw, inits, ai, ii, sc, st)
                    } else {
                        list_s(lw, inits, ai, ii, sc, st)
                    },
                }
            },
        },
    }
}

/// The elements of a part written `[...]`.
pub open spec fn part(inits: Seq<FieldInit>, i: int) -> Seq<Expr> {
    match inits[i].value {
        Expr::Array(v) => v@,
        _ => Seq::empty(),
    }
}

/// A list: allocated with room for all items, which are then appended.
pub open spec fn list_s(
    lw: LowererView,
    inits: Seq<FieldInit>,
    ai: int,
    ii: int,
    sc: ScopeView,
    st: St,
) -> Result<(AtomView, St), LowerErrorView>
    decreases inits, 1nat, 0nat,
{
    if 0 <= ai < inits.len() && 0 <= ii < inits.len() {
        match (inits[ai].value, inits[ii].value) {
            (alloc_e, Expr::Array(items)) => match atom_s(lw, alloc_e, sc, st) {
                Ok((alloc, st1)) => {
                    let (list, st2) = scope::push_s(
                        st1,
                        CoreView::ListNew {
                            elem: elem_view(lw, items@, sc),
                            alloc,
                            capacity: count_atom(items@.len()),
                        },
                    );
                    pushes_s(lw, items@, items@.len(), alloc, list, sc, st2)
                },
                Err(x) => Err(x),
            },
            _ => Err(LowerErrorView::MissingStructField { ty: "List"@, field: "items"@ }),
        }
    } else {
        Err(LowerErrorView::CollectionLiteralMissingAlloc { kind: "List"@ })
    }
}

/// A list with the first `n` items appended.
pub open spec fn pushes_s(
    lw: LowererView,
    items: Seq<Expr>,
    n: nat,
    alloc: AtomView,
    list: AtomView,
    sc: ScopeView,
    st: St,
) -> Result<(AtomView, St), LowerErrorView>
    decreases items, 0nat, n,
{
    if n == 0 || n > items.len() {
        Ok((list, st))
    } else {
        match pushes_s(lw, items, (n - 1) as nat, alloc, list, sc, st) {
            Ok((l, st1)) => match atom_s(lw, items[n - 1], sc, st1) {
                Ok((value, st2)) => Ok(scope::push_s(st2, CoreView::ListPush { alloc, list: l, value })),
                Err(x) => Err(x),
            },
            Err(x) => Err(x),
        }
    }
}

/// A call of a definition with two arguments.
pub open spec fn call2_s(name: Seq<char>, a: AtomView, b: AtomView, st: St) -> (AtomView, St) {
    let (f, st1) = scope::push_s(st, CoreView::App { func: AtomView::Global(hash::symbol_id(name)), arg: a });
    scope::push_s(st1, CoreView::App { func: f, arg: b })
}

/// A set: made with room for all items, which are then inserted.
pub open spec fn set_s(
    lw: LowererView,
    inits: Seq<FieldInit>,
    ai: int,
    ii: int,
    sc: ScopeView,
    st: St,
) -> Result<(AtomView, St), LowerErrorView>
    decreases inits, 1nat, 0nat,
{
    if 0 <= ai < inits.len() && 0 <= ii < inits.len() {
        match (inits[ai].value, inits[ii].value) {
            (alloc_e, Expr::Array(items)) => match atom_s(lw, alloc_e, sc, st) {
                Ok((alloc, st1)) => {
                    let (set, st2) = call2_s(
                        "std.collections.set_with_capacity"@,
                        alloc,
                        count_atom(items@.len()),
                        st1,
                    );
                    inserts_s(lw, items@, items@.len(), alloc, set, sc, st2)
                },
                Err(x) => Err(x),
            },
            _ => Err(LowerErrorView::MissingStructField { ty: "Set"@, field: "items"@ }),
        }
    } else {
        Err(LowerErrorView::CollectionLiteralMissingAlloc { kind: "Set"@ })
    }
}

/// A set with the first `n` items inserted.
pub open spec fn inserts_s(
    lw: LowererView,
    items: Seq<Expr>,
    n: nat,
    alloc: AtomView,
    set: AtomView,
    sc: ScopeView,
    st: St,
) -> Result<(AtomView, St), LowerErrorView>
    decreases items, 0nat, n,
{
    if n == 0 || n > items.len() {
        Ok((set, st))
    } else {
        match inserts_s(lw, items, (n - 1) as nat, alloc, set, sc, st) {
            Ok((s, st1)) => match atom_s(lw, items[n - 1], sc, st1) {
                Ok((value, st2)) => {
                    let (f, st3) = call2_s("std.collections.set_insert"@, alloc, s, st2);
                    Ok(scope::push_s(st3, CoreView::App { func: f, arg: value }))
                },
                Err(x) => Err(x),
            },
            Err(x) => Err(x),
        }
    }
}

/// A map: a list of entries, each with the hash 0, its key and its value.
pub open spec fn map_s(
    lw: LowererView,
    inits: Seq<FieldInit>,
    ai: int,
    ki: int,
    vi: int,
    sc: ScopeView,
    st: St,
) -> Result<(AtomView, St), LowerErrorView>
    decreases inits, 1nat, 0nat,
{
    let keys = part(inits, ki);
    let values = part(inits, vi);
    if keys.len() != values.len() {
        Err(LowerErrorView::MapLiteralLengthMismatch { keys: keys.len(), values: values.len() })
    } else if 0 <= ai < inits.len() {
        match atom_s(lw, inits[ai].value, sc, st) {
            Ok((alloc, st1)) => {
                let (list, st2) = scope::push_s(
                    st1,
                    CoreView::ListNew {
                        elem: TypeView::Nominal {
                            def: hash::symbol_id("std.collections.Entry"@),
                            args: seq![elem_view(lw, keys, sc), elem_view(lw, values, sc)],
                        },
                        alloc,
                        capacity: count_atom(keys.len()),
                    },
                );
                match entries_s(lw, inits, ki, vi, keys.len(), alloc, list, sc, st2) {
                    Ok((l, st3)) => Ok(
                        scope::push_s(
                            st3,
                            CoreView::Ctor {
                                ty: hash::symbol_id("std.collections.Map"@),
                                tag: 0,
                                fields: seq![l],
                            },
                        ),
                    ),
                    Err(x) => Err(x),
                }
            },
            Err(x) => Err(x),
        }
    } else {
        Err(LowerErrorView::CollectionLiteralMissingAlloc { kind: "Map"@ })
    }
}

/// The term of a map entry.
pub open spec fn entry_view(key: AtomView, value: AtomView) -> CoreView {
    CoreView::Ctor {
        ty: hash::symbol_id("std.collections.Entry"@),
        tag: 0,
        fields: seq![AtomView::Lit(LiteralView::Int(0)), key, value],
    }
}

/// A list with the first `n` entries appended.
pub open spec fn entries_s(
    lw: LowererView,
    inits: Seq<FieldInit>,
    ki: int,
    vi: int,
    n: nat,
    alloc: AtomView,
    list: AtomView,
    sc: ScopeView,
    st: St,
) -> Result<(AtomView, St), LowerErrorView>
    decreases inits, 0nat, n,
{
    let keys = part(inits, ki);
    let values = part(inits, vi);
    if n == 0 || n > keys.len() || n > values.len() || !(0 <= ki < inits.len()) || !(0 <= vi
        < inits.len()) {
        Ok((list, st))
    } else {
        match entries_s(lw, inits, ki, vi, (n - 1) as nat, alloc, list, sc, st) {
            Ok((l, st1)) => match atom_s(lw, keys[n - 1], sc, st1) {
                Ok((k, st2)) => match atom_s(lw, values[n - 1], sc, st2) {
                    Ok((v, st3)) => {
                        let (entry, st4) = scope::push_s(st3, entry_view(k, v));
                        Ok(scope::push_s(st4, CoreView::ListPush { alloc, list: l, value: entry }))
                    },
                    Err(x) => Err(x),
                },
                Err(x) => Err(x),
            },
            Err(x) => Err(x),
        }
    }
}

// ---- emission ------------------------------------------------------------------------------------------------

/// What an emission of an atom did: `want`.
pub open spec fn did_atom(
    r: Result<Atom, LowerError>,
    b: Builder,
    p: Pending,
    want: Result<(AtomView, St), LowerErrorView>,
) -> bool {
    match want {
        Ok((a, st)) => r is Ok && r->Ok_0@ == a && scope::st_of(b, p) == st,
        Err(e) => r is Err && r->Err_0@ == e,
    }
}

/// What an emission of a term did: `want`.
pub open spec fn did_core(
    r: Result<Core, LowerError>,
    b: Builder,
    p: Pending,
    want: Result<(CoreView, St), LowerErrorView>,
) -> bool {
    match want {
        Ok((c, st)) => r is Ok && r->Ok_0@ == c && scope::st_of(b, p) == st,
        Err(e) => r is Err && r->Err_0@ == e,
    }
}

/// What an emission of several atoms did: `want`.
pub open spec fn did_atoms(
    r: Result<Vec<Atom>, LowerError>,
    b: Builder,
    p: Pending,
    want: Result<(Seq<AtomView>, St), LowerErrorView>,
) -> bool {
    match want {
        Ok((v, st)) => r is Ok && ir::atoms_view(r->Ok_0@) == v && scope::st_of(b, p) == st,
        Err(e) => r is Err && r->Err_0@ == e,
    }
}

proof fn lemma_atoms_fail(lw: LowererView, v: Seq<Expr>, i: nat, n: nat, sc: ScopeView, st: St)
    requires
        i <= n <= v.len(),
        atoms_s(lw, v, i, sc, st) is Err,
    ensures
        atoms_s(lw, v, n, sc, st) == atoms_s(lw, v, i, sc, st),
    decreases n - i,
{
    if i < n {
        assert(atoms_s(lw, v, i + 1, sc, st) == atoms_s(lw, v, i, sc, st));
        lemma_atoms_fail(lw, v, i + 1, n, sc, st);
    }
}

proof fn lemma_inits_fail(
    lw: LowererView,
    name: Seq<char>,
    fields: Seq<Field>,
    i: nat,
    n: nat,
    inits: Seq<FieldInit>,
    sc: ScopeView,
    st: St,
)
    requires
        i <= n <= fields.len(),
        inits_s(lw, name, fields, i, inits, sc, st) is Err,
    ensures
        inits_s(lw, name, fields, n, inits, sc, st) == inits_s(lw, name, fields, i, inits, sc, st),
    decreases n - i,
{
    if i < n {
        assert(inits_s(lw, name, fields, i + 1, inits, sc, st) == inits_s(
            lw,
            name,
            fields,
            i,
            inits,
            sc,
            st,
        ));
        lemma_inits_fail(lw, name, fields, i + 1, n, inits, sc, st);
    }
}

proof fn lemma_applied_fail(
    lw: LowererView,
    args: Seq<Expr>,
    i: nat,
    n: nat,
    func: AtomView,
    sc: ScopeView,
    st: St,
)
    requires
        i <= n <= args.len(),
        applied_s(lw, args, i, func, sc, st) is Err,
    ensures
        applied_s(lw, args, n, func, sc, st) == applied_s(lw, args, i, func, sc, st),
    decreases n - i,
{
    if i < n {
        assert(applied_s(lw, args, i + 1, func, sc, st) == applied_s(lw, args, i, func, sc, st));
        lemma_applied_fail(lw, args, i + 1, n, func, sc, st);
    }
}

proof fn lemma_pushes_fail(
    lw: LowererView,
    items: Seq<Expr>,
    i: nat,
    n: nat,
    alloc: AtomView,
    list: AtomView,
    sc: ScopeView,
    st: St,
)
    requires
        i <= n <= items.len(),
        pushes_s(lw, items, i, alloc, list, sc, st) is Err,
    ensures
        pushes_s(lw, items, n, alloc, list, sc, st) == pushes_s(lw, items, i, alloc, list, sc, st),
    decreases n - i,
{
    if i < n {
        assert(pushes_s(lw, items, i + 1, alloc, list, sc, st) == pushes_s(
            lw,
            items,
            i,
            alloc,
            list,
            sc,
            st,
        ));
        lemma_pushes_fail(lw, items, i + 1, n, alloc, list, sc, st);
    }
}

proof fn lemma_inserts_fail(
    lw: LowererView,
    items: Seq<Expr>,
    i: nat,
    n: nat,
    alloc: AtomView,
    set: AtomView,
    sc: ScopeView,
    st: St,
)
    requires
        i <= n <= items.len(),
        inserts_s(lw, items, i, alloc, set, sc, st) is Err,
    ensures
        inserts_s(lw, items, n, alloc, set, sc, st) == inserts_s(lw, items, i, alloc, set, sc, st),
    decreases n - i,
{
    if i < n {
        assert(inserts_s(lw, items, i + 1, alloc, set, sc, st) == inserts_s(
            lw,
            items,
            i,
            alloc,
            set,
            sc,
            st,
        ));
        lemma_inserts_fail(lw, items, i + 1, n, alloc, set, sc, st);
    }
}

proof fn lemma_entries_fail(
    lw: LowererView,
    inits: Seq<FieldInit>,
    ki: int,
    vi: int,
    i: nat,
    n: nat,
    alloc: AtomView,
    list: AtomView,
    sc: ScopeView,
    st: St,
)
    requires
        0 <= ki < inits.len(),
        0 <= vi < inits.len(),
        i <= n <= part(inits, ki).len(),
        n <= part(inits, vi).len(),
        entries_s(lw, inits, ki, vi, i, alloc, list, sc, st) is Err,
    ensures
        entries_s(lw, inits, ki, vi, n, alloc, list, sc, st) == entries_s(
            lw,
            inits,
            ki,
            vi,
            i,
            alloc,
            list,
            sc,
            st,
        ),
    decreases n - i,
{
    if i < n {
        assert(entries_s(lw, inits, ki, vi, i + 1, alloc, list, sc, st) == entries_s(
            lw,
            inits,
            ki,
            vi,
            i,
            alloc,
            list,
            sc,
            st,
        ));
        lemma_entries_fail(lw, inits, ki, vi, i + 1, n, alloc, list, sc, st);
    }
}

/// Bind a call of a definition with two arguments.
fn emit_call2(name: &str, x: Atom, y: Atom, b: &mut Builder, p: &Pending) -> (r: Atom)
    ensures
        (r@, scope::st_of(*final(b), *p)) == call2_s(
            name@,
            x@,
            y@,
            scope::st_of(*old(b), *p),
        ),
{
    let f = b.push(Core::App { func: Atom::Global(symbol_hash(name)), arg: x });
    b.push(Core::App { func: f, arg: y })
}

impl<'a> Lowerer<'a> {
    /// Emit an expression and give its atom.
    pub fn emit_atom(&self, e: &Expr, sc: &Scope, b: &mut Builder, p: &mut Pending) -> (r: Result<
        Atom,
        LowerError,
    >)
        ensures
            did_atom(r, *final(b), *final(p), atom_s(self@, *e, sc@, scope::st_of(*old(b), *old(p)))),
        decreases e, 3nat, 0nat,
    {
        match e {
            Expr::Try(inner) => self.emit_atom(inner, sc, b, p),
            Expr::Var(name) => self.emit_var(name.as_str(), sc, b, p),
            Expr::Struct { path, fields } => {
                if self.collection(path) {
                    assert(text::strings_view(path@)[0] == path@[0]@);
                    self.emit_collection(path[0].as_str(), fields, sc, b, p)
                } else {
                    let node = match self.emit_node(e, sc, b, p) {
                        Ok(v) => v,
                        Err(e) => {
                            return Err(e);
                        },
                    };
                    Ok(b.push(node))
                }
            },
            _ => {
                if let Some(l) = literal(e) {
                    return Ok(Atom::Lit(l));
                }
                let node = match self.emit_node(e, sc, b, p) {
                    Ok(v) => v,
                    Err(e) => {
                        return Err(e);
                    },
                };
                Ok(b.push(node))
            },
        }
    }

    pub fn emit_var(&self, name: &str, sc: &Scope, b: &mut Builder, p: &Pending) -> (r: Result<
        Atom,
        LowerError,
    >)
        ensures
            did_atom(
                r,
                *final(b),
                *p,
                var_s(self@, name@, sc@, scope::st_of(*old(b), *p)),
            ),
    {
        if let Some(a) = sc.resolve_local(name) {
            return Ok(a);
        }
        if let Some(c) = is_nullary(self.reg.ctor(name)) {
            let none: Vec<Atom> = Vec::new();
            assert(ir::atoms_view(none@) =~= Seq::empty());
            return Ok(b.push(ctor_node(self.ms, c, none)));
        }
        self.global(sc, name)
    }

    /// Emit an expression and give its term, itself not bound.
    pub fn emit_tail(&self, e: &Expr, sc: &Scope, b: &mut Builder, p: &mut Pending) -> (r: Result<
        Core,
        LowerError,
    >)
        ensures
            did_core(r, *final(b), *final(p), tail_s(self@, *e, sc@, scope::st_of(*old(b), *old(p)))),
        decreases e, 4nat, 0nat,
    {
        match e {
            Expr::Unit
            | Expr::Int(_)
            | Expr::Bool(_)
            | Expr::Str(_)
            | Expr::Char(_)
            | Expr::Var(_) => {
                let a = match self.emit_atom(e, sc, b, p) {
                    Ok(v) => v,
                    Err(e) => {
                        return Err(e);
                    },
                };
                Ok(Core::Atom(a))
            },
            Expr::Try(inner) => self.emit_tail(inner, sc, b, p),
            Expr::Struct { path, fields: _ } => {
                if self.collection(path) {
                    let a = match self.emit_atom(e, sc, b, p) {
                        Ok(v) => v,
                        Err(e) => {
                            return Err(e);
                        },
                    };
                    Ok(Core::Atom(a))
                } else {
                    self.emit_node(e, sc, b, p)
                }
            },
            _ => self.emit_node(e, sc, b, p),
        }
    }

    fn emit_node(&self, e: &Expr, sc: &Scope, b: &mut Builder, p: &mut Pending) -> (r: Result<
        Core,
        LowerError,
    >)
        ensures
            did_core(r, *final(b), *final(p), node_s(self@, *e, sc@, scope::st_of(*old(b), *old(p)))),
        decreases e, 2nat, 0nat,
    {
        match e {
            Expr::Cast(inner, ty) => {
                let value = match self.emit_atom(inner, sc, b, p) {
                    Ok(v) => v,
                    Err(e) => {
                        return Err(e);
                    },
                };
                let none: Vec<String> = Vec::new();
                assert(text::strings_view(none@) =~= Seq::empty());
                Ok(Core::Cast { value, to: self.lower_type(ty, &none) })
            },
            Expr::Binary(l, op, r) => {
                let x = match self.emit_atom(l, sc, b, p) {
                    Ok(v) => v,
                    Err(e) => {
                        return Err(e);
                    },
                };
                let y = match self.emit_atom(r, sc, b, p) {
                    Ok(v) => v,
                    Err(e) => {
                        return Err(e);
                    },
                };
                Ok(prim2(prim_op(*op), x, y))
            },
            Expr::Unary(op, operand) => {
                let x = match self.emit_atom(operand, sc, b, p) {
                    Ok(v) => v,
                    Err(e) => {
                        return Err(e);
                    },
                };
                Ok(unary_core(*op, x))
            },
            Expr::Index(base, index) => {
                let x = match self.emit_atom(base, sc, b, p) {
                    Ok(v) => v,
                    Err(e) => {
                        return Err(e);
                    },
                };
                let y = match self.emit_atom(index, sc, b, p) {
                    Ok(v) => v,
                    Err(e) => {
                        return Err(e);
                    },
                };
                Ok(prim2(PrimOp::Index, x, y))
            },
            Expr::Field(_, _) => self.emit_field(e, sc, b, p),
            Expr::Struct { path, fields } => self.emit_struct(path, fields, sc, b, p),
            Expr::Array(items) => {
                let elem = self.elem_type(items, sc);
                let v = match self.emit_atoms(items, sc, b, p) {
                    Ok(v) => v,
                    Err(e) => {
                        return Err(e);
                    },
                };
                Ok(Core::Array { elem, items: v })
            },
            Expr::Call(_, _) => self.emit_call(e, sc, b, p),
            _ => {
                match literal(e) {
                    Some(l) => Ok(Core::Atom(Atom::Lit(l))),
                    None => Ok(Core::Atom(Atom::Lit(Literal::Unit))),
                }
            },
        }
    }

    fn emit_field(&self, e: &Expr, sc: &Scope, b: &mut Builder, p: &mut Pending) -> (r: Result<
        Core,
        LowerError,
    >)
        ensures
            did_core(r, *final(b), *final(p), field_s(self@, *e, sc@, scope::st_of(*old(b), *old(p)))),
        decreases e, 1nat, 0nat,
    {
        match e {
            Expr::Field(base, field) => {
                if let Some(c) = is_nullary(self.find_path_ctor(base, field.as_str(), sc)) {
                    let none: Vec<Atom> = Vec::new();
                    assert(ir::atoms_view(none@) =~= Seq::empty());
                    return Ok(ctor_node(self.ms, c, none));
                }
                if let Err(e) = self.check_path(base, sc) {
                    return Err(e);
                }
                let x = match self.emit_atom(base, sc, b, p) {
                    Ok(v) => v,
                    Err(e) => {
                        return Err(e);
                    },
                };
                let bt = self.type_of_expr(base, sc);
                let at = match self.resolve_projection(&bt, field.as_str()) {
                    Ok(v) => v,
                    Err(e) => {
                        return Err(e);
                    },
                };
                Ok(Core::Proj { base: x, idx: at.1 as u32 })
            },
            _ => Ok(Core::Atom(Atom::Lit(Literal::Unit))),
        }
    }

    fn emit_atoms(&self, v: &Vec<Expr>, sc: &Scope, b: &mut Builder, p: &mut Pending) -> (r: Result<
        Vec<Atom>,
        LowerError,
    >)
        ensures
            did_atoms(
                r,
                *final(b),
                *final(p),
                atoms_s(self@, v@, v@.len(), sc@, scope::st_of(*old(b), *old(p))),
            ),
        decreases v@, 0nat, 0nat,
    {
        let ghost st = scope::st_of(*b, *p);
        let ghost lw = self@;
        let mut out: Vec<Atom> = Vec::new();
        let mut i: usize = 0;
        assert(ir::atoms_view(out@) =~= Seq::empty());
        while i < v.len()
            invariant
                i <= v@.len(),
                lw == self@,
                st == scope::st_of(*old(b), *old(p)),
                atoms_s(lw, v@, i as nat, sc@, st) == Ok::<(Seq<AtomView>, St), LowerErrorView>(
                    (ir::atoms_view(out@), scope::st_of(*b, *p)),
                ),
            decreases v@.len() - i,
        {
            match self.emit_atom(&v[i], sc, b, p) {
                Ok(a) => {
                    let ghost before = out@;
                    out.push(a);
                    assert(ir::atoms_view(out@) =~= ir::atoms_view(before).push(a@));
                },
                Err(e) => {
                    proof {
                        lemma_atoms_fail(lw, v@, (i + 1) as nat, v@.len(), sc@, st);
                    }
                    return Err(e);
                },
            }
            i = i + 1;
        }
        Ok(out)
    }

    fn emit_struct(
        &self,
        path: &Vec<String>,
        inits: &Vec<FieldInit>,
        sc: &Scope,
        b: &mut Builder,
        p: &mut Pending,
    ) -> (r: Result<Core, LowerError>)
        ensures
            did_core(
                r,
                *final(b),
                *final(p),
                struct_s(self@, text::strings_view(path@), inits@, sc@, scope::st_of(*old(b), *old(p))),
            ),
        decreases inits@, 1nat, 0nat,
    {
        let name = join(path, ".");
        let d = match find_struct(self.m, name.as_str()) {
            Some(d) => d,
            None => {
                return Err(LowerError::UnknownStruct { name });
            },
        };
        if let Some(i) = find_undeclared(inits, &d.fields) {
            return Err(LowerError::UnknownField { ty: name, field: inits[i].name.clone() });
        }
        let fields = match self.emit_inits(name.as_str(), &d.fields, inits, sc, b, p) {
            Ok(v) => v,
            Err(e) => {
                return Err(e);
            },
        };
        let ty = symbol_hash(dotted(path_of(self.m).as_str(), name.as_str()).as_str());
        Ok(Core::Ctor { ty, tag: 0, fields })
    }

    fn emit_inits(
        &self,
        name: &str,
        fields: &Vec<Field>,
        inits: &Vec<FieldInit>,
        sc: &Scope,
        b: &mut Builder,
        p: &mut Pending,
    ) -> (r: Result<Vec<Atom>, LowerError>)
        ensures
            did_atoms(
                r,
                *final(b),
                *final(p),
                inits_s(
                    self@,
                    name@,
                    fields@,
                    fields@.len(),
                    inits@,
                    sc@,
                    scope::st_of(*old(b), *old(p)),
                ),
            ),
        decreases inits@, 0nat, 0nat,
    {
        let ghost st = scope::st_of(*b, *p);
        let ghost lw = self@;
        let ghost n = fields@.len();
        let mut out: Vec<Atom> = Vec::new();
        let mut i: usize = 0;
        assert(ir::atoms_view(out@) =~= Seq::empty());
        while i < fields.len()
            invariant
                i <= n,
                n == fields@.len(),
                lw == self@,
                st == scope::st_of(*old(b), *old(p)),
                inits_s(lw, name@, fields@, i as nat, inits@, sc@, st) == Ok::<
                    (Seq<AtomView>, St),
                    LowerErrorView,
                >((ir::atoms_view(out@), scope::st_of(*b, *p))),
            decreases n - i,
        {
            match find_init(inits, fields[i].name.as_str()) {
                Some(k) => match self.emit_atom(&inits[k].value, sc, b, p) {
                    Ok(a) => {
                        let ghost before = out@;
                        out.push(a);
                        assert(ir::atoms_view(out@) =~= ir::atoms_view(before).push(a@));
                    },
                    Err(e) => {
                        proof {
                            lemma_inits_fail(
                                lw,
                                name@,
                                fields@,
                                (i + 1) as nat,
                                n,
                                inits@,
                                sc@,
                                st,
                            );
                        }
                        return Err(e);
                    },
                },
                None => {
                    proof {
                        lemma_inits_fail(lw, name@, fields@, (i + 1) as nat, n, inits@, sc@, st);
                    }
                    return Err(
                        LowerError::MissingStructField {
                            ty: name.to_owned(),
                            field: fields[i].name.clone(),
                        },
                    );
                },
            }
            i = i + 1;
        }
        Ok(out)
    }

    fn emit_call(&self, e: &Expr, sc: &Scope, b: &mut Builder, p: &mut Pending) -> (r: Result<
        Core,
        LowerError,
    >)
        ensures
            did_core(r, *final(b), *final(p), call_s(self@, *e, sc@, scope::st_of(*old(b), *old(p)))),
        decreases e, 1nat, 0nat,
    {
        match e {
            Expr::Call(callee, args) => {
                if self.len_call(callee, args, sc) {
                    let a = match self.emit_atom(&args[0], sc, b, p) {
                        Ok(v) => v,
                        Err(e) => {
                            return Err(e);
                        },
                    };
                    return Ok(prim1(PrimOp::Len, a));
                }
                if let Some(c) = self.callee_ctor(callee, sc) {
                    let fields = match self.emit_atoms(args, sc, b, p) {
                        Ok(v) => v,
                        Err(e) => {
                            return Err(e);
                        },
                    };
                    return Ok(ctor_node(self.ms, c, fields));
                }
                match &**callee {
                    Expr::Field(recv, method) => {
                        if let Err(e) = self.check_path(recv, sc) {
                            return Err(e);
                        }
                        let func = match self.method(method.as_str(), sc) {
                            Ok(v) => v,
                            Err(e) => {
                                return Err(e);
                            },
                        };
                        let x = match self.emit_atom(recv, sc, b, p) {
                            Ok(v) => v,
                            Err(e) => {
                                return Err(e);
                            },
                        };
                        let first = Core::App { func, arg: x };
                        if args.len() == 0 {
                            Ok(first)
                        } else {
                            let f = b.push(first);
                            self.emit_apply(args, f, sc, b, p)
                        }
                    },
                    _ => {
                        let func = match self.emit_callee(e, sc, b, p) {
                            Ok(v) => v,
                            Err(e) => {
                                return Err(e);
                            },
                        };
                        if args.len() == 0 {
                            Ok(Core::App { func, arg: Atom::Lit(Literal::Unit) })
                        } else {
                            self.emit_apply(args, func, sc, b, p)
                        }
                    },
                }
            },
            _ => Ok(Core::Atom(Atom::Lit(Literal::Unit))),
        }
    }

    fn len_call(&self, callee: &Expr, args: &Vec<Expr>, sc: &Scope) -> (r: bool)
        ensures
            r == is_len(*callee, args@, sc@),
    {
        match callee {
            Expr::Var(name) => str_eq(name.as_str(), "len") && args.len() == 1 && sc.find(
                name.as_str(),
            ).is_none(),
            _ => false,
        }
    }

    fn method(&self, name: &str, sc: &Scope) -> (r: Result<Atom, LowerError>)
        ensures
            match method_ref(self@, sc@, name@) {
                Ok(a) => r is Ok && r->Ok_0@ == a,
                Err(e) => r is Err && r->Err_0@ == e,
            },
    {
        match self.spec_dispatch(name) {
            Some(a) => Ok(a),
            None => self.global(sc, name),
        }
    }

    fn emit_callee(&self, e: &Expr, sc: &Scope, b: &mut Builder, p: &mut Pending) -> (r: Result<
        Atom,
        LowerError,
    >)
        ensures
            did_atom(r, *final(b), *final(p), callee_s(self@, *e, sc@, scope::st_of(*old(b), *old(p)))),
        decreases e, 0nat, 0nat,
    {
        match e {
            Expr::Call(callee, args) => {
                if let Expr::Var(name) = &**callee {
                    if sc.find(name.as_str()).is_none() {
                        if let Some(a) = self.spec_dispatch(name.as_str()) {
                            return Ok(a);
                        }
                        if let Some(a) = self.resolve_generic_call(name.as_str(), args, sc, p) {
                            return Ok(a);
                        }
                    }
                }
                self.emit_atom(callee, sc, b, p)
            },
            _ => Ok(Atom::Lit(Literal::Unit)),
        }
    }

    fn emit_apply(
        &self,
        args: &Vec<Expr>,
        func: Atom,
        sc: &Scope,
        b: &mut Builder,
        p: &mut Pending,
    ) -> (r: Result<Core, LowerError>)
        requires
            args@.len() > 0,
        ensures
            did_core(
                r,
                *final(b),
                *final(p),
                apply_s(self@, args@, args@.len(), func@, sc@, scope::st_of(*old(b), *old(p))),
            ),
        decreases args@, 0nat, 0nat,
    {
        let ghost st = scope::st_of(*b, *p);
        let ghost lw = self@;
        let ghost f0 = func@;
        let n = args.len();
        let mut cur = func;
        let mut i: usize = 0;
        while i < n - 1
            invariant
                i <= n - 1,
                n == args@.len(),
                n > 0,
                lw == self@,
                st == scope::st_of(*old(b), *old(p)),
                f0 == func@,
                applied_s(lw, args@, i as nat, f0, sc@, st) == Ok::<(AtomView, St), LowerErrorView>(
                    (cur@, scope::st_of(*b, *p)),
                ),
            decreases n - i,
        {
            match self.emit_atom(&args[i], sc, b, p) {
                Ok(a) => {
                    cur = b.push(Core::App { func: cur, arg: a });
                },
                Err(e) => {
                    proof {
                        lemma_applied_fail(
                            lw,
                            args@,
                            (i + 1) as nat,
                            (n - 1) as nat,
                            f0,
                            sc@,
                            st,
                        );
                    }
                    return Err(e);
                },
            }
            i = i + 1;
        }
        let arg = match self.emit_atom(&args[n - 1], sc, b, p) {
            Ok(v) => v,
            Err(e) => {
                return Err(e);
            },
        };
        Ok(Core::App { func: cur, arg })
    }

    fn emit_collection(
        &self,
        kind: &str,
        inits: &Vec<FieldInit>,
        sc: &Scope,
        b: &mut Builder,
        p: &mut Pending,
    ) -> (r: Result<Atom, LowerError>)
        requires
            kind@ == "List"@ || kind@ == "Set"@ || kind@ == "Map"@,
        ensures
            did_atom(
                r,
                *final(b),
                *final(p),
                collection_s(self@, kind@, inits@, sc@, scope::st_of(*old(b), *old(p))),
            ),
        decreases inits@, 2nat, 0nat,
    {
        if let Some(i) = find_foreign_part(inits, kind) {
            return Err(
                LowerError::UnknownField { ty: kind.to_owned(), field: inits[i].name.clone() },
            );
        }
        let ai = match find_init(inits, "alloc") {
            Some(i) => i,
            None => {
                return Err(LowerError::CollectionLiteralMissingAlloc { kind: kind_name(kind) });
            },
        };
        if str_eq(kind, "Map") {
            let keys = match find_array_part(inits, "keys") {
                Some(k) => k,
                None => {
                    return Err(missing_part(kind, "keys"));
                },
            };
            let values = match find_array_part(inits, "values") {
                Some(v) => v,
                None => {
                    return Err(missing_part(kind, "values"));
                },
            };
            return self.emit_map(inits, ai, keys.0, keys.1, values.0, values.1, sc, b, p);
        }
        let items = match find_array_part(inits, "items") {
            Some(v) => v,
            None => {
                return Err(missing_part(kind, "items"));
            },
        };
        if str_eq(kind, "Set") {
            self.emit_set(inits, ai, items.0, items.1, sc, b, p)
        } else {
            self.emit_list(inits, ai, items.0, items.1, sc, b, p)
        }
    }

    fn emit_list(
        &self,
        inits: &Vec<FieldInit>,
        ai: usize,
        ii: usize,
        items: &Vec<Expr>,
        sc: &Scope,
        b: &mut Builder,
        p: &mut Pending,
    ) -> (r: Result<Atom, LowerError>)
        requires
            ai < inits@.len(),
            ii < inits@.len(),
            inits@[ii as int].value == Expr::Array(*items),
        ensures
            did_atom(
                r,
                *final(b),
                *final(p),
                list_s(self@, inits@, ai as int, ii as int, sc@, scope::st_of(*old(b), *old(p))),
            ),
        decreases inits@, 1nat, 0nat,
    {
        let alloc = match self.emit_atom(&inits[ai].value, sc, b, p) {
            Ok(v) => v,
            Err(e) => {
                return Err(e);
            },
        };
        let list = b.push(
            Core::ListNew {
                elem: self.elem_type(items, sc),
                alloc: alloc.clone(),
                capacity: count_of(items.len()),
            },
        );
        self.emit_pushes(items, alloc, list, sc, b, p)
    }

    fn emit_pushes(
        &self,
        items: &Vec<Expr>,
        alloc: Atom,
        list: Atom,
        sc: &Scope,
        b: &mut Builder,
        p: &mut Pending,
    ) -> (r: Result<Atom, LowerError>)
        ensures
            did_atom(
                r,
                *final(b),
                *final(p),
                pushes_s(
                    self@,
                    items@,
                    items@.len(),
                    alloc@,
                    list@,
                    sc@,
                    scope::st_of(*old(b), *old(p)),
                ),
            ),
        decreases items@, 0nat, 0nat,
    {
        let ghost st = scope::st_of(*b, *p);
        let ghost lw = self@;
        let ghost l0 = list@;
        let ghost n = items@.len();
        let mut cur = list;
        let mut i: usize = 0;
        while i < items.len()
            invariant
                i <= n,
                n == items@.len(),
                lw == self@,
                st == scope::st_of(*old(b), *old(p)),
                l0 == list@,
                pushes_s(lw, items@, i as nat, alloc@, l0, sc@, st) == Ok::<
                    (AtomView, St),
                    LowerErrorView,
                >((cur@, scope::st_of(*b, *p))),
            decreases n - i,
        {
            match self.emit_atom(&items[i], sc, b, p) {
                Ok(value) => {
                    cur = b.push(Core::ListPush { alloc: alloc.clone(), list: cur, value });
                },
                Err(e) => {
                    proof {
                        lemma_pushes_fail(lw, items@, (i + 1) as nat, n, alloc@, l0, sc@, st);
                    }
                    return Err(e);
                },
            }
            i = i + 1;
        }
        Ok(cur)
    }

    fn emit_set(
        &self,
        inits: &Vec<FieldInit>,
        ai: usize,
        ii: usize,
        items: &Vec<Expr>,
        sc: &Scope,
        b: &mut Builder,
        p: &mut Pending,
    ) -> (r: Result<Atom, LowerError>)
        requires
            ai < inits@.len(),
            ii < inits@.len(),
            inits@[ii as int].value == Expr::Array(*items),
        ensures
            did_atom(
                r,
                *final(b),
                *final(p),
                set_s(self@, inits@, ai as int, ii as int, sc@, scope::st_of(*old(b), *old(p))),
            ),
        decreases inits@, 1nat, 0nat,
    {
        let alloc = match self.emit_atom(&inits[ai].value, sc, b, p) {
            Ok(v) => v,
            Err(e) => {
                return Err(e);
            },
        };
        let set = emit_call2(
            "std.collections.set_with_capacity",
            alloc.clone(),
            count_of(items.len()),
            b,
            p,
        );
        self.emit_inserts(items, alloc, set, sc, b, p)
    }

    fn emit_inserts(
        &self,
        items: &Vec<Expr>,
        alloc: Atom,
        set: Atom,
        sc: &Scope,
        b: &mut Builder,
        p: &mut Pending,
    ) -> (r: Result<Atom, LowerError>)
        ensures
            did_atom(
                r,
                *final(b),
                *final(p),
                inserts_s(
                    self@,
                    items@,
                    items@.len(),
                    alloc@,
                    set@,
                    sc@,
                    scope::st_of(*old(b), *old(p)),
                ),
            ),
        decreases items@, 0nat, 0nat,
    {
        let ghost st = scope::st_of(*b, *p);
        let ghost lw = self@;
        let ghost s0 = set@;
        let ghost n = items@.len();
        let mut cur = set;
        let mut i: usize = 0;
        while i < items.len()
            invariant
                i <= n,
                n == items@.len(),
                lw == self@,
                st == scope::st_of(*old(b), *old(p)),
                s0 == set@,
                inserts_s(lw, items@, i as nat, alloc@, s0, sc@, st) == Ok::<
                    (AtomView, St),
                    LowerErrorView,
                >((cur@, scope::st_of(*b, *p))),
            decreases n - i,
        {
            match self.emit_atom(&items[i], sc, b, p) {
                Ok(value) => {
                    let f = emit_call2("std.collections.set_insert", alloc.clone(), cur, b, p);
                    cur = b.push(Core::App { func: f, arg: value });
                },
                Err(e) => {
                    proof {
                        lemma_inserts_fail(lw, items@, (i + 1) as nat, n, alloc@, s0, sc@, st);
                    }
                    return Err(e);
                },
            }
            i = i + 1;
        }
        Ok(cur)
    }

    fn emit_map(
        &self,
        inits: &Vec<FieldInit>,
        ai: usize,
        ki: usize,
        keys: &Vec<Expr>,
        vi: usize,
        values: &Vec<Expr>,
        sc: &Scope,
        b: &mut Builder,
        p: &mut Pending,
    ) -> (r: Result<Atom, LowerError>)
        requires
            ai < inits@.len(),
            ki < inits@.len(),
            vi < inits@.len(),
            inits@[ki as int].value == Expr::Array(*keys),
            inits@[vi as int].value == Expr::Array(*values),
        ensures
            did_atom(
                r,
                *final(b),
                *final(p),
                map_s(
                    self@,
                    inits@,
                    ai as int,
                    ki as int,
                    vi as int,
                    sc@,
                    scope::st_of(*old(b), *old(p)),
                ),
            ),
        decreases inits@, 1nat, 0nat,
    {
        if keys.len() != values.len() {
            return Err(
                LowerError::MapLiteralLengthMismatch { keys: keys.len(), values: values.len() },
            );
        }
        assert(part(inits@, ki as int) == keys@ && part(inits@, vi as int) == values@);
        let alloc = match self.emit_atom(&inits[ai].value, sc, b, p) {
            Ok(v) => v,
            Err(e) => {
                return Err(e);
            },
        };
        let elem = nominal_pair(
            "std.collections.Entry",
            self.elem_type(keys, sc),
            self.elem_type(values, sc),
        );
        let list = b.push(
            Core::ListNew { elem, alloc: alloc.clone(), capacity: count_of(keys.len()) },
        );
        let l = match self.emit_entries(inits, ki, keys, vi, values, alloc, list, sc, b, p) {
            Ok(v) => v,
            Err(e) => {
                return Err(e);
            },
        };
        let mut fields: Vec<Atom> = Vec::new();
        fields.push(l);
        assert(ir::atoms_view(fields@) =~= seq![l@]);
        Ok(b.push(Core::Ctor { ty: symbol_hash("std.collections.Map"), tag: 0, fields }))
    }

    fn emit_entries(
        &self,
        inits: &Vec<FieldInit>,
        ki: usize,
        keys: &Vec<Expr>,
        vi: usize,
        values: &Vec<Expr>,
        alloc: Atom,
        list: Atom,
        sc: &Scope,
        b: &mut Builder,
        p: &mut Pending,
    ) -> (r: Result<Atom, LowerError>)
        requires
            ki < inits@.len(),
            vi < inits@.len(),
            inits@[ki as int].value == Expr::Array(*keys),
            inits@[vi as int].value == Expr::Array(*values),
            keys@.len() == values@.len(),
        ensures
            did_atom(
                r,
                *final(b),
                *final(p),
                entries_s(
                    self@,
                    inits@,
                    ki as int,
                    vi as int,
                    keys@.len(),
                    alloc@,
                    list@,
                    sc@,
                    scope::st_of(*old(b), *old(p)),
                ),
            ),
        decreases inits@, 0nat, 0nat,
    {
        let ghost st = scope::st_of(*b, *p);
        let ghost lw = self@;
        let ghost l0 = list@;
        let ghost n = keys@.len();
        let mut cur = list;
        let mut i: usize = 0;
        while i < keys.len()
            invariant
                i <= n,
                n == keys@.len(),
                n == values@.len(),
                lw == self@,
                st == scope::st_of(*old(b), *old(p)),
                ki < inits@.len(),
                vi < inits@.len(),
                inits@[ki as int].value == Expr::Array(*keys),
                inits@[vi as int].value == Expr::Array(*values),
                l0 == list@,
                entries_s(lw, inits@, ki as int, vi as int, i as nat, alloc@, l0, sc@, st) == Ok::<
                    (AtomView, St),
                    LowerErrorView,
                >((cur@, scope::st_of(*b, *p))),
            decreases n - i,
        {
            let k = match self.emit_atom(&keys[i], sc, b, p) {
                Ok(k) => k,
                Err(e) => {
                    proof {
                        lemma_entries_fail(
                            lw,
                            inits@,
                            ki as int,
                            vi as int,
                            (i + 1) as nat,
                            n,
                            alloc@,
                            l0,
                            sc@,
                            st,
                        );
                    }
                    return Err(e);
                },
            };
            let v = match self.emit_atom(&values[i], sc, b, p) {
                Ok(v) => v,
                Err(e) => {
                    proof {
                        lemma_entries_fail(
                            lw,
                            inits@,
                            ki as int,
                            vi as int,
                            (i + 1) as nat,
                            n,
                            alloc@,
                            l0,
                            sc@,
                            st,
                        );
                    }
                    return Err(e);
                },
            };
            let entry = b.push(entry_core(k, v));
            cur = b.push(Core::ListPush { alloc: alloc.clone(), list: cur, value: entry });
            i = i + 1;
        }
        Ok(cur)
    }
}

fn entry_core(k: Atom, v: Atom) -> (r: Core)
    ensures
        r@ == entry_view(k@, v@),
{
    let mut fields: Vec<Atom> = Vec::new();
    fields.push(Atom::Lit(Literal::Int(0)));
    fields.push(k);
    fields.push(v);
    assert(ir::atoms_view(fields@) =~= seq![AtomView::Lit(LiteralView::Int(0)), k@, v@]);
    Core::Ctor { ty: symbol_hash("std.collections.Entry"), tag: 0, fields }
}

fn missing_part(kind: &str, name: &str) -> (r: LowerError)
    ensures
        r@ == (LowerErrorView::MissingStructField { ty: kind@, field: name@ }),
{
    LowerError::MissingStructField { ty: kind.to_owned(), field: name.to_owned() }
}

fn kind_name(kind: &str) -> (r: &'static str)
    requires
        kind@ == "List"@ || kind@ == "Set"@ || kind@ == "Map"@,
    ensures
        r@ == kind@,
{
    if str_eq(kind, "List") {
        "List"
    } else if str_eq(kind, "Set") {
        "Set"
    } else {
        "Map"
    }
}

} // verus!
