//! What compiled code may refer to: capabilities, aggregates and functions, and
//! how values of each type are laid out.
use vstd::prelude::*;

use crate::copies::clone_types;
use crate::find;
use crate::hash;
use crate::hash::symbol_hash;
use crate::ir;
use crate::ir::{Atom, AtomView, Branch, BranchView, Core, CoreView, FloatTy, IntTy, Literal, LiteralView, PrimOp, Type, TypeView};

verus! {

// ---- declarations ---------------------------------------------------------------------------

/// One operation of a capability. `params` leaves out the receiver.
#[derive(Debug, PartialEq, Eq)]
pub struct OpSig {
    pub consumes_receiver: bool,
    pub params: Vec<Type>,
    pub ret: Type,
    pub errors: Vec<crate::ir::Hash>,
}

/// The mathematical counterpart of [`OpSig`].
#[verifier::ext_equal]
pub struct OpView {
    pub consumes_receiver: bool,
    pub params: Seq<TypeView>,
    pub ret: TypeView,
    pub errors: Seq<Seq<u8>>,
}

impl View for OpSig {
    type V = OpView;

    open spec fn view(&self) -> OpView {
        OpView {
            consumes_receiver: self.consumes_receiver,
            params: ir::types_view(self.params@),
            ret: self.ret@,
            errors: ir::hashes_view(self.errors@),
        }
    }
}

pub open spec fn ops_view(v: Seq<OpSig>) -> Seq<OpView> {
    Seq::new(v.len(), |i: int| v[i]@)
}

/// A capability with its operations.
#[derive(Debug, PartialEq, Eq)]
pub struct CapDecl {
    pub def: crate::ir::Hash,
    pub name: String,
    pub ops: Vec<OpSig>,
}

/// The mathematical counterpart of [`CapDecl`].
#[verifier::ext_equal]
pub struct CapView {
    pub def: Seq<u8>,
    pub name: Seq<char>,
    pub ops: Seq<OpView>,
}

impl View for CapDecl {
    type V = CapView;

    open spec fn view(&self) -> CapView {
        CapView { def: self.def@, name: self.name@, ops: ops_view(self.ops@) }
    }
}

/// An aggregate: a struct has one variant.
#[derive(Debug, PartialEq, Eq)]
pub struct SumDecl {
    pub def: crate::ir::Hash,
    pub name: String,
    pub variants: Vec<Vec<Type>>,
    pub linear: bool,
}

/// The mathematical counterpart of [`SumDecl`].
#[verifier::ext_equal]
pub struct SumView {
    pub def: Seq<u8>,
    pub name: Seq<char>,
    pub variants: Seq<Seq<TypeView>>,
    pub linear: bool,
}

pub open spec fn type_lists_view(v: Seq<Vec<Type>>) -> Seq<Seq<TypeView>> {
    Seq::new(v.len(), |i: int| ir::types_view(v[i]@))
}

impl View for SumDecl {
    type V = SumView;

    open spec fn view(&self) -> SumView {
        SumView {
            def: self.def@,
            name: self.name@,
            variants: type_lists_view(self.variants@),
            linear: self.linear,
        }
    }
}

/// A definition with its type.
#[derive(Debug, PartialEq, Eq)]
pub struct GlobalDecl {
    pub def: crate::ir::Hash,
    pub ty: Type,
}

/// The mathematical counterpart of [`GlobalDecl`].
#[verifier::ext_equal]
pub struct GlobalView {
    pub def: Seq<u8>,
    pub ty: TypeView,
}

impl View for GlobalDecl {
    type V = GlobalView;

    open spec fn view(&self) -> GlobalView {
        GlobalView { def: self.def@, ty: self.ty@ }
    }
}

/// All that compiled code may refer to. Where two declarations share a hash the
/// later one counts.
#[derive(Debug, PartialEq, Eq)]
pub struct World {
    pub caps: Vec<CapDecl>,
    pub sums: Vec<SumDecl>,
    pub globals: Vec<GlobalDecl>,
}

/// The mathematical counterpart of [`World`].
#[verifier::ext_equal]
pub struct WorldView {
    pub caps: Seq<CapView>,
    pub sums: Seq<SumView>,
    pub globals: Seq<GlobalView>,
}

pub open spec fn caps_view(v: Seq<CapDecl>) -> Seq<CapView> {
    Seq::new(v.len(), |i: int| v[i]@)
}

pub open spec fn sums_view(v: Seq<SumDecl>) -> Seq<SumView> {
    Seq::new(v.len(), |i: int| v[i]@)
}

pub open spec fn globals_view(v: Seq<GlobalDecl>) -> Seq<GlobalView> {
    Seq::new(v.len(), |i: int| v[i]@)
}

impl View for World {
    type V = WorldView;

    open spec fn view(&self) -> WorldView {
        WorldView {
            caps: caps_view(self.caps@),
            sums: sums_view(self.sums@),
            globals: globals_view(self.globals@),
        }
    }
}

pub open spec fn is_cap_def(w: WorldView, h: Seq<u8>) -> spec_fn(int) -> bool {
    |i: int| w.caps[i].def == h
}

pub open spec fn is_sum_def(w: WorldView, h: Seq<u8>) -> spec_fn(int) -> bool {
    |i: int| w.sums[i].def == h
}

pub open spec fn is_global_def(w: WorldView, h: Seq<u8>) -> spec_fn(int) -> bool {
    |i: int| w.globals[i].def == h
}

/// The capability of that hash.
pub open spec fn cap_of(w: WorldView, h: Seq<u8>) -> Option<CapView> {
    match find::last_below(is_cap_def(w, h), w.caps.len() as int) {
        Some(i) => Some(w.caps[i]),
        None => None,
    }
}

/// The aggregate of that hash.
pub open spec fn sum_of_hash(w: WorldView, h: Seq<u8>) -> Option<SumView> {
    match find::last_below(is_sum_def(w, h), w.sums.len() as int) {
        Some(i) => Some(w.sums[i]),
        None => None,
    }
}

/// The type of the definition of that hash.
pub open spec fn global_type(w: WorldView, h: Seq<u8>) -> Option<TypeView> {
    match find::last_below(is_global_def(w, h), w.globals.len() as int) {
        Some(i) => Some(w.globals[i].ty),
        None => None,
    }
}

impl World {
    /// A world without declarations.
    pub fn new() -> (r: World)
        ensures
            r@ == (WorldView { caps: Seq::empty(), sums: Seq::empty(), globals: Seq::empty() }),
    {
        let r = World { caps: Vec::new(), sums: Vec::new(), globals: Vec::new() };
        assert(r@.caps =~= Seq::empty());
        assert(r@.sums =~= Seq::empty());
        assert(r@.globals =~= Seq::empty());
        r
    }

    /// Declare a capability.
    pub fn add_cap(&mut self, def: crate::ir::Hash, name: String, ops: Vec<OpSig>)
        ensures
            final(self)@ == (WorldView {
                caps: old(self)@.caps.push(
                    CapView { def: def@, name: name@, ops: ops_view(ops@) },
                ),
                ..old(self)@
            }),
    {
        let c = CapDecl { def, name, ops };
        self.caps.push(c);
        assert(self@.caps =~= old(self)@.caps.push(c@));
    }

    /// Declare an aggregate.
    pub fn add_sum(&mut self, def: crate::ir::Hash, name: String, variants: Vec<Vec<Type>>, linear: bool)
        ensures
            final(self)@ == (WorldView {
                sums: old(self)@.sums.push(
                    SumView {
                        def: def@,
                        name: name@,
                        variants: type_lists_view(variants@),
                        linear,
                    },
                ),
                ..old(self)@
            }),
    {
        let s = SumDecl { def, name, variants, linear };
        self.sums.push(s);
        assert(self@.sums =~= old(self)@.sums.push(s@));
    }

    /// Declare a definition.
    pub fn add_global(&mut self, def: crate::ir::Hash, ty: Type)
        ensures
            final(self)@ == (WorldView {
                globals: old(self)@.globals.push(GlobalView { def: def@, ty: ty@ }),
                ..old(self)@
            }),
    {
        let g = GlobalDecl { def, ty };
        self.globals.push(g);
        assert(self@.globals =~= old(self)@.globals.push(g@));
    }

    /// The capability of that hash.
    pub fn cap(&self, h: &crate::ir::Hash) -> (r: Option<&CapDecl>)
        ensures
            match cap_of(self@, h@) {
                Some(c) => r is Some && r->0@ == c,
                None => r is None,
            },
    {
        let ghost p = is_cap_def(self@, h@);
        let mut i: usize = self.caps.len();
        while i > 0
            invariant
                i <= self.caps@.len(),
                p == is_cap_def(self@, h@),
                find::last_below(p, self@.caps.len() as int) == find::last_below(p, i as int),
            decreases i,
        {
            assert(self@.caps[i - 1] == self.caps@[i - 1]@);
            if self.caps[i - 1].def.same(h) {
                assert(p(i - 1));
                return Some(&self.caps[i - 1]);
            }
            assert(!p(i - 1));
            i = i - 1;
        }
        None
    }

    /// Whether that hash is a capability.
    pub fn is_cap(&self, h: &crate::ir::Hash) -> (r: bool)
        ensures
            r == (cap_of(self@, h@) is Some),
    {
        self.cap(h).is_some()
    }

    /// The aggregate of that hash.
    pub fn sum(&self, h: &crate::ir::Hash) -> (r: Option<&SumDecl>)
        ensures
            match sum_of_hash(self@, h@) {
                Some(c) => r is Some && r->0@ == c,
                None => r is None,
            },
    {
        let ghost p = is_sum_def(self@, h@);
        let mut i: usize = self.sums.len();
        while i > 0
            invariant
                i <= self.sums@.len(),
                p == is_sum_def(self@, h@),
                find::last_below(p, self@.sums.len() as int) == find::last_below(p, i as int),
            decreases i,
        {
            assert(self@.sums[i - 1] == self.sums@[i - 1]@);
            if self.sums[i - 1].def.same(h) {
                assert(p(i - 1));
                return Some(&self.sums[i - 1]);
            }
            assert(!p(i - 1));
            i = i - 1;
        }
        None
    }

    /// The type of the definition of that hash.
    pub fn global(&self, h: &crate::ir::Hash) -> (r: Option<Type>)
        ensures
            opt_type_view(r) == global_type(self@, h@),
    {
        let ghost p = is_global_def(self@, h@);
        let mut i: usize = self.globals.len();
        while i > 0
            invariant
                i <= self.globals@.len(),
                p == is_global_def(self@, h@),
                find::last_below(p, self@.globals.len() as int) == find::last_below(p, i as int),
            decreases i,
        {
            assert(self@.globals[i - 1] == self.globals@[i - 1]@);
            if self.globals[i - 1].def.same(h) {
                assert(p(i - 1));
                return Some(self.globals[i - 1].ty.clone());
            }
            assert(!p(i - 1));
            i = i - 1;
        }
        None
    }
}

// ---- layout -----------------------------------------------------------------------------------

/// The counterpart of an optional type.
pub open spec fn opt_type_view(t: Option<Type>) -> Option<TypeView> {
    match t {
        Some(t) => Some(t@),
        None => None,
    }
}

/// A copy of an optional type.
pub fn clone_opt_type(t: &Option<Type>) -> (r: Option<Type>)
    ensures
        opt_type_view(r) == opt_type_view(*t),
{
    match t {
        Some(t) => Some(t.clone()),
        None => None,
    }
}

/// The types of the binders in scope, as far as they are known.
pub open spec fn opt_types_view(v: Seq<Option<Type>>) -> Seq<Option<TypeView>> {
    Seq::new(v.len(), |i: int| opt_type_view(v[i]))
}

/// The hash of the list type.
pub open spec fn list_id() -> Seq<u8> {
    hash::symbol_id("std.collections.List"@)
}

/// Whether a type is a list.
pub open spec fn is_list(t: TypeView) -> bool {
    match t {
        TypeView::Nominal { def, args } => def == list_id() && args.len() == 1,
        _ => false,
    }
}

/// Whether a type is a list.
pub fn is_list_type(t: &Type) -> (r: bool)
    ensures
        r == is_list(t@),
{
    match t {
        Type::Nominal { def, args } => {
            assert(ir::types_view(args@).len() == args@.len()) by {
                broadcast use ir::lemma_types_view;

            }
            args.len() == 1 && def.same(&symbol_hash("std.collections.List"))
        },
        _ => false,
    }
}

/// A type without references and linearity around it.
pub open spec fn bare(t: TypeView) -> TypeView
    decreases t,
{
    match t {
        TypeView::Ref { mutable, of } => bare(*of),
        TypeView::Linear(of) => bare(*of),
        _ => t,
    }
}

/// A type without references and linearity around it.
pub fn bare_type(t: &Type) -> (r: &Type)
    ensures
        r@ == bare(t@),
    decreases t,
{
    match t {
        Type::Ref { mutable: _, of } => bare_type(of),
        Type::Linear(of) => bare_type(of),
        _ => t,
    }
}

/// Whether values of a type are blocks in memory: strings, sequences, tuples,
/// and declared aggregates.
pub open spec fn boxed(w: WorldView, t: TypeView) -> bool {
    match bare(t) {
        TypeView::Str | TypeView::Array(_, _) | TypeView::Slice(_) | TypeView::Tuple(_) => true,
        TypeView::Nominal { def, args } => cap_of(w, def) is None && (is_list(bare(t))
            || sum_of_hash(w, def) is Some),
        _ => false,
    }
}

/// Whether values of a type are blocks in memory.
pub fn is_boxed(w: &World, t: &Type) -> (r: bool)
    ensures
        r == boxed(w@, t@),
{
    let b = bare_type(t);
    match b {
        Type::Str | Type::Array(_, _) | Type::Slice(_) | Type::Tuple(_) => true,
        Type::Nominal { def, args: _ } => !w.is_cap(def) && (is_list_type(b) || w.sum(
            def,
        ).is_some()),
        _ => false,
    }
}

/// A type with its variables replaced by arguments.
pub open spec fn inst(t: TypeView, args: Seq<TypeView>) -> TypeView
    decreases t, 0nat,
{
    match t {
        TypeView::Var(i) => if i < args.len() {
            args[i as int]
        } else {
            t
        },
        TypeView::Array(e, n) => TypeView::Array(Box::new(inst(*e, args)), n),
        TypeView::Slice(e) => TypeView::Slice(Box::new(inst(*e, args))),
        TypeView::Tuple(v) => TypeView::Tuple(insts(v, v.len(), args)),
        TypeView::Arrow { param, ret, effects } => TypeView::Arrow {
            param: Box::new(inst(*param, args)),
            ret: Box::new(inst(*ret, args)),
            effects,
        },
        TypeView::Nominal { def, args: own } => TypeView::Nominal {
            def,
            args: insts(own, own.len(), args),
        },
        TypeView::Ref { mutable, of } => TypeView::Ref { mutable, of: Box::new(inst(*of, args)) },
        TypeView::Linear(e) => TypeView::Linear(Box::new(inst(*e, args))),
        _ => t,
    }
}

/// The first `n` types with their variables replaced.
pub open spec fn insts(v: Seq<TypeView>, n: nat, args: Seq<TypeView>) -> Seq<TypeView>
    decreases v, n,
{
    if n == 0 || n > v.len() {
        Seq::empty()
    } else {
        insts(v, (n - 1) as nat, args).push(inst(v[n - 1], args))
    }
}

fn inst_type(t: &Type, args: &Vec<Type>) -> (r: Type)
    ensures
        r@ == inst(t@, ir::types_view(args@)),
    decreases t,
{
    broadcast use ir::lemma_types_view;

    match t {
        Type::Var(i) => {
            if (*i as usize) < args.len() {
                args[*i as usize].clone()
            } else {
                Type::Var(*i)
            }
        },
        Type::Array(e, n) => Type::Array(Box::new(inst_type(e, args)), *n),
        Type::Slice(e) => Type::Slice(Box::new(inst_type(e, args))),
        Type::Tuple(v) => Type::Tuple(inst_types(v, args)),
        Type::Arrow { param, ret, effects } => Type::Arrow {
            param: Box::new(inst_type(param, args)),
            ret: Box::new(inst_type(ret, args)),
            effects: effects.clone(),
        },
        Type::Nominal { def, args: own } => Type::Nominal { def: *def, args: inst_types(own, args) },
        Type::Ref { mutable, of } => Type::Ref {
            mutable: *mutable,
            of: Box::new(inst_type(of, args)),
        },
        Type::Linear(e) => Type::Linear(Box::new(inst_type(e, args))),
        _ => t.clone(),
    }
}

fn inst_types(v: &Vec<Type>, args: &Vec<Type>) -> (r: Vec<Type>)
    ensures
        ir::types_view(r@) == insts(ir::types_view(v@), v@.len(), ir::types_view(args@)),
    decreases v@,
{
    broadcast use ir::lemma_types_view;

    let mut out: Vec<Type> = Vec::new();
    let mut i: usize = 0;
    assert(ir::types_view(out@) =~= Seq::empty());
    while i < v.len()
        invariant
            i <= v@.len(),
            ir::types_view(out@) == insts(ir::types_view(v@), i as nat, ir::types_view(args@)),
        decreases v@.len() - i,
    {
        let t = inst_type(&v[i], args);
        let ghost before = out@;
        out.push(t);
        assert(ir::types_view(v@)[i as int] == v@[i as int]@);
        assert(ir::types_view(out@) =~= ir::types_view(before).push(t@));
        i = i + 1;
    }
    out
}

/// The types of the fields of a variant.
pub open spec fn fields_of(w: WorldView, t: TypeView, tag: int) -> Option<Seq<TypeView>> {
    match bare(t) {
        TypeView::Tuple(v) => if tag == 0 {
            Some(v)
        } else {
            None
        },
        TypeView::Nominal { def, args } => match sum_of_hash(w, def) {
            Some(s) => if 0 <= tag < s.variants.len() {
                Some(insts(s.variants[tag], s.variants[tag].len(), args))
            } else {
                None
            },
            None => None,
        },
        _ => None,
    }
}

/// The counterpart of an optional list of types.
pub open spec fn opt_list_view(v: Option<Vec<Type>>) -> Option<Seq<TypeView>> {
    match v {
        Some(v) => Some(ir::types_view(v@)),
        None => None,
    }
}

/// The types of the fields of a variant.
pub fn variant_fields(w: &World, t: &Type, tag: u32) -> (r: Option<Vec<Type>>)
    ensures
        opt_list_view(r) == fields_of(w@, t@, tag as int),
{
    broadcast use ir::lemma_types_view;

    match bare_type(t) {
        Type::Tuple(v) => {
            if tag == 0 {
                Some(clone_types(v))
            } else {
                None
            }
        },
        Type::Nominal { def, args } => match w.sum(def) {
            Some(s) => {
                if (tag as usize) < s.variants.len() {
                    assert(s@.variants[tag as int] == ir::types_view(s.variants@[tag as int]@));
                    Some(inst_types(&s.variants[tag as usize], args))
                } else {
                    None
                }
            },
            None => None,
        },
        _ => None,
    }
}

// ---- types of terms ---------------------------------------------------------------------------------

/// The type of the innermost binder but `i`.
pub open spec fn binder(tys: Seq<Option<TypeView>>, i: u32) -> Option<TypeView> {
    if i < tys.len() {
        tys[tys.len() - 1 - i]
    } else {
        None
    }
}

/// The type of an atom, as far as it is known.
pub open spec fn type_of_atom(w: WorldView, a: AtomView, tys: Seq<Option<TypeView>>) -> Option<TypeView> {
    match a {
        AtomView::Var(i) => binder(tys, i),
        AtomView::Global(h) => global_type(w, h),
        AtomView::Lit(l) => Some(
            match l {
                LiteralView::Unit => TypeView::Unit,
                LiteralView::Bool(_) => TypeView::Bool,
                LiteralView::Int(_) => TypeView::Int(IntTy::I64),
                LiteralView::Float(_) => TypeView::Float(FloatTy::F64),
                LiteralView::Str(_) => TypeView::Str,
                LiteralView::Char(_) => TypeView::Char,
            },
        ),
    }
}

/// The type of an atom, as far as it is known.
pub fn atom_type(w: &World, a: &Atom, tys: &Vec<Option<Type>>) -> (r: Option<Type>)
    ensures
        opt_type_view(r) == type_of_atom(w@, a@, opt_types_view(tys@)),
{
    match a {
        Atom::Var(i) => {
            if (*i as usize) < tys.len() {
                assert(opt_types_view(tys@)[tys@.len() - 1 - *i] == opt_type_view(
                    tys@[tys@.len() - 1 - *i],
                ));
                clone_opt_type(&tys[tys.len() - 1 - *i as usize])
            } else {
                None
            }
        },
        Atom::Global(h) => w.global(h),
        Atom::Lit(l) => Some(
            match l {
                Literal::Unit => Type::Unit,
                Literal::Bool(_) => Type::Bool,
                Literal::Int(_) => Type::Int(IntTy::I64),
                Literal::Float(_) => Type::Float(FloatTy::F64),
                Literal::Str(_) => Type::Str,
                Literal::Char(_) => Type::Char,
            },
        ),
    }
}

/// The type of field `idx` of an aggregate.
pub open spec fn field_at(w: WorldView, t: Option<TypeView>, idx: u32) -> Option<TypeView> {
    match t {
        Some(t) => match fields_of(w, t, 0) {
            Some(v) => if idx < v.len() {
                Some(v[idx as int])
            } else {
                None
            },
            None => None,
        },
        None => None,
    }
}

fn field_type_at(w: &World, t: &Option<Type>, idx: u32) -> (r: Option<Type>)
    ensures
        opt_type_view(r) == field_at(w@, opt_type_view(*t), idx),
{
    broadcast use ir::lemma_types_view;

    match t {
        Some(t) => match variant_fields(w, t, 0) {
            Some(v) => {
                if (idx as usize) < v.len() {
                    Some(v[idx as usize].clone())
                } else {
                    None
                }
            },
            None => None,
        },
        None => None,
    }
}

/// The type of the elements of a sequence.
pub open spec fn item_of(t: Option<TypeView>) -> Option<TypeView> {
    match t {
        Some(t) => match bare(t) {
            TypeView::Slice(e) => Some(*e),
            TypeView::Array(e, _) => Some(*e),
            TypeView::Str => Some(TypeView::Char),
            TypeView::Nominal { def, args } => if is_list(bare(t)) {
                Some(args[0])
            } else {
                None
            },
            _ => None,
        },
        None => None,
    }
}

fn item_type_of(t: &Option<Type>) -> (r: Option<Type>)
    ensures
        opt_type_view(r) == item_of(opt_type_view(*t)),
{
    broadcast use ir::lemma_types_view;

    match t {
        Some(t) => {
            let b = bare_type(t);
            match b {
                Type::Slice(e) => Some((**e).clone()),
                Type::Array(e, _) => Some((**e).clone()),
                Type::Str => Some(Type::Char),
                Type::Nominal { def, args } => {
                    assert(b@ == (TypeView::Nominal { def: def@, args: ir::types_view(args@) }));
                    if is_list_type(b) {
                        assert(ir::types_view(args@)[0] == args@[0]@);
                        Some(args[0].clone())
                    } else {
                        None
                    }
                },
                _ => None,
            }
        },
        None => None,
    }
}

/// The type of a primitive's result; `first` is that of its first operand.
pub open spec fn prim_result(op: PrimOp, first: Option<TypeView>) -> Option<TypeView> {
    match op {
        PrimOp::Add | PrimOp::Sub | PrimOp::Mul | PrimOp::Div | PrimOp::Rem | PrimOp::Neg => first,
        PrimOp::Len => Some(TypeView::Int(IntTy::Usize)),
        PrimOp::Index => item_of(first),
        PrimOp::Slice | PrimOp::FromChars => Some(TypeView::Str),
        _ => Some(TypeView::Bool),
    }
}

fn prim_type(op: PrimOp, first: Option<Type>) -> (r: Option<Type>)
    ensures
        opt_type_view(r) == prim_result(op, opt_type_view(first)),
{
    match op {
        PrimOp::Add | PrimOp::Sub | PrimOp::Mul | PrimOp::Div | PrimOp::Rem | PrimOp::Neg => first,
        PrimOp::Len => Some(Type::Int(IntTy::Usize)),
        PrimOp::Index => item_type_of(&first),
        PrimOp::Slice | PrimOp::FromChars => Some(Type::Str),
        _ => Some(Type::Bool),
    }
}

/// The capability that an atom denotes, if it is a binder of that type.
pub open spec fn cap_def(w: WorldView, a: AtomView, tys: Seq<Option<TypeView>>) -> Option<Seq<u8>> {
    match a {
        AtomView::Var(i) => match binder(tys, i) {
            Some(TypeView::Nominal { def, args }) => if cap_of(w, def) is Some {
                Some(def)
            } else {
                None
            },
            _ => None,
        },
        _ => None,
    }
}

/// The capability that an atom denotes, if it is a binder of that type.
pub fn resolve_cap_def(cap: &Atom, tys: &Vec<Option<Type>>, w: &World) -> (r: Option<crate::ir::Hash>)
    ensures
        match cap_def(w@, cap@, opt_types_view(tys@)) {
            Some(h) => r is Some && r->0@ == h,
            None => r is None,
        },
{
    match cap {
        Atom::Var(_) => match atom_type(w, cap, tys) {
            Some(Type::Nominal { def, args: _ }) => {
                if w.is_cap(&def) {
                    Some(def)
                } else {
                    None
                }
            },
            _ => None,
        },
        _ => None,
    }
}

/// An operation of a capability.
pub open spec fn op_of(w: WorldView, h: Seq<u8>, op: u32) -> Option<OpView> {
    match cap_of(w, h) {
        Some(c) => if op < c.ops.len() {
            Some(c.ops[op as int])
        } else {
            None
        },
        None => None,
    }
}

/// An operation of a capability.
pub fn cap_op<'a>(w: &'a World, h: &crate::ir::Hash, op: u32) -> (r: Option<&'a OpSig>)
    ensures
        match op_of(w@, h@, op) {
            Some(o) => r is Some && r->0@ == o,
            None => r is None,
        },
{
    match w.cap(h) {
        Some(c) => {
            if (op as usize) < c.ops.len() {
                assert(c@.ops[op as int] == c.ops@[op as int]@);
                Some(&c.ops[op as usize])
            } else {
                None
            }
        },
        None => None,
    }
}

/// The binders of a branch, whose field types may be known: the first `n`.
pub open spec fn with_fields(
    tys: Seq<Option<TypeView>>,
    fields: Option<Seq<TypeView>>,
    n: nat,
) -> Seq<Option<TypeView>>
    decreases n,
{
    if n == 0 {
        tys
    } else {
        with_fields(tys, fields, (n - 1) as nat).push(
            match fields {
                Some(v) => if n - 1 < v.len() {
                    Some(v[n - 1])
                } else {
                    None
                },
                None => None,
            },
        )
    }
}

/// The fields of variant `tag` of a scrutinee.
pub open spec fn scrutinee_fields(w: WorldView, t: Option<TypeView>, tag: int) -> Option<Seq<TypeView>> {
    match t {
        Some(t) => fields_of(w, t, tag),
        None => None,
    }
}

/// The type of a term, as far as it is known.
pub open spec fn type_of_s(w: WorldView, c: CoreView, tys: Seq<Option<TypeView>>) -> Option<TypeView>
    decreases c, 0nat,
{
    match c {
        CoreView::Atom(a) => type_of_atom(w, a, tys),
        CoreView::Let { value, body } => type_of_s(w, *body, tys.push(type_of_s(w, *value, tys))),
        CoreView::App { func, arg } => match type_of_atom(w, func, tys) {
            Some(TypeView::Arrow { param, ret, effects }) => Some(*ret),
            _ => None,
        },
        CoreView::Ctor { ty, tag, fields } => Some(
            TypeView::Nominal { def: ty, args: Seq::empty() },
        ),
        CoreView::Array { elem, items } => Some(
            TypeView::Array(Box::new(elem), (items.len() as usize) as u64),
        ),
        CoreView::IndexSet { base, index, value } => type_of_atom(w, base, tys),
        CoreView::Proj { base, idx } => field_at(w, type_of_atom(w, base, tys), idx),
        CoreView::Match { scrutinee, branches } => type_of_branches(
            w,
            branches,
            branches.len(),
            type_of_atom(w, scrutinee, tys),
            tys,
        ),
        CoreView::Prim { op, args } => prim_result(
            op,
            if args.len() > 0 {
                type_of_atom(w, args[0], tys)
            } else {
                None
            },
        ),
        CoreView::Cast { value, to } => Some(to),
        CoreView::Ref { mutable, of } => match type_of_atom(w, of, tys) {
            Some(t) => Some(TypeView::Ref { mutable, of: Box::new(t) }),
            None => None,
        },
        CoreView::Perform { cap, op, args } => match cap_def(w, cap, tys) {
            Some(h) => match op_of(w, h, op) {
                Some(o) => Some(o.ret),
                None => None,
            },
            None => None,
        },
        CoreView::Loop { state, inv, cond, body } => match state_types(w, state, state.len(), tys) {
            Some(v) => Some(TypeView::Tuple(v)),
            None => None,
        },
        CoreView::ListNew { elem, alloc, capacity } => Some(
            TypeView::Nominal { def: list_id(), args: seq![elem] },
        ),
        CoreView::ListPush { alloc, list, value } => type_of_atom(w, list, tys),
        CoreView::ListPop { list } => type_of_atom(w, list, tys),
        CoreView::ListSet { list, index, value } => type_of_atom(w, list, tys),
        _ => None,
    }
}

/// The types of the first `n` atoms, if all are known.
pub open spec fn state_types(
    w: WorldView,
    v: Seq<AtomView>,
    n: nat,
    tys: Seq<Option<TypeView>>,
) -> Option<Seq<TypeView>>
    decreases n,
{
    if n == 0 {
        Some(Seq::empty())
    } else {
        match (state_types(w, v, (n - 1) as nat, tys), type_of_atom(w, v[n - 1], tys)) {
            (Some(out), Some(t)) => Some(out.push(t)),
            _ => None,
        }
    }
}

/// The type of the first of the first `n` branches whose type is known.
pub open spec fn type_of_branches(
    w: WorldView,
    v: Seq<BranchView>,
    n: nat,
    scrutinee: Option<TypeView>,
    tys: Seq<Option<TypeView>>,
) -> Option<TypeView>
    decreases v, n,
{
    if n == 0 || n > v.len() {
        None
    } else {
        match type_of_branches(w, v, (n - 1) as nat, scrutinee, tys) {
            Some(t) => Some(t),
            None => type_of_s(
                w,
                v[n - 1].body,
                with_fields(
                    tys,
                    scrutinee_fields(w, scrutinee, (((n - 1) as usize) as u32) as int),
                    v[n - 1].binds as nat,
                ),
            ),
        }
    }
}

/// Add the binders of a branch.
pub fn push_fields(tys: &mut Vec<Option<Type>>, fields: &Option<Vec<Type>>, n: u32)
    ensures
        opt_types_view(final(tys)@) == with_fields(
            opt_types_view(old(tys)@),
            opt_list_view(*fields),
            n as nat,
        ),
        final(tys)@.len() == old(tys)@.len() + n,
        forall|i: int| 0 <= i < old(tys)@.len() ==> final(tys)@[i] == old(tys)@[i],
{
    broadcast use ir::lemma_types_view;

    let ghost t0 = tys@;
    let ghost start = opt_types_view(tys@);
    let mut k: u32 = 0;
    while k < n
        invariant
            k <= n,
            t0 == old(tys)@,
            start == opt_types_view(old(tys)@),
            opt_types_view(tys@) == with_fields(start, opt_list_view(*fields), k as nat),
            tys@.len() == t0.len() + k,
            forall|i: int| 0 <= i < t0.len() ==> tys@[i] == t0[i],
        decreases n - k,
    {
        let ghost before = tys@;
        let t = match fields {
            Some(v) => {
                if (k as usize) < v.len() {
                    Some(v[k as usize].clone())
                } else {
                    None
                }
            },
            None => None,
        };
        tys.push(t);
        assert(opt_types_view(tys@) =~= opt_types_view(before).push(opt_type_view(t)));
        k = k + 1;
    }
}

/// Remove the innermost `n` binders.
pub fn drop_types(tys: &mut Vec<Option<Type>>, n: u32)
    requires
        n <= old(tys)@.len(),
    ensures
        final(tys)@ == old(tys)@.take(old(tys)@.len() - n),
{
    let ghost t0 = tys@;
    let mut k: u32 = 0;
    while k < n
        invariant
            k <= n,
            n <= t0.len(),
            tys@ == t0.take(t0.len() - k),
        decreases n - k,
    {
        let _t = tys.pop();
        assert(tys@ =~= t0.take(t0.len() - (k + 1)));
        k = k + 1;
    }
    assert(tys@ =~= t0.take(t0.len() - n));
}

fn types_of_state(w: &World, v: &Vec<Atom>, tys: &Vec<Option<Type>>) -> (r: Option<Vec<Type>>)
    ensures
        opt_list_view(r) == state_types(w@, ir::atoms_view(v@), v@.len(), opt_types_view(tys@)),
{
    broadcast use ir::lemma_types_view;

    let ghost a = ir::atoms_view(v@);
    let ghost ts = opt_types_view(tys@);
    let mut out: Vec<Type> = Vec::new();
    let mut i: usize = 0;
    assert(ir::types_view(out@) =~= Seq::empty());
    while i < v.len()
        invariant
            i <= v@.len(),
            a == ir::atoms_view(v@),
            ts == opt_types_view(tys@),
            state_types(w@, a, i as nat, ts) == Some(ir::types_view(out@)),
        decreases v@.len() - i,
    {
        assert(a[i as int] == v@[i as int]@);
        match atom_type(w, &v[i], tys) {
            Some(t) => {
                let ghost before = out@;
                out.push(t);
                assert(ir::types_view(out@) =~= ir::types_view(before).push(t@));
            },
            None => {
                proof {
                    lemma_state_unknown(w@, a, (i + 1) as nat, v@.len(), ts);
                }
                return None;
            },
        }
        i = i + 1;
    }
    Some(out)
}

proof fn lemma_state_unknown(
    w: WorldView,
    v: Seq<AtomView>,
    i: nat,
    n: nat,
    tys: Seq<Option<TypeView>>,
)
    requires
        i <= n,
        state_types(w, v, i, tys) is None,
    ensures
        state_types(w, v, n, tys) is None,
    decreases n - i,
{
    if i < n {
        assert(state_types(w, v, i + 1, tys) is None);
        lemma_state_unknown(w, v, i + 1, n, tys);
    }
}

/// The type of a term, as far as it is known. The binders are left as they were.
pub fn type_of(w: &World, c: &Core, tys: &mut Vec<Option<Type>>) -> (r: Option<Type>)
    ensures
        opt_type_view(r) == type_of_s(w@, c@, opt_types_view(old(tys)@)),
        final(tys)@ == old(tys)@,
    decreases c, 0nat,
{
    broadcast use ir::lemma_types_view;

    let ghost t0 = tys@;
    match c {
        Core::Atom(a) => atom_type(w, a, tys),
        Core::Let { value, body } => {
            let t = type_of(w, value, tys);
            tys.push(t);
            assert(opt_types_view(tys@) =~= opt_types_view(t0).push(opt_type_view(t)));
            let r = type_of(w, body, tys);
            let _t = tys.pop();
            assert(tys@ =~= t0);
            r
        },
        Core::App { func, arg: _ } => match atom_type(w, func, tys) {
            Some(Type::Arrow { param: _, ret, effects: _ }) => Some(*ret),
            _ => None,
        },
        Core::Ctor { ty, tag: _, fields: _ } => {
            let none: Vec<Type> = Vec::new();
            assert(ir::types_view(none@) =~= Seq::empty());
            Some(Type::Nominal { def: *ty, args: none })
        },
        Core::Array { elem, items } => {
            assert(ir::atoms_view(items@).len() == items@.len());
            Some(Type::Array(Box::new(elem.clone()), items.len() as u64))
        },
        Core::IndexSet { base, index: _, value: _ } => atom_type(w, base, tys),
        Core::Proj { base, idx } => {
            let t = atom_type(w, base, tys);
            field_type_at(w, &t, *idx)
        },
        Core::Match { scrutinee, branches } => {
            let t = atom_type(w, scrutinee, tys);
            branch_type(w, branches, &t, tys)
        },
        Core::Prim { op, args } => {
            let first = if args.len() > 0 {
                assert(ir::atoms_view(args@)[0] == args@[0]@);
                atom_type(w, &args[0], tys)
            } else {
                None
            };
            prim_type(*op, first)
        },
        Core::Cast { value: _, to } => Some(to.clone()),
        Core::Ref { mutable, of } => match atom_type(w, of, tys) {
            Some(t) => Some(Type::Ref { mutable: *mutable, of: Box::new(t) }),
            None => None,
        },
        Core::Perform { cap, op, args: _ } => match resolve_cap_def(cap, tys, w) {
            Some(h) => match cap_op(w, &h, op.0) {
                Some(o) => Some(o.ret.clone()),
                None => None,
            },
            None => None,
        },
        Core::Loop { state, inv: _, cond: _, body: _ } => match types_of_state(w, state, tys) {
            Some(v) => Some(Type::Tuple(v)),
            None => None,
        },
        Core::ListNew { elem, alloc: _, capacity: _ } => {
            let mut args: Vec<Type> = Vec::new();
            args.push(elem.clone());
            assert(ir::types_view(args@) =~= seq![elem@]);
            Some(Type::Nominal { def: symbol_hash("std.collections.List"), args })
        },
        Core::ListPush { alloc: _, list, value: _ } => atom_type(w, list, tys),
        Core::ListPop { list } => atom_type(w, list, tys),
        Core::ListSet { list, index: _, value: _ } => atom_type(w, list, tys),
        _ => None,
    }
}

fn branch_type(w: &World, v: &Vec<Branch>, t: &Option<Type>, tys: &mut Vec<Option<Type>>) -> (r: Option<
    Type,
>)
    ensures
        opt_type_view(r) == type_of_branches(
            w@,
            ir::branches_view(v@),
            v@.len(),
            opt_type_view(*t),
            opt_types_view(old(tys)@),
        ),
        final(tys)@ == old(tys)@,
    decreases v@, 0nat,
{
    broadcast use ir::lemma_branches_view;

    let ghost t0 = tys@;
    let ghost bs = ir::branches_view(v@);
    let ghost want = opt_type_view(*t);
    let ghost ts = opt_types_view(tys@);
    let mut i: usize = 0;
    while i < v.len()
        invariant
            i <= v@.len(),
            t0 == old(tys)@,
            tys@ == t0,
            bs == ir::branches_view(v@),
            bs.len() == v@.len(),
            want == opt_type_view(*t),
            ts == opt_types_view(t0),
            type_of_branches(w@, bs, i as nat, want, ts) is None,
        decreases v@.len() - i,
    {
        assert(bs[i as int] == v@[i as int]@);
        let fields = match t {
            Some(t) => variant_fields(w, t, i as u32),
            None => None,
        };
        push_fields(tys, &fields, v[i].binds);
        let r = type_of(w, &v[i].body, tys);
        drop_types(tys, v[i].binds);
        assert(tys@ =~= t0);
        proof {
            lemma_known_branch(w@, bs, (i + 1) as nat, v@.len(), want, ts);
        }
        if r.is_some() {
            return r;
        }
        i = i + 1;
    }
    None
}

proof fn lemma_known_branch(
    w: WorldView,
    v: Seq<BranchView>,
    i: nat,
    n: nat,
    t: Option<TypeView>,
    tys: Seq<Option<TypeView>>,
)
    requires
        i <= n <= v.len(),
    ensures
        type_of_branches(w, v, i, t, tys) is Some ==> type_of_branches(w, v, n, t, tys)
            == type_of_branches(w, v, i, t, tys),
    decreases n - i,
{
    if i < n {
        lemma_known_branch(w, v, i + 1, n, t, tys);
    }
}

} // verus!
