//! Types and names of the surface language, resolved.
use vstd::prelude::*;
use vstd::string::*;


use crate::decls;
use crate::decls::{ItemRef, dotted, enum_qualified, find_fn, find_generic, find_impl_method, find_import, find_method_iface, find_struct, get_fn, has_local_item, last_of, path_of, qualify_name};
use crate::find;
use crate::hash;
use crate::hash::symbol_hash;
use crate::ir;
use crate::ir::{Atom, AtomView, FloatTy, IntTy, Type, TypeView};
use crate::lower_error::{LowerError, LowerErrorView};
use crate::scope;
use crate::scope::{ArgView, InstArg, InstanceReq, Lowerer, LowererView, PendView, Pending, ReqView, Scope, ScopeView};
use crate::surface;
use crate::surface::{generic_names, get_bound, named, peel_ref_ty, struct_name, type_key, unify};
use crate::syntax;
use crate::syntax::{Expr, Field, Generic, Item, Module, Param, SType, STypeView, UnOp, clone_opt_stype};
use crate::text;
use crate::text::{clone_strings, join, position, str_eq};

verus! {

// ---- types --------------------------------------------------------------------------------

/// The Core type of a built-in name.
pub open spec fn builtin_view(name: Seq<char>) -> Option<TypeView> {
    if name == "i8"@ {
        Some(TypeView::Int(IntTy::I8))
    } else if name == "i16"@ {
        Some(TypeView::Int(IntTy::I16))
    } else if name == "i32"@ {
        Some(TypeView::Int(IntTy::I32))
    } else if name == "i64"@ {
        Some(TypeView::Int(IntTy::I64))
    } else if name == "isize"@ {
        Some(TypeView::Int(IntTy::Isize))
    } else if name == "u8"@ {
        Some(TypeView::Int(IntTy::U8))
    } else if name == "u16"@ {
        Some(TypeView::Int(IntTy::U16))
    } else if name == "u32"@ {
        Some(TypeView::Int(IntTy::U32))
    } else if name == "u64"@ {
        Some(TypeView::Int(IntTy::U64))
    } else if name == "usize"@ {
        Some(TypeView::Int(IntTy::Usize))
    } else if name == "f32"@ {
        Some(TypeView::Float(FloatTy::F32))
    } else if name == "f64"@ {
        Some(TypeView::Float(FloatTy::F64))
    } else if name == "bool"@ {
        Some(TypeView::Bool)
    } else if name == "str"@ {
        Some(TypeView::Str)
    } else if name == "char"@ {
        Some(TypeView::Char)
    } else {
        None
    }
}

/// The Core type of a built-in name.
pub fn builtin_type(name: &str) -> (r: Option<Type>)
    ensures
        match builtin_view(name@) {
            Some(t) => r is Some && r->0@ == t,
            None => r is None,
        },
{
    if str_eq(name, "i8") {
        Some(Type::Int(IntTy::I8))
    } else if str_eq(name, "i16") {
        Some(Type::Int(IntTy::I16))
    } else if str_eq(name, "i32") {
        Some(Type::Int(IntTy::I32))
    } else if str_eq(name, "i64") {
        Some(Type::Int(IntTy::I64))
    } else if str_eq(name, "isize") {
        Some(Type::Int(IntTy::Isize))
    } else if str_eq(name, "u8") {
        Some(Type::Int(IntTy::U8))
    } else if str_eq(name, "u16") {
        Some(Type::Int(IntTy::U16))
    } else if str_eq(name, "u32") {
        Some(Type::Int(IntTy::U32))
    } else if str_eq(name, "u64") {
        Some(Type::Int(IntTy::U64))
    } else if str_eq(name, "usize") {
        Some(Type::Int(IntTy::Usize))
    } else if str_eq(name, "f32") {
        Some(Type::Float(FloatTy::F32))
    } else if str_eq(name, "f64") {
        Some(Type::Float(FloatTy::F64))
    } else if str_eq(name, "bool") {
        Some(Type::Bool)
    } else if str_eq(name, "str") {
        Some(Type::Str)
    } else if str_eq(name, "char") {
        Some(Type::Char)
    } else {
        None
    }
}

/// The qualified name of a struct of this module.
pub open spec fn struct_qual(lw: LowererView, name: Seq<char>) -> Seq<char> {
    decls::path_view(lw.m) + "."@ + name
}

/// A name that this module does not declare: under the module that it is
/// imported from, or as it is.
pub open spec fn import_qual(lw: LowererView, name: Seq<char>) -> Seq<char> {
    match decls::import_of(lw.m, name) {
        Some(p) => p + "."@ + name,
        None => name,
    }
}

/// The name that a single-segment type name denotes: a struct of this module or
/// an enum in scope under its qualified name, an imported type under its module,
/// anything else as it is.
pub open spec fn type_qual(lw: LowererView, name: Seq<char>) -> Seq<char> {
    if decls::struct_named(lw.m, name) is Some {
        struct_qual(lw, name)
    } else {
        match decls::enum_qualified_view(lw.ms, name) {
            Some(q) => q,
            None => import_qual(lw, name),
        }
    }
}

/// A named type with its arguments.
#[verifier::opaque]
pub open spec fn named_type(lw: LowererView, path: Seq<Seq<char>>, args: Seq<TypeView>) -> TypeView {
    if path.len() == 1 {
        if args.len() == 0 && builtin_view(path[0]) is Some {
            builtin_view(path[0])->0
        } else {
            TypeView::Nominal { def: hash::symbol_id(type_qual(lw, path[0])), args }
        }
    } else {
        TypeView::Nominal { def: hash::symbol_id(text::join_view(path, "."@)), args }
    }
}

/// The marker for the inferred error set of `!T`.
pub open spec fn error_marker() -> TypeView {
    TypeView::Nominal { def: hash::symbol_id("@error-union"@), args: Seq::empty() }
}

/// The type `!T`.
pub open spec fn result_type(success: TypeView) -> TypeView {
    TypeView::Nominal { def: hash::symbol_id("Result"@), args: seq![success, error_marker()] }
}

/// The type `?T`.
pub open spec fn option_type(inner: TypeView) -> TypeView {
    TypeView::Nominal { def: hash::symbol_id("Option"@), args: seq![inner] }
}

/// The Core type of a surface type. A bound parameter becomes what it is bound
/// to, any other name of `generics` a type variable.
pub open spec fn type_s(lw: LowererView, t: STypeView, generics: Seq<Seq<char>>, fuel: nat) -> TypeView
    decreases fuel, 1nat, t, 0nat,
{
    match t {
        STypeView::Unit => TypeView::Unit,
        STypeView::Named(path) => path_s(lw, path, generics, fuel),
        STypeView::Generic { path, args } => named_type(
            lw,
            path,
            types_s(lw, args, args.len(), generics, fuel),
        ),
        STypeView::Slice(inner) => TypeView::Slice(Box::new(type_s(lw, *inner, generics, fuel))),
        STypeView::Array { len, elem } => TypeView::Array(
            Box::new(type_s(lw, *elem, generics, fuel)),
            len,
        ),
        STypeView::Ref { mutable, inner } => TypeView::Ref {
            mutable,
            of: Box::new(type_s(lw, *inner, generics, fuel)),
        },
        STypeView::ErrorUnion(o) => result_type(
            match o {
                Some(e) => type_s(lw, *e, generics, fuel),
                None => TypeView::Unit,
            },
        ),
        STypeView::Optional(inner) => option_type(type_s(lw, *inner, generics, fuel)),
    }
}

/// The Core type of a name that is not bound: a type variable or a named type.
pub open spec fn unbound_s(
    lw: LowererView,
    path: Seq<Seq<char>>,
    generics: Seq<Seq<char>>,
) -> TypeView {
    if path.len() == 1 && text::first_index(generics, path[0]) is Some {
        TypeView::Var((text::first_index(generics, path[0])->0 as usize) as u32)
    } else {
        named_type(lw, path, Seq::empty())
    }
}

/// The Core type of a name without arguments.
pub open spec fn path_s(
    lw: LowererView,
    path: Seq<Seq<char>>,
    generics: Seq<Seq<char>>,
    fuel: nat,
) -> TypeView
    decreases fuel, 0nat, path, 0nat,
{
    if path.len() == 1 && fuel > 0 && surface::bound_type(lw.subst, path[0]) is Some {
        type_s(lw, surface::bound_type(lw.subst, path[0])->0, generics, (fuel - 1) as nat)
    } else {
        unbound_s(lw, path, generics)
    }
}

/// The Core types of the first `n` surface types.
pub open spec fn types_s(
    lw: LowererView,
    v: Seq<STypeView>,
    n: nat,
    generics: Seq<Seq<char>>,
    fuel: nat,
) -> Seq<TypeView>
    decreases fuel, 1nat, v, n,
{
    if n == 0 || n > v.len() {
        Seq::empty()
    } else {
        types_s(lw, v, (n - 1) as nat, generics, fuel).push(type_s(lw, v[n - 1], generics, fuel))
    }
}

/// The Core type of a surface type, following the bindings of parameters.
pub open spec fn ty_s(lw: LowererView, t: STypeView, generics: Seq<Seq<char>>) -> TypeView {
    type_s(lw, t, generics, lw.subst.len())
}

// ---- what is known of an expression's type ----------------------------------------------------

/// The element type of a slice or an array, through references.
pub open spec fn element_type(t: STypeView) -> Option<STypeView> {
    match surface::peel_view(t) {
        STypeView::Slice(inner) => Some(*inner),
        STypeView::Array { len, elem } => Some(*elem),
        _ => None,
    }
}

/// The qualified name that the path of a type denotes.
pub open spec fn denoted(lw: LowererView, path: Seq<Seq<char>>) -> Seq<char> {
    if path.len() == 1 {
        type_qual(lw, path[0])
    } else {
        text::join_view(path, "."@)
    }
}

/// What an iterator of the standard library yields, through references.
pub open spec fn iterated(lw: LowererView, t: STypeView) -> Option<STypeView> {
    match surface::peel_view(t) {
        STypeView::Generic { path, args } => if args.len() == 1 && denoted(lw, path)
            == "std.iter.IndexIter"@ {
            Some(args[0])
        } else {
            None
        },
        _ => None,
    }
}

pub open spec fn is_field_named(fields: Seq<Field>, name: Seq<char>) -> spec_fn(int) -> bool {
    |i: int| fields[i].name@ == name
}

/// The position of the field of that name.
pub open spec fn field_index(fields: Seq<Field>, name: Seq<char>) -> Option<int> {
    find::first_from(is_field_named(fields, name), 0, fields.len() as int)
}

/// The surface type of an expression, as far as declarations and annotations
/// tell it.
pub open spec fn expr_type(lw: LowererView, e: Expr, sc: ScopeView) -> Option<STypeView>
    decreases e,
{
    match e {
        Expr::Var(name) => match scope::local(sc, name@) {
            Some(b) => b.ty,
            None => None,
        },
        Expr::Field(base, field) => match expr_type(lw, *base, sc) {
            Some(bt) => field_type(lw, bt, field@),
            None => None,
        },
        Expr::Call(callee, _) => match *callee {
            Expr::Var(f) => match decls::fn_named(lw.m, f@) {
                Some(d) => syntax::opt_stype_view(d.ret),
                None => None,
            },
            _ => None,
        },
        Expr::Struct { path, fields } => Some(STypeView::Named(text::strings_view(path@))),
        Expr::Index(base, _) => match expr_type(lw, *base, sc) {
            Some(bt) => element_type(bt),
            None => None,
        },
        Expr::Unary(op, operand) => match op {
            UnOp::Neg => expr_type(lw, *operand, sc),
            UnOp::Not => Some(surface::named_view("bool"@)),
            UnOp::Ref => match expr_type(lw, *operand, sc) {
                Some(t) => Some(STypeView::Ref { mutable: false, inner: Box::new(t) }),
                None => None,
            },
            UnOp::RefMut => match expr_type(lw, *operand, sc) {
                Some(t) => Some(STypeView::Ref { mutable: true, inner: Box::new(t) }),
                None => None,
            },
        },
        _ => None,
    }
}

/// The type of a field of a struct of this module.
pub open spec fn field_type(lw: LowererView, base: STypeView, field: Seq<char>) -> Option<STypeView> {
    match surface::struct_name_view(base) {
        Some(s) => match decls::struct_named(lw.m, s) {
            Some(d) => match field_index(d.fields@, field) {
                Some(i) => Some(d.fields@[i].ty@),
                None => None,
            },
            None => None,
        },
        None => None,
    }
}

/// The surface type of an argument: as [`expr_type`], and for literals the type
/// they have by default.
pub open spec fn arg_type(lw: LowererView, e: Expr, sc: ScopeView) -> Option<STypeView> {
    match expr_type(lw, e, sc) {
        Some(t) => Some(t),
        None => match e {
            Expr::Int(_) => Some(surface::named_view("i32"@)),
            Expr::Bool(_) => Some(surface::named_view("bool"@)),
            Expr::Char(_) => Some(surface::named_view("char"@)),
            Expr::Str(_) => Some(surface::named_view("str"@)),
            Expr::Unit => Some(STypeView::Unit),
            _ => None,
        },
    }
}

/// The struct and the field index of a projection from a base of a known type.
pub open spec fn projection(
    lw: LowererView,
    bt: Option<STypeView>,
    field: Seq<char>,
) -> Result<(Seq<char>, int), LowerErrorView> {
    let unresolved = Err(LowerErrorView::UnresolvedProjection { field });
    match bt {
        None => unresolved,
        Some(t) => match surface::struct_name_view(t) {
            None => unresolved,
            Some(s) => match decls::struct_named(lw.m, s) {
                None => unresolved,
                Some(d) => match field_index(d.fields@, field) {
                    Some(i) => Ok((s, i)),
                    None => Err(LowerErrorView::UnknownField { ty: s, field }),
                },
            },
        },
    }
}

// ---- references ----------------------------------------------------------------------------------

/// A value name under its module if this module declares or imports it.
pub open spec fn value_qual(lw: LowererView, name: Seq<char>) -> Seq<char> {
    if decls::is_local_item(lw.m, name) {
        decls::path_view(lw.m) + "."@ + name
    } else {
        import_qual(lw, name)
    }
}

pub open spec fn is_foreign_fn(ms: Seq<Module>, name: Seq<char>) -> spec_fn(int, int) -> bool {
    |m: int, i: int|
        match ms[m].items@[i] {
            Item::Fn(f) => f.body is None && (f.name@ == name || decls::path_view(ms[m]) + "."@ + f.name@
                == name),
            _ => false,
        }
}

/// Whether a name denotes a foreign function.
pub open spec fn foreign(ms: Seq<Module>, name: Seq<char>) -> bool {
    decls::last_item(is_foreign_fn(ms, name), decls::item_count(ms), ms.len() as int) is Some
}

/// A reference to a definition by name. A foreign function may be referred to
/// where that is allowed only.
pub open spec fn global_ref(lw: LowererView, sc: ScopeView, name: Seq<char>) -> Result<
    AtomView,
    LowerErrorView,
> {
    let q = value_qual(lw, name);
    if !sc.unsafe_ok && foreign(lw.ms, q) {
        Err(LowerErrorView::UnsafeFfiOutsideUnsafe { name: q })
    } else {
        Ok(AtomView::Global(hash::symbol_id(q)))
    }
}

pub open spec fn satisfies_bound(
    lw: LowererView,
    iface: Seq<char>,
    name: Seq<char>,
) -> spec_fn(int) -> bool {
    |i: int|
        lw.inst->0[i].bound == Some(iface) && decls::impl_method(
            lw.ms,
            iface,
            lw.inst->0[i].key,
            name,
        ) is Some
}

/// Inside an instance, the implementation that an interface method denotes.
#[verifier::opaque]
pub open spec fn dispatch(lw: LowererView, name: Seq<char>) -> Option<AtomView> {
    match lw.inst {
        None => None,
        Some(args) => match decls::method_iface(lw.ms, name) {
            None => None,
            Some(iface) => match find::first_from(
                satisfies_bound(lw, iface, name),
                0,
                args.len() as int,
            ) {
                None => None,
                Some(i) => Some(
                    AtomView::Global(
                        hash::symbol_id(decls::impl_method(lw.ms, iface, args[i].key, name)->0),
                    ),
                ),
            },
        },
    }
}

/// The bindings that the first `n` arguments give the generic names of a
/// function; none where the type of an argument is not known.
pub open spec fn solve(
    lw: LowererView,
    params: Seq<Param>,
    args: Seq<Expr>,
    n: nat,
    generics: Seq<Seq<char>>,
    sc: ScopeView,
) -> Option<Seq<(Seq<char>, STypeView)>>
    decreases n,
{
    if n == 0 {
        Some(Seq::empty())
    } else {
        match solve(lw, params, args, (n - 1) as nat, generics, sc) {
            None => None,
            Some(m) => match arg_type(lw, args[n - 1], sc) {
                None => None,
                Some(at) => Some(surface::unify_view(params[n - 1].ty@, at, generics, m)),
            },
        }
    }
}

/// The interface that a parameter is bounded by.
pub open spec fn bound_of(g: Generic) -> Option<Seq<char>> {
    match g.bound {
        Some(b) => Some(decls::last_segment(text::strings_view(b.path@))),
        None => None,
    }
}

/// The first `n` solved parameters; none where one is not solved.
pub open spec fn solved_args(
    m: Seq<(Seq<char>, STypeView)>,
    generics: Seq<Generic>,
    n: nat,
) -> Option<Seq<ArgView>>
    decreases n,
{
    if n == 0 {
        Some(Seq::empty())
    } else {
        match solved_args(m, generics, (n - 1) as nat) {
            None => None,
            Some(v) => match surface::bound_type(m, generics[n - 1].name@) {
                None => None,
                Some(t) => Some(
                    v.push(
                        ArgView {
                            param: generics[n - 1].name@,
                            ty: t,
                            key: surface::type_key_view(t),
                            bound: bound_of(generics[n - 1]),
                        },
                    ),
                ),
            },
        }
    }
}

/// The spellings of an instance's arguments.
pub open spec fn arg_keys(v: Seq<ArgView>) -> Seq<Seq<char>> {
    Seq::new(v.len(), |i: int| v[i].key)
}

/// The instance of a generic function for these arguments, and the requests with
/// that instance among them.
pub open spec fn instance_s(
    lw: LowererView,
    name: Seq<char>,
    gm: int,
    gi: int,
    v: Seq<ArgView>,
    pend: PendView,
) -> (AtomView, PendView) {
    let instance = name + "@"@ + text::join_view(arg_keys(v), ","@);
    let path = decls::path_view(lw.ms[gm]);
    (
        AtomView::Global(hash::symbol_id(decls::member_view(path, instance))),
        scope::ask(
            pend,
            path + "::"@ + instance,
            ReqView {
                generic: name,
                at: ItemRef { module: gm as usize, item: gi as usize },
                instance,
                args: v,
            },
        ),
    )
}

/// A call of a generic function: the instance it denotes, and the requests with
/// that instance among them. None if the name is not generic or its parameters
/// cannot be solved.
#[verifier::opaque]
pub open spec fn generic_call(
    lw: LowererView,
    name: Seq<char>,
    args: Seq<Expr>,
    sc: ScopeView,
    pend: PendView,
) -> Option<(AtomView, PendView)> {
    match decls::generic_named(lw.ms, name) {
        None => None,
        Some((gm, gi)) => match decls::fn_at(lw.ms, gm, gi) {
            None => None,
            Some(f) => if f.params@.len() != args.len() {
                None
            } else {
                match solve(lw, f.params@, args, args.len(), surface::generic_names_view(f.generics@), sc) {
                    None => None,
                    Some(m) => match solved_args(m, f.generics@, f.generics@.len()) {
                        None => None,
                        Some(v) => Some(instance_s(lw, name, gm, gi, v, pend)),
                    },
                }
            },
        },
    }
}

/// A call of a function of the iterator protocol, for an iterator of such elements:
/// the instance it denotes, and the requests with that instance among them. None if
/// the standard library has no such function.
#[verifier::opaque]
pub open spec fn iterator_call(
    lw: LowererView,
    name: Seq<char>,
    elem: STypeView,
    pend: PendView,
) -> Option<(AtomView, PendView)> {
    match decls::generic_named(lw.ms, name) {
        None => None,
        Some((gm, gi)) => match decls::fn_at(lw.ms, gm, gi) {
            None => None,
            Some(f) => if decls::path_view(lw.ms[gm]) != "std.iter"@ || f.generics@.len() == 0 {
                None
            } else {
                match solved_args(
                    seq![(f.generics@[0].name@, elem)],
                    f.generics@,
                    f.generics@.len(),
                ) {
                    None => None,
                    Some(v) => Some(instance_s(lw, name, gm, gi, v, pend)),
                }
            },
        },
    }
}

/// The name of an enum that is imported but not part of the modules at hand.
pub open spec fn missing_enum(lw: LowererView, name: Seq<char>) -> Option<Seq<char>> {
    if decls::enum_qualified_view(lw.ms, name) is Some {
        None
    } else {
        decls::import_of(lw.m, name)
    }
}

impl<'a> Lowerer<'a> {
    /// A named type with its arguments.
    pub fn lower_named(&self, path: &Vec<String>, args: Vec<Type>) -> (r: Type)
        ensures
            r@ == named_type(self@, text::strings_view(path@), ir::types_view(args@)),
    {
        reveal(named_type);
        broadcast use ir::lemma_types_view;

        if path.len() == 1 {
            assert(text::strings_view(path@)[0] == path@[0]@);
            if args.len() == 0 {
                if let Some(t) = builtin_type(path[0].as_str()) {
                    return t;
                }
            }
            let q = self.qualify_type(path[0].as_str());
            Type::Nominal { def: symbol_hash(q.as_str()), args }
        } else {
            Type::Nominal { def: symbol_hash(join(path, ".").as_str()), args }
        }
    }

    fn lower_bare(&self, path: &Vec<String>) -> (r: Type)
        ensures
            r@ == named_type(self@, text::strings_view(path@), Seq::empty()),
    {
        let none: Vec<Type> = Vec::new();
        assert(ir::types_view(none@) =~= Seq::empty());
        self.lower_named(path, none)
    }

    fn lower_unbound(&self, path: &Vec<String>, generics: &Vec<String>) -> (r: Type)
        ensures
            r@ == unbound_s(self@, text::strings_view(path@), text::strings_view(generics@)),
    {
        if path.len() == 1 {
            assert(text::strings_view(path@)[0] == path@[0]@);
            if let Some(i) = position(generics, path[0].as_str()) {
                return Type::Var(i as u32);
            }
        }
        self.lower_bare(path)
    }

    fn lower_path(&self, path: &Vec<String>, generics: &Vec<String>, fuel: usize) -> (r: Type)
        ensures
            r@ == path_s(
                self@,
                text::strings_view(path@),
                text::strings_view(generics@),
                fuel as nat,
            ),
        decreases fuel, 0nat, path@,
    {
        if path.len() == 1 {
            assert(text::strings_view(path@)[0] == path@[0]@);
            if fuel > 0 {
                if let Some(c) = get_bound(&self.subst, path[0].as_str()) {
                    return self.lower_type_fuel(c, generics, fuel - 1);
                }
            }
        }
        self.lower_unbound(path, generics)
    }

    fn lower_type_fuel(&self, t: &SType, generics: &Vec<String>, fuel: usize) -> (r: Type)
        ensures
            r@ == type_s(self@, t@, text::strings_view(generics@), fuel as nat),
        decreases fuel, 1nat, t,
    {
        match t {
            SType::Unit => Type::Unit,
            SType::Named(path) => self.lower_path(path, generics, fuel),
            SType::Generic { path, args } => {
                let lowered = self.lower_types_fuel(args, generics, fuel);
                assert(syntax::stypes_view(args@).len() == args@.len());
                self.lower_named(path, lowered)
            },
            SType::Slice(inner) => Type::Slice(
                Box::new(self.lower_type_fuel(inner, generics, fuel)),
            ),
            SType::Array { len, elem } => Type::Array(
                Box::new(self.lower_type_fuel(elem, generics, fuel)),
                *len,
            ),
            SType::Ref { mutable, inner } => Type::Ref {
                mutable: *mutable,
                of: Box::new(self.lower_type_fuel(inner, generics, fuel)),
            },
            SType::ErrorUnion(o) => {
                let success = match o {
                    Some(e) => self.lower_type_fuel(e, generics, fuel),
                    None => Type::Unit,
                };
                nominal_pair("Result", success, error_union_marker())
            },
            SType::Optional(inner) => {
                let x = self.lower_type_fuel(inner, generics, fuel);
                nominal_of("Option", x)
            },
        }
    }

    fn lower_types_fuel(&self, v: &Vec<SType>, generics: &Vec<String>, fuel: usize) -> (r: Vec<Type>)
        ensures
            ir::types_view(r@) == types_s(
                self@,
                syntax::stypes_view(v@),
                v@.len(),
                text::strings_view(generics@),
                fuel as nat,
            ),
        decreases fuel, 1nat, v@,
    {
        broadcast use syntax::lemma_stypes_view;
        broadcast use ir::lemma_types_view;

        let mut out: Vec<Type> = Vec::new();
        let mut i: usize = 0;
        assert(ir::types_view(out@) =~= Seq::empty());
        while i < v.len()
            invariant
                i <= v@.len(),
                ir::types_view(out@) == types_s(
                    self@,
                    syntax::stypes_view(v@),
                    i as nat,
                    text::strings_view(generics@),
                    fuel as nat,
                ),
            decreases v@.len() - i,
        {
            let t = self.lower_type_fuel(&v[i], generics, fuel);
            let ghost before = out@;
            out.push(t);
            assert(syntax::stypes_view(v@)[i as int] == v@[i as int]@);
            assert(ir::types_view(out@) =~= ir::types_view(before).push(t@));
            i = i + 1;
        }
        out
    }

    /// The Core type of a surface type.
    pub fn lower_type(&self, t: &SType, generics: &Vec<String>) -> (r: Type)
        ensures
            r@ == ty_s(self@, t@, text::strings_view(generics@)),
    {
        self.lower_type_fuel(t, generics, self.subst.len())
    }

    /// The surface type of an expression, as far as it is known.
    pub fn type_of_expr(&self, e: &Expr, sc: &Scope) -> (r: Option<SType>)
        ensures
            syntax::opt_stype_view(r) == expr_type(self@, *e, sc@),
        decreases e,
    {
        match e {
            Expr::Var(name) => match sc.find(name.as_str()) {
                Some(b) => clone_opt_stype(&b.ty),
                None => None,
            },
            Expr::Field(base, field) => {
                match self.type_of_expr(base, sc) {
                    Some(bt) => self.type_of_field(&bt, field.as_str()),
                    None => None,
                }
            },
            Expr::Call(callee, _) => match &**callee {
                Expr::Var(f) => match find_fn(self.m, f.as_str()) {
                    Some(d) => clone_opt_stype(&d.ret),
                    None => None,
                },
                _ => None,
            },
            Expr::Struct { path, fields: _ } => Some(SType::Named(clone_strings(path))),
            Expr::Index(base, _) => {
                match self.type_of_expr(base, sc) {
                    Some(bt) => type_of_element(&bt),
                    None => None,
                }
            },
            Expr::Unary(op, operand) => match op {
                UnOp::Neg => self.type_of_expr(operand, sc),
                UnOp::Not => Some(named("bool")),
                UnOp::Ref => match self.type_of_expr(operand, sc) {
                    Some(t) => Some(SType::Ref { mutable: false, inner: Box::new(t) }),
                    None => None,
                },
                UnOp::RefMut => match self.type_of_expr(operand, sc) {
                    Some(t) => Some(SType::Ref { mutable: true, inner: Box::new(t) }),
                    None => None,
                },
            },
            _ => None,
        }
    }

    pub fn type_of_field(&self, base: &SType, field: &str) -> (r: Option<SType>)
        ensures
            syntax::opt_stype_view(r) == field_type(self@, base@, field@),
    {
        match struct_name(base) {
            Some(s) => match find_struct(self.m, s.as_str()) {
                Some(d) => match field_position(&d.fields, field) {
                    Some(i) => Some(d.fields[i].ty.clone()),
                    None => None,
                },
                None => None,
            },
            None => None,
        }
    }

    /// The surface type of an argument, with the default types of literals.
    pub fn infer_type(&self, e: &Expr, sc: &Scope) -> (r: Option<SType>)
        ensures
            syntax::opt_stype_view(r) == arg_type(self@, *e, sc@),
    {
        match self.type_of_expr(e, sc) {
            Some(t) => Some(t),
            None => match e {
                Expr::Int(_) => Some(named("i32")),
                Expr::Bool(_) => Some(named("bool")),
                Expr::Char(_) => Some(named("char")),
                Expr::Str(_) => Some(named("str")),
                Expr::Unit => Some(SType::Unit),
                _ => None,
            },
        }
    }

    /// The struct and the field index of a projection.
    pub fn resolve_projection(&self, bt: &Option<SType>, field: &str) -> (r: Result<
        (String, usize),
        LowerError,
    >)
        ensures
            match projection(self@, syntax::opt_stype_view(*bt), field@) {
                Ok((s, i)) => {
                    &&& r is Ok
                    &&& r->Ok_0.0@ == s
                    &&& r->Ok_0.1 == i
                    &&& decls::struct_named(*self.m, s) is Some
                    &&& 0 <= i < decls::struct_named(*self.m, s)->0.fields@.len()
                },
                Err(e) => r is Err && r->Err_0@ == e,
            },
    {
        let t = match bt {
            Some(t) => t,
            None => {
                return Err(LowerError::UnresolvedProjection { field: field.to_owned() });
            },
        };
        let s = match struct_name(t) {
            Some(s) => s,
            None => {
                return Err(LowerError::UnresolvedProjection { field: field.to_owned() });
            },
        };
        let d = match find_struct(self.m, s.as_str()) {
            Some(d) => d,
            None => {
                return Err(LowerError::UnresolvedProjection { field: field.to_owned() });
            },
        };
        match field_position(&d.fields, field) {
            Some(i) => Ok((s, i)),
            None => Err(LowerError::UnknownField { ty: s, field: field.to_owned() }),
        }
    }

    /// A name that this module does not declare: under the module that it is
    /// imported from, or as it is.
    fn qualify_import(&self, name: &str) -> (r: String)
        ensures
            r@ == import_qual(self@, name@),
    {
        match find_import(self.m, name) {
            Some(p) => dotted(p.as_str(), name),
            None => name.to_owned(),
        }
    }

    /// A value name under its module if this module declares or imports it.
    pub fn qualify_value(&self, name: &str) -> (r: String)
        ensures
            r@ == value_qual(self@, name@),
    {
        if has_local_item(self.m, name) {
            dotted(path_of(self.m).as_str(), name)
        } else {
            self.qualify_import(name)
        }
    }

    /// A reference to a definition by name.
    pub fn global(&self, sc: &Scope, name: &str) -> (r: Result<Atom, LowerError>)
        ensures
            match global_ref(self@, sc@, name@) {
                Ok(a) => r is Ok && r->Ok_0@ == a,
                Err(e) => r is Err && r->Err_0@ == e,
            },
    {
        let q = self.qualify_value(name);
        if !sc.unsafe_ok && is_foreign(self.ms, q.as_str()) {
            Err(LowerError::UnsafeFfiOutsideUnsafe { name: q })
        } else {
            Ok(Atom::Global(symbol_hash(q.as_str())))
        }
    }

    /// Inside an instance, the implementation that an interface method denotes.
    pub fn spec_dispatch(&self, name: &str) -> (r: Option<Atom>)
        ensures
            match dispatch(self@, name@) {
                Some(a) => r is Some && r->0@ == a,
                None => r is None,
            },
    {
        reveal(dispatch);
        match &self.inst {
            None => None,
            Some(args) => {
                let iface = match find_method_iface(self.ms, name) {
                    Some(i) => i,
                    None => {
                        return None;
                    },
                };
                let ghost lw = self@;
                let ghost p = satisfies_bound(lw, iface@, name@);
                let ghost n = args@.len() as int;
                let mut i: usize = 0;
                while i < args.len()
                    invariant
                        i <= args@.len(),
                        n == args@.len(),
                        lw == self@,
                        lw.ms == decls::modules_of(self.ms@),
                        lw.inst == Some(scope::args_view(args@)),
                        decls::method_iface(lw.ms, name@) == Some(iface@),
                        p == satisfies_bound(lw, iface@, name@),
                        find::first_from(p, 0, n) == find::first_from(p, i as int, n),
                    decreases n - i,
                {
                    assert(lw.inst->0[i as int] == args@[i as int]@);
                    if let Some(b) = &args[i].bound {
                        if str_eq(b.as_str(), iface.as_str()) {
                            if let Some(q) = find_impl_method(
                                self.ms,
                                iface.as_str(),
                                args[i].key.as_str(),
                                name,
                            ) {
                                assert(p(i as int));
                                reveal(dispatch);
                                return Some(Atom::Global(symbol_hash(q.as_str())));
                            }
                        }
                    }
                    assert(!p(i as int));
                    i = i + 1;
                }
                None
            },
        }
    }

    fn solve_params(
        &self,
        params: &Vec<Param>,
        args: &Vec<Expr>,
        generics: &Vec<String>,
        sc: &Scope,
    ) -> (r: Option<Vec<(String, SType)>>)
        requires
            params@.len() == args@.len(),
        ensures
            match solve(self@, params@, args@, args@.len(), text::strings_view(generics@), sc@) {
                Some(m) => r is Some && surface::bindings_view(r->0@) == m,
                None => r is None,
            },
    {
        let ghost n = args@.len();
        let ghost g = text::strings_view(generics@);
        let mut m: Vec<(String, SType)> = Vec::new();
        let mut i: usize = 0;
        assert(surface::bindings_view(m@) =~= Seq::empty());
        while i < args.len()
            invariant
                i <= args@.len(),
                n == args@.len(),
                params@.len() == n,
                g == text::strings_view(generics@),
                solve(self@, params@, args@, i as nat, g, sc@) == Some(surface::bindings_view(m@)),
            decreases n - i,
        {
            match self.infer_type(&args[i], sc) {
                Some(t) => unify(&params[i].ty, &t, generics, &mut m),
                None => {
                    proof {
                        lemma_solve_fails(self@, params@, args@, (i + 1) as nat, n, g, sc@);
                    }
                    return None;
                },
            }
            i = i + 1;
        }
        Some(m)
    }

    /// A call of a generic function: asks for the instance and gives a reference
    /// to it, where the name is generic and its parameters can be solved.
    pub fn resolve_generic_call(
        &self,
        name: &str,
        args: &Vec<Expr>,
        sc: &Scope,
        p: &mut Pending,
    ) -> (r: Option<Atom>)
        ensures
            match generic_call(self@, name@, args@, sc@, old(p)@) {
                Some((a, q)) => r is Some && r->0@ == a && final(p)@ == q,
                None => r is None && final(p)@ == old(p)@,
            },
    {
        reveal(generic_call);
        let at = match find_generic(self.ms, name) {
            Some(at) => at,
            None => {
                return None;
            },
        };
        let f = match get_fn(self.ms, at) {
            Some(f) => f,
            None => {
                return None;
            },
        };
        if f.params.len() != args.len() {
            return None;
        }
        let gnames = generic_names(&f.generics);
        let m = match self.solve_params(&f.params, args, &gnames, sc) {
            Some(m) => m,
            None => {
                return None;
            },
        };
        let solved = match solve_args(&m, &f.generics) {
            Some(v) => v,
            None => {
                return None;
            },
        };
        Some(self.ask_instance(name, at, solved, p))
    }

    fn ask_instance(&self, name: &str, at: ItemRef, solved: Vec<InstArg>, p: &mut Pending) -> (r: Atom)
        requires
            at.module < self.ms@.len(),
        ensures
            (r@, final(p)@) == instance_s(
                self@,
                name@,
                at.module as int,
                at.item as int,
                scope::args_view(solved@),
                old(p)@,
            ),
    {
        let keys = keys_of(&solved);
        let mut instance = name.to_owned();
        instance.append("@");
        instance.append(join(&keys, ",").as_str());
        let path = path_of(self.ms[at.module]);
        let mut id = path.clone();
        id.append("::");
        id.append(instance.as_str());
        let atom = Atom::Global(symbol_hash(qualify_name(path.as_str(), instance.as_str()).as_str()));
        p.ask(id, InstanceReq { generic: name.to_owned(), at, instance, args: solved });
        atom
    }

    /// What an iterator of the standard library yields.
    pub fn type_of_iterated(&self, t: &SType) -> (r: Option<SType>)
        ensures
            syntax::opt_stype_view(r) == iterated(self@, t@),
    {
        let whole = peel_ref_ty(t);
        match whole {
            SType::Generic { path, args } => {
                proof {
                    syntax::lemma_stypes_view(args@);
                }
                assert(whole@ == STypeView::Generic {
                    path: text::strings_view(path@),
                    args: syntax::stypes_view(args@),
                });
                if args.len() != 1 {
                    return None;
                }
                let q = self.denoted_name(path);
                if str_eq(q.as_str(), "std.iter.IndexIter") {
                    Some(args[0].clone())
                } else {
                    None
                }
            },
            _ => None,
        }
    }

    fn denoted_name(&self, path: &Vec<String>) -> (r: String)
        ensures
            r@ == denoted(self@, text::strings_view(path@)),
    {
        if path.len() == 1 {
            assert(text::strings_view(path@)[0] == path@[0]@);
            self.qualify_type(path[0].as_str())
        } else {
            join(path, ".")
        }
    }

    fn qualify_type(&self, name: &str) -> (r: String)
        ensures
            r@ == type_qual(self@, name@),
    {
        if find_struct(self.m, name).is_some() {
            dotted(path_of(self.m).as_str(), name)
        } else {
            match enum_qualified(self.ms, name) {
                Some(q) => q,
                None => self.qualify_import(name),
            }
        }
    }

    /// A call of a function of the iterator protocol: asks for the instance and gives
    /// a reference to it.
    pub fn resolve_iterator_call(&self, name: &str, elem: SType, p: &mut Pending) -> (r: Option<Atom>)
        ensures
            match iterator_call(self@, name@, elem@, old(p)@) {
                Some((a, q)) => r is Some && r->0@ == a && final(p)@ == q,
                None => r is None && final(p)@ == old(p)@,
            },
    {
        reveal(iterator_call);
        let at = match find_generic(self.ms, name) {
            Some(at) => at,
            None => {
                return None;
            },
        };
        let f = match get_fn(self.ms, at) {
            Some(f) => f,
            None => {
                return None;
            },
        };
        if !str_eq(path_of(self.ms[at.module]).as_str(), "std.iter") || f.generics.len() == 0 {
            return None;
        }
        let ghost want = seq![(f.generics@[0].name@, elem@)];
        let mut m: Vec<(String, SType)> = Vec::new();
        m.push((f.generics[0].name.clone(), elem));
        assert(surface::bindings_view(m@) =~= want);
        match solve_args(&m, &f.generics) {
            Some(v) => Some(self.ask_instance(name, at, v, p)),
            None => None,
        }
    }

    /// The module of an enum that is imported but not part of the modules at hand.
    pub fn find_missing_enum(&self, name: &str) -> (r: Option<String>)
        ensures
            match missing_enum(self@, name@) {
                Some(s) => r is Some && r->0@ == s,
                None => r is None,
            },
    {
        if enum_qualified(self.ms, name).is_some() {
            None
        } else {
            find_import(self.m, name)
        }
    }
}

proof fn lemma_solve_fails(
    lw: LowererView,
    params: Seq<Param>,
    args: Seq<Expr>,
    i: nat,
    n: nat,
    generics: Seq<Seq<char>>,
    sc: ScopeView,
)
    requires
        i <= n,
        solve(lw, params, args, i, generics, sc) is None,
    ensures
        solve(lw, params, args, n, generics, sc) is None,
    decreases n - i,
{
    if i < n {
        assert(solve(lw, params, args, (i + 1) as nat, generics, sc) is None);
        lemma_solve_fails(lw, params, args, i + 1, n, generics, sc);
    }
}

proof fn lemma_solved_fails(m: Seq<(Seq<char>, STypeView)>, generics: Seq<Generic>, i: nat, n: nat)
    requires
        i <= n,
        solved_args(m, generics, i) is None,
    ensures
        solved_args(m, generics, n) is None,
    decreases n - i,
{
    if i < n {
        assert(solved_args(m, generics, (i + 1) as nat) is None);
        lemma_solved_fails(m, generics, i + 1, n);
    }
}

/// A nominal type with one argument.
fn nominal_of(name: &str, x: Type) -> (r: Type)
    ensures
        r@ == (TypeView::Nominal { def: hash::symbol_id(name@), args: seq![x@] }),
{
    broadcast use ir::lemma_types_view;

    let mut args: Vec<Type> = Vec::new();
    args.push(x);
    assert(ir::types_view(args@) =~= seq![x@]);
    Type::Nominal { def: symbol_hash(name), args }
}

/// A nominal type with two arguments.
pub fn nominal_pair(name: &str, x: Type, y: Type) -> (r: Type)
    ensures
        r@ == (TypeView::Nominal { def: hash::symbol_id(name@), args: seq![x@, y@] }),
{
    broadcast use ir::lemma_types_view;

    let mut args: Vec<Type> = Vec::new();
    args.push(x);
    args.push(y);
    assert(ir::types_view(args@) =~= seq![x@, y@]);
    Type::Nominal { def: symbol_hash(name), args }
}

/// A nominal type without arguments.
fn nominal_alone(name: &str) -> (r: Type)
    ensures
        r@ == (TypeView::Nominal { def: hash::symbol_id(name@), args: Seq::empty() }),
{
    let none: Vec<Type> = Vec::new();
    assert(ir::types_view(none@) =~= Seq::empty());
    Type::Nominal { def: symbol_hash(name), args: none }
}

/// The marker for the inferred error set of `!T`.
pub fn error_union_marker() -> (r: Type)
    ensures
        r@ == error_marker(),
{
    nominal_alone("@error-union")
}

pub fn type_of_element(t: &SType) -> (r: Option<SType>)
    ensures
        syntax::opt_stype_view(r) == element_type(t@),
{
    match peel_ref_ty(t) {
        SType::Slice(inner) => Some((**inner).clone()),
        SType::Array { len: _, elem } => Some((**elem).clone()),
        _ => None,
    }
}

/// The position of the field of that name.
pub fn field_position(fields: &Vec<Field>, name: &str) -> (r: Option<usize>)
    ensures
        match field_index(fields@, name@) {
            Some(i) => r is Some && r->0 == i && 0 <= i < fields@.len(),
            None => r is None,
        },
{
    let ghost p = is_field_named(fields@, name@);
    let ghost n = fields@.len() as int;
    let mut i: usize = 0;
    while i < fields.len()
        invariant
            i <= fields@.len(),
            n == fields@.len(),
            p == is_field_named(fields@, name@),
            find::first_from(p, 0, n) == find::first_from(p, i as int, n),
        decreases n - i,
    {
        let hit = str_eq(fields[i].name.as_str(), name);
        assert(hit == p(i as int));
        if hit {
            return Some(i);
        }
        i = i + 1;
    }
    None
}

/// Whether a name denotes a foreign function.
pub fn is_foreign(ms: &Vec<&Module>, name: &str) -> (r: bool)
    ensures
        r == foreign(decls::modules_of(ms@), name@),
{
    let ghost all = decls::modules_of(ms@);
    let ghost p = is_foreign_fn(all, name@);
    let ghost count = decls::item_count(all);
    let mut m: usize = ms.len();
    while m > 0
        invariant
            m <= ms@.len(),
            all == decls::modules_of(ms@),
            p == is_foreign_fn(all, name@),
            count == decls::item_count(all),
            decls::last_item(p, count, all.len() as int) == decls::last_item(p, count, m as int),
        decreases m,
    {
        let ghost q = |i: int| p(m - 1, i);
        let ghost len = count(m - 1);
        let mut i: usize = ms[m - 1].items.len();
        while i > 0
            invariant
                0 < m <= ms@.len(),
                all == decls::modules_of(ms@),
                p == is_foreign_fn(all, name@),
                count == decls::item_count(all),
                len == count(m - 1),
                i <= len,
                q == (|i: int| p(m - 1, i)),
                decls::last_item(p, count, all.len() as int) == decls::last_item(p, count, m as int),
                find::last_below(q, len) == find::last_below(q, i as int),
            decreases i,
        {
            if let Item::Fn(f) = &ms[m - 1].items[i - 1] {
                if f.body.is_none() && (str_eq(f.name.as_str(), name) || str_eq(
                    dotted(path_of(ms[m - 1]).as_str(), f.name.as_str()).as_str(),
                    name,
                )) {
                    assert(q(i - 1));
                    return true;
                }
            }
            assert(!q(i - 1));
            i = i - 1;
        }
        m = m - 1;
    }
    false
}

fn solve_args(m: &Vec<(String, SType)>, generics: &Vec<Generic>) -> (r: Option<Vec<InstArg>>)
    ensures
        match solved_args(surface::bindings_view(m@), generics@, generics@.len()) {
            Some(v) => r is Some && scope::args_view(r->0@) == v,
            None => r is None,
        },
{
    let ghost n = generics@.len();
    let mut out: Vec<InstArg> = Vec::new();
    let mut i: usize = 0;
    assert(scope::args_view(out@) =~= Seq::empty());
    while i < generics.len()
        invariant
            i <= generics@.len(),
            n == generics@.len(),
            solved_args(surface::bindings_view(m@), generics@, i as nat) == Some(scope::args_view(out@)),
        decreases n - i,
    {
        match get_bound(m, generics[i].name.as_str()) {
            Some(t) => {
                let ty = t.clone();
                let key = type_key(&ty);
                let bound = match &generics[i].bound {
                    Some(b) => Some(last_of(&b.path)),
                    None => None,
                };
                let a = InstArg { param: generics[i].name.clone(), ty, key, bound };
                let ghost before = out@;
                out.push(a);
                assert(scope::args_view(out@) =~= scope::args_view(before).push(a@));
            },
            None => {
                proof {
                    lemma_solved_fails(surface::bindings_view(m@), generics@, (i + 1) as nat, n);
                }
                return None;
            },
        }
        i = i + 1;
    }
    Some(out)
}

fn keys_of(v: &Vec<InstArg>) -> (r: Vec<String>)
    ensures
        text::strings_view(r@) == arg_keys(scope::args_view(v@)),
{
    let mut out: Vec<String> = Vec::new();
    let mut i: usize = 0;
    while i < v.len()
        invariant
            i <= v@.len(),
            out@.len() == i,
            forall|k: int| 0 <= k < i ==> #[trigger] out@[k]@ == v@[k].key@,
        decreases v@.len() - i,
    {
        out.push(v[i].key.clone());
        i = i + 1;
    }
    assert(text::strings_view(out@) =~= arg_keys(scope::args_view(v@)));
    out
}

} // verus!
