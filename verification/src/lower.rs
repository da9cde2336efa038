//! Modules lowered to Core.
//!
//! Each definition is lowered by itself and identified by its content hash.
//! Generic functions are kept in generic form; for each distinct use at concrete
//! types an instance is added to the module that declares the function.
use vstd::prelude::*;

use crate::blocks;
use crate::blocks::{Goal, GoalView, declare_in};
use crate::contract;
use crate::contract::{Names, NamesView, lower_clauses};
use crate::copies::clone_types;
use crate::decls;
use crate::decls::{EnumReg, get_fn, impl_method_name, last_of, path_of, qualify_name};
use crate::find;
use crate::hash;
use crate::indices;
use crate::indices::to_indices;
use crate::ir;
use crate::ir::{Atom, AtomView, Core, CoreView, Def, DefKind, DefView, EffectRow, EffectView, Type, TypeView};
use crate::lower_error::{LowerError, LowerErrorView};
use crate::resolve;
use crate::scope;
use crate::scope::{ArgView, InstArg, InstanceReq, Lowerer, LowererView, PendView, Pending, ReqView, Scope, ScopeView};
use crate::surface;
use crate::surface::{generic_names, subst_surface, type_key_args};
use crate::syntax::{EnumDecl, ErrorDecl, Field, FnDecl, ImplDecl, InterfaceDecl, Item, Module, Param, SType, STypeView, StructDecl};
use crate::text;
use crate::text::{clone_strings, str_eq};

verus! {

// ---- results ---------------------------------------------------------------------------------

/// One variant of a lowered enum: its name and the types of its fields.
#[derive(Debug, PartialEq, Eq)]
pub struct VariantInfo {
    pub name: String,
    pub fields: Vec<Type>,
}

/// The mathematical counterpart of [`VariantInfo`].
#[verifier::ext_equal]
pub struct VariantView {
    pub name: Seq<char>,
    pub fields: Seq<TypeView>,
}

impl View for VariantInfo {
    type V = VariantView;

    open spec fn view(&self) -> VariantView {
        VariantView { name: self.name@, fields: ir::types_view(self.fields@) }
    }
}

pub open spec fn variants_view(v: Seq<VariantInfo>) -> Seq<VariantView> {
    Seq::new(v.len(), |i: int| v[i]@)
}

/// A lowered definition with its content hash. The name is not part of its
/// identity.
#[derive(Debug, PartialEq, Eq)]
pub struct DefEntry {
    pub name: String,
    pub def: Def,
    pub hash: crate::ir::Hash,
    /// For an enum or an error type, its variants in tag order.
    pub enum_variants: Option<Vec<VariantInfo>>,
}

/// The mathematical counterpart of [`DefEntry`].
#[verifier::ext_equal]
pub struct EntryView {
    pub name: Seq<char>,
    pub def: DefView,
    pub hash: Seq<u8>,
    pub enum_variants: Option<Seq<VariantView>>,
}

pub open spec fn opt_variants_view(v: Option<Vec<VariantInfo>>) -> Option<Seq<VariantView>> {
    match v {
        Some(v) => Some(variants_view(v@)),
        None => None,
    }
}

impl View for DefEntry {
    type V = EntryView;

    open spec fn view(&self) -> EntryView {
        EntryView {
            name: self.name@,
            def: self.def@,
            hash: self.hash@,
            enum_variants: opt_variants_view(self.enum_variants),
        }
    }
}

pub open spec fn entries_view(v: Seq<DefEntry>) -> Seq<EntryView> {
    Seq::new(v.len(), |i: int| v[i]@)
}

/// A method of an interface: its name and its Core signature.
#[derive(Debug, PartialEq, Eq)]
pub struct InterfaceMethod {
    pub name: String,
    pub params: Vec<Type>,
    pub ret: Type,
}

/// The mathematical counterpart of [`InterfaceMethod`].
#[verifier::ext_equal]
pub struct MethodView {
    pub name: Seq<char>,
    pub params: Seq<TypeView>,
    pub ret: TypeView,
}

impl View for InterfaceMethod {
    type V = MethodView;

    open spec fn view(&self) -> MethodView {
        MethodView { name: self.name@, params: ir::types_view(self.params@), ret: self.ret@ }
    }
}

pub open spec fn methods_view(v: Seq<InterfaceMethod>) -> Seq<MethodView> {
    Seq::new(v.len(), |i: int| v[i]@)
}

/// An interface that a module declares.
#[derive(Debug, PartialEq, Eq)]
pub struct InterfaceInfo {
    pub name: String,
    /// The names of its methods, in declaration order.
    pub methods: Vec<String>,
    pub is_capability: bool,
    pub method_sigs: Vec<InterfaceMethod>,
}

/// The mathematical counterpart of [`InterfaceInfo`].
#[verifier::ext_equal]
pub struct IfaceView {
    pub name: Seq<char>,
    pub methods: Seq<Seq<char>>,
    pub is_capability: bool,
    pub method_sigs: Seq<MethodView>,
}

impl View for InterfaceInfo {
    type V = IfaceView;

    open spec fn view(&self) -> IfaceView {
        IfaceView {
            name: self.name@,
            methods: text::strings_view(self.methods@),
            is_capability: self.is_capability,
            method_sigs: methods_view(self.method_sigs@),
        }
    }
}

pub open spec fn ifaces_view(v: Seq<InterfaceInfo>) -> Seq<IfaceView> {
    Seq::new(v.len(), |i: int| v[i]@)
}

/// An implementation of an interface for a concrete type.
#[derive(Debug, PartialEq, Eq)]
pub struct ImplInfo {
    pub interface: String,
    /// The canonical spelling of the type.
    pub type_key: String,
    /// Each method with the qualified name of the definition that implements it.
    pub methods: Vec<(String, String)>,
}

/// The mathematical counterpart of [`ImplInfo`].
#[verifier::ext_equal]
pub struct ImplView {
    pub interface: Seq<char>,
    pub type_key: Seq<char>,
    pub methods: Seq<(Seq<char>, Seq<char>)>,
}

pub open spec fn pairs_view(v: Seq<(String, String)>) -> Seq<(Seq<char>, Seq<char>)> {
    Seq::new(v.len(), |i: int| (v[i].0@, v[i].1@))
}

impl View for ImplInfo {
    type V = ImplView;

    open spec fn view(&self) -> ImplView {
        ImplView {
            interface: self.interface@,
            type_key: self.type_key@,
            methods: pairs_view(self.methods@),
        }
    }
}

pub open spec fn impls_view(v: Seq<ImplInfo>) -> Seq<ImplView> {
    Seq::new(v.len(), |i: int| v[i]@)
}

/// One solved type parameter of an instance.
#[derive(Debug, PartialEq, Eq)]
pub struct TypeArg {
    pub param: String,
    pub type_key: String,
    /// The interface that the parameter is bounded by.
    pub bound: Option<String>,
}

/// The mathematical counterpart of [`TypeArg`].
#[verifier::ext_equal]
pub struct TypeArgView {
    pub param: Seq<char>,
    pub type_key: Seq<char>,
    pub bound: Option<Seq<char>>,
}

impl View for TypeArg {
    type V = TypeArgView;

    open spec fn view(&self) -> TypeArgView {
        TypeArgView {
            param: self.param@,
            type_key: self.type_key@,
            bound: scope::opt_string_view(self.bound),
        }
    }
}

pub open spec fn type_args_view(v: Seq<TypeArg>) -> Seq<TypeArgView> {
    Seq::new(v.len(), |i: int| v[i]@)
}

/// An instance of a generic function.
#[derive(Debug, PartialEq, Eq)]
pub struct Instantiation {
    pub generic: String,
    pub instance: String,
    /// One entry for each type parameter, in order.
    pub args: Vec<TypeArg>,
}

/// The mathematical counterpart of [`Instantiation`].
#[verifier::ext_equal]
pub struct InstantiationView {
    pub generic: Seq<char>,
    pub instance: Seq<char>,
    pub args: Seq<TypeArgView>,
}

impl View for Instantiation {
    type V = InstantiationView;

    open spec fn view(&self) -> InstantiationView {
        InstantiationView {
            generic: self.generic@,
            instance: self.instance@,
            args: type_args_view(self.args@),
        }
    }
}

pub open spec fn instances_view(v: Seq<Instantiation>) -> Seq<InstantiationView> {
    Seq::new(v.len(), |i: int| v[i]@)
}

/// A lowered module: its definitions in source order, then its instances.
#[derive(Debug, PartialEq, Eq)]
pub struct LoweredModule {
    pub module: Vec<String>,
    pub defs: Vec<DefEntry>,
    pub interfaces: Vec<InterfaceInfo>,
    pub impls: Vec<ImplInfo>,
    pub instantiations: Vec<Instantiation>,
}

/// The mathematical counterpart of [`LoweredModule`].
#[verifier::ext_equal]
pub struct LoweredView {
    pub module: Seq<Seq<char>>,
    pub defs: Seq<EntryView>,
    pub interfaces: Seq<IfaceView>,
    pub impls: Seq<ImplView>,
    pub instantiations: Seq<InstantiationView>,
}

impl View for LoweredModule {
    type V = LoweredView;

    open spec fn view(&self) -> LoweredView {
        LoweredView {
            module: text::strings_view(self.module@),
            defs: entries_view(self.defs@),
            interfaces: ifaces_view(self.interfaces@),
            impls: impls_view(self.impls@),
            instantiations: instances_view(self.instantiations@),
        }
    }
}

/// The counterpart of a list of lowered modules, member by member.
pub open spec fn lowered_view(v: Seq<LoweredModule>) -> Seq<LoweredView> {
    Seq::new(v.len(), |i: int| v[i]@)
}

// ---- functions --------------------------------------------------------------------------------------

/// The Core types of the parameters; a function without any takes a unit.
pub open spec fn param_types(lw: LowererView, f: FnDecl) -> Seq<TypeView> {
    if f.params@.len() == 0 {
        seq![TypeView::Unit]
    } else {
        Seq::new(
            f.params@.len(),
            |i: int| resolve::ty_s(lw, f.params@[i].ty@, surface::generic_names_view(f.generics@)),
        )
    }
}

/// The scope of a function's body: the first `n` parameters.
pub open spec fn param_scope(lw: LowererView, f: FnDecl, n: nat) -> ScopeView
    decreases n,
{
    if n == 0 {
        ScopeView { binds: Seq::empty(), unsafe_ok: f.is_unsafe }
    } else {
        blocks::declare(
            param_scope(lw, f, (n - 1) as nat),
            f.params@[n - 1].name@,
            AtomView::Var(((n - 1) as usize) as u32),
            Some(surface::subst_view(lw.subst, f.params@[n - 1].ty@, lw.subst.len())),
            false,
        )
    }
}

/// Functions of the first `n` parameters, one inside the other.
pub open spec fn lams(v: Seq<TypeView>, n: nat, body: CoreView) -> CoreView
    decreases n,
{
    if n == 0 {
        body
    } else {
        lams(
            v,
            (n - 1) as nat,
            CoreView::Lam { param: v[n - 1], effects: EffectView::pure(), body: Box::new(body) },
        )
    }
}

/// Function types of the first `n` parameters, one inside the other.
pub open spec fn arrows(v: Seq<TypeView>, n: nat, ret: TypeView) -> TypeView
    decreases n,
{
    if n == 0 {
        ret
    } else {
        arrows(
            v,
            (n - 1) as nat,
            TypeView::Arrow {
                param: Box::new(v[n - 1]),
                ret: Box::new(ret),
                effects: EffectView::pure(),
            },
        )
    }
}

/// The names of parameters.
pub open spec fn param_names(v: Seq<Param>) -> Seq<Seq<char>> {
    Seq::new(v.len(), |i: int| v[i].name@)
}

/// The Core type that a function returns.
pub open spec fn ret_type(lw: LowererView, f: FnDecl) -> TypeView {
    match f.ret {
        Some(t) => resolve::ty_s(lw, t@, surface::generic_names_view(f.generics@)),
        None => TypeView::Unit,
    }
}

/// The body of a function, with indices.
pub open spec fn fn_body_s(lw: LowererView, f: FnDecl, pend: PendView) -> Result<
    (Option<CoreView>, PendView),
    LowerErrorView,
> {
    match f.body {
        None => Ok((None, pend)),
        Some(b) => {
            let tys = param_types(lw, f);
            match blocks::block_s(
                lw,
                b,
                GoalView::Value,
                param_scope(lw, f, f.params@.len()),
                (tys.len() as usize) as u32,
                pend,
            ) {
                Ok((c, pend1)) => Ok((Some(indices::core_index(lams(tys, tys.len(), c), 0)), pend1)),
                Err(x) => Err(x),
            }
        },
    }
}

/// A function definition.
pub open spec fn fn_s(lw: LowererView, f: FnDecl, pend: PendView) -> Result<
    (DefView, PendView),
    LowerErrorView,
> {
    match fn_body_s(lw, f, pend) {
        Ok((body, pend1)) => match contract::clauses_s(
            f.pre@,
            f.pre@.len(),
            NamesView::Flat { params: param_names(f.params@), with_result: false },
        ) {
            Ok(pre) => match contract::clauses_s(
                f.post@,
                f.post@.len(),
                NamesView::Flat { params: param_names(f.params@), with_result: true },
            ) {
                Ok(post) => {
                    let tys = param_types(lw, f);
                    Ok(
                        (
                            DefView {
                                kind: DefKind::Fn,
                                ty: arrows(tys, tys.len(), ret_type(lw, f)),
                                pre,
                                post,
                                body,
                            },
                            pend1,
                        ),
                    )
                },
                Err(x) => Err(x),
            },
            Err(x) => Err(x),
        },
        Err(x) => Err(x),
    }
}

// ---- types ---------------------------------------------------------------------------------------------

/// A definition that is a type only.
pub open spec fn type_def(kind: DefKind, ty: TypeView) -> DefView {
    DefView { kind, ty, pre: Seq::empty(), post: Seq::empty(), body: None }
}

/// The types of fields.
pub open spec fn field_types(lw: LowererView, v: Seq<Field>, generics: Seq<Seq<char>>) -> Seq<TypeView> {
    Seq::new(v.len(), |i: int| resolve::ty_s(lw, v[i].ty@, generics))
}

/// The types of a list of surface types.
pub open spec fn plain_types(lw: LowererView, v: Seq<SType>, generics: Seq<Seq<char>>) -> Seq<
    TypeView,
> {
    Seq::new(v.len(), |i: int| resolve::ty_s(lw, v[i]@, generics))
}

/// A struct is the tuple of its field types.
pub open spec fn struct_def(lw: LowererView, s: StructDecl) -> DefView {
    let prod = TypeView::Tuple(field_types(lw, s.fields@, surface::generic_names_view(s.generics@)));
    type_def(
        DefKind::Struct,
        if s.linear {
            TypeView::Linear(Box::new(prod))
        } else {
            prod
        },
    )
}

/// The variants of an enum.
pub open spec fn enum_info(lw: LowererView, e: EnumDecl) -> Seq<VariantView> {
    Seq::new(
        e.variants@.len(),
        |i: int|
            VariantView {
                name: e.variants@[i].name@,
                fields: plain_types(lw, e.variants@[i].fields@, surface::generic_names_view(e.generics@)),
            },
    )
}

/// The variants of an error type, all without fields.
pub open spec fn error_info(e: ErrorDecl) -> Seq<VariantView> {
    Seq::new(
        e.variants@.len(),
        |i: int| VariantView { name: e.variants@[i]@, fields: Seq::empty() },
    )
}

/// A sum type is the tuple of its variants' field tuples.
pub open spec fn sum_def(kind: DefKind, v: Seq<VariantView>) -> DefView {
    type_def(kind, TypeView::Tuple(Seq::new(v.len(), |i: int| TypeView::Tuple(v[i].fields))))
}

/// The signatures of an interface's methods.
pub open spec fn sig_views(lw: LowererView, d: InterfaceDecl) -> Seq<MethodView> {
    Seq::new(
        d.methods@.len(),
        |i: int|
            MethodView {
                name: d.methods@[i].name@,
                params: Seq::new(
                    d.methods@[i].params@.len(),
                    |k: int|
                        resolve::ty_s(lw, d.methods@[i].params@[k].ty@, surface::generic_names_view(d.generics@)),
                ),
                ret: match d.methods@[i].ret {
                    Some(t) => resolve::ty_s(lw, t@, surface::generic_names_view(d.generics@)),
                    None => TypeView::Unit,
                },
            },
    )
}

/// What is kept of an interface.
pub open spec fn iface_info(lw: LowererView, d: InterfaceDecl) -> IfaceView {
    IfaceView {
        name: d.name@,
        methods: Seq::new(d.methods@.len(), |i: int| d.methods@[i].name@),
        is_capability: d.is_capability,
        method_sigs: sig_views(lw, d),
    }
}

// ---- modules -----------------------------------------------------------------------------------------------

/// An entry for a definition.
pub open spec fn entry_of(name: Seq<char>, def: DefView, v: Option<Seq<VariantView>>) -> EntryView {
    EntryView { name, def, hash: hash::content_id(def), enum_variants: v }
}

/// A lowered module with one more definition.
pub open spec fn with_def(l: LoweredView, e: EntryView) -> LoweredView {
    LoweredView { defs: l.defs.push(e), ..l }
}

/// The first `n` methods of an implementation.
pub open spec fn impl_s(lw: LowererView, imp: ImplDecl, n: nat, l: LoweredView, pend: PendView) -> Result<
    (LoweredView, Seq<(Seq<char>, Seq<char>)>, PendView),
    LowerErrorView,
>
    decreases n,
{
    if n == 0 {
        Ok((l, Seq::empty(), pend))
    } else {
        match impl_s(lw, imp, (n - 1) as nat, l, pend) {
            Ok((l1, names, pend1)) => {
                let f = imp.methods@[n - 1];
                let name = decls::mangled(f.name@, decls::impl_iface(imp), decls::impl_key(imp));
                match fn_s(lw, f, pend1) {
                    Ok((def, pend2)) => Ok(
                        (
                            with_def(l1, entry_of(name, def, None)),
                            names.push((f.name@, decls::member_view(decls::path_view(lw.m), name))),
                            pend2,
                        ),
                    ),
                    Err(x) => Err(x),
                }
            },
            Err(x) => Err(x),
        }
    }
}

/// One item.
pub open spec fn item_lower_s(lw: LowererView, it: Item, l: LoweredView, pend: PendView) -> Result<
    (LoweredView, PendView),
    LowerErrorView,
> {
    match it {
        Item::Fn(f) => match fn_s(lw, f, pend) {
            Ok((def, pend1)) => Ok((with_def(l, entry_of(f.name@, def, None)), pend1)),
            Err(x) => Err(x),
        },
        Item::Struct(s) => Ok((with_def(l, entry_of(s.name@, struct_def(lw, s), None)), pend)),
        Item::Enum(e) => Ok(
            (
                with_def(
                    l,
                    entry_of(
                        e.name@,
                        sum_def(DefKind::Enum, enum_info(lw, e)),
                        Some(enum_info(lw, e)),
                    ),
                ),
                pend,
            ),
        ),
        Item::Error(e) => Ok(
            (
                with_def(
                    l,
                    entry_of(
                        e.name@,
                        sum_def(DefKind::Error, error_info(e)),
                        Some(error_info(e)),
                    ),
                ),
                pend,
            ),
        ),
        Item::Interface(d) => Ok(
            (
                LoweredView {
                    interfaces: l.interfaces.push(iface_info(lw, d)),
                    ..with_def(
                        l,
                        entry_of(d.name@, type_def(DefKind::Interface, TypeView::Unit), None),
                    )
                },
                pend,
            ),
        ),
        Item::Impl(imp) => match impl_s(lw, imp, imp.methods@.len(), l, pend) {
            Ok((l1, names, pend1)) => Ok(
                (
                    LoweredView {
                        impls: l1.impls.push(
                            ImplView {
                                interface: decls::impl_iface(imp),
                                type_key: decls::impl_key(imp),
                                methods: names,
                            },
                        ),
                        ..l1
                    },
                    pend1,
                ),
            ),
            Err(x) => Err(x),
        },
    }
}

/// A module before its items are lowered.
pub open spec fn blank(m: Module) -> LoweredView {
    LoweredView {
        module: text::strings_view(m.name@),
        defs: Seq::empty(),
        interfaces: Seq::empty(),
        impls: Seq::empty(),
        instantiations: Seq::empty(),
    }
}

/// The first `n` items of a module.
pub open spec fn base_s(lw: LowererView, n: nat, pend: PendView) -> Result<
    (LoweredView, PendView),
    LowerErrorView,
>
    decreases n,
{
    if n == 0 {
        Ok((blank(lw.m), pend))
    } else {
        match base_s(lw, (n - 1) as nat, pend) {
            Ok((l, pend1)) => item_lower_s(lw, lw.m.items@[n - 1], l, pend1),
            Err(x) => Err(x),
        }
    }
}

/// The state of lowering a module of a set, outside of any instance.
pub open spec fn plain(ms: Seq<Module>, i: int) -> LowererView {
    LowererView {
        ms,
        m: ms[i],
        reg: decls::reg_modules(ms, ms.len()),
        subst: Seq::empty(),
        inst: None,
    }
}

/// The first `n` modules.
pub open spec fn bases_s(ms: Seq<Module>, n: nat) -> Result<
    (Seq<LoweredView>, PendView),
    LowerErrorView,
>
    decreases n,
{
    if n == 0 {
        Ok((Seq::empty(), PendView { queue: Seq::empty(), seen: Seq::empty() }))
    } else {
        match bases_s(ms, (n - 1) as nat) {
            Ok((out, pend)) => {
                let lw = plain(ms, n - 1);
                match base_s(lw, lw.m.items@.len(), pend) {
                    Ok((l, pend1)) => Ok((out.push(l), pend1)),
                    Err(x) => Err(x),
                }
            },
            Err(x) => Err(x),
        }
    }
}

// ---- instances ------------------------------------------------------------------------------------------------

/// The bindings of an instance's parameters.
pub open spec fn subst_of(v: Seq<ArgView>) -> Seq<(Seq<char>, STypeView)> {
    Seq::new(v.len(), |i: int| (v[i].param, v[i].ty))
}

/// What is kept of an instance.
pub open spec fn instance_info(r: ReqView) -> InstantiationView {
    InstantiationView {
        generic: r.generic,
        instance: r.instance,
        args: Seq::new(
            r.args.len(),
            |i: int|
                TypeArgView {
                    param: r.args[i].param,
                    type_key: r.args[i].key,
                    bound: r.args[i].bound,
                },
        ),
    }
}

pub open spec fn has_name(v: Seq<LoweredView>, name: Seq<Seq<char>>) -> spec_fn(int) -> bool {
    |i: int| v[i].module == name
}

/// The state of lowering an instance.
pub open spec fn instance_lowerer(ms: Seq<Module>, r: ReqView) -> LowererView {
    LowererView {
        subst: subst_of(r.args),
        inst: Some(r.args),
        ..plain(ms, r.at.module as int)
    }
}

/// One instance, added to the module that declares the function.
pub open spec fn instance_s(ms: Seq<Module>, out: Seq<LoweredView>, r: ReqView, pend: PendView) -> Result<
    (Seq<LoweredView>, PendView),
    LowerErrorView,
> {
    match decls::fn_at(ms, r.at.module as int, r.at.item as int) {
        None => Ok((out, pend)),
        Some(f) => match fn_s(instance_lowerer(ms, r), f, pend) {
            Err(x) => Err(x),
            Ok((def, pend1)) => match find::first_from(
                has_name(out, text::strings_view(ms[r.at.module as int].name@)),
                0,
                out.len() as int,
            ) {
                None => Ok((out, pend1)),
                Some(i) => Ok(
                    (
                        out.update(
                            i,
                            LoweredView {
                                instantiations: out[i].instantiations.push(instance_info(r)),
                                ..with_def(out[i], entry_of(r.instance, def, None))
                            },
                        ),
                        pend1,
                    ),
                ),
            },
        },
    }
}

/// All instances that are asked for, the latest request first, and those that
/// they ask for in turn; at most `fuel` of them.
pub open spec fn instances_s(
    ms: Seq<Module>,
    out: Seq<LoweredView>,
    pend: PendView,
    fuel: nat,
) -> Result<Seq<LoweredView>, LowerErrorView>
    decreases fuel,
{
    if pend.queue.len() == 0 {
        Ok(out)
    } else if fuel == 0 {
        Err(LowerErrorView::InstanceLimit)
    } else {
        match instance_s(
            ms,
            out,
            pend.queue.last(),
            PendView { queue: pend.queue.drop_last(), ..pend },
        ) {
            Ok((out1, pend1)) => instances_s(ms, out1, pend1, (fuel - 1) as nat),
            Err(x) => Err(x),
        }
    }
}

/// The modules of a set, lowered.
pub open spec fn lower_s(ms: Seq<Module>) -> Result<Seq<LoweredView>, LowerErrorView> {
    match bases_s(ms, ms.len()) {
        Ok((out, pend)) => instances_s(ms, out, pend, u64::MAX as nat),
        Err(x) => Err(x),
    }
}

// ---- lowering -----------------------------------------------------------------------------------------------

/// What lowering a definition did: `want`.
pub open spec fn did_def(
    r: Result<Def, LowerError>,
    p: Pending,
    want: Result<(DefView, PendView), LowerErrorView>,
) -> bool {
    match want {
        Ok((d, pend)) => r is Ok && r->Ok_0@ == d && p@ == pend,
        Err(e) => r is Err && r->Err_0@ == e,
    }
}

/// What lowering an item did: `want`.
pub open spec fn did_item(
    r: Result<(), LowerError>,
    l: LoweredModule,
    p: Pending,
    want: Result<(LoweredView, PendView), LowerErrorView>,
) -> bool {
    match want {
        Ok((l1, pend)) => r is Ok && l@ == l1 && p@ == pend,
        Err(e) => r is Err && r->Err_0@ == e,
    }
}

fn curry(tys: &Vec<Type>, body: Core) -> (r: Core)
    ensures
        r@ == lams(ir::types_view(tys@), tys@.len(), body@),
{
    broadcast use ir::lemma_types_view;

    let ghost v = ir::types_view(tys@);
    let ghost want = lams(v, tys@.len(), body@);
    let mut out = body;
    let mut n: usize = tys.len();
    while n > 0
        invariant
            n <= tys@.len(),
            v == ir::types_view(tys@),
            v.len() == tys@.len(),
            forall|i: int| 0 <= i < v.len() ==> #[trigger] v[i] == tys@[i]@,
            lams(v, n as nat, out@) == want,
        decreases n,
    {
        out = Core::Lam {
            param: tys[n - 1].clone(),
            effects: EffectRow::empty(),
            body: Box::new(out),
        };
        n = n - 1;
    }
    out
}

fn curry_type(tys: &Vec<Type>, ret: Type) -> (r: Type)
    ensures
        r@ == arrows(ir::types_view(tys@), tys@.len(), ret@),
{
    broadcast use ir::lemma_types_view;

    let ghost v = ir::types_view(tys@);
    let ghost want = arrows(v, tys@.len(), ret@);
    let mut out = ret;
    let mut n: usize = tys.len();
    while n > 0
        invariant
            n <= tys@.len(),
            v == ir::types_view(tys@),
            v.len() == tys@.len(),
            forall|i: int| 0 <= i < v.len() ==> #[trigger] v[i] == tys@[i]@,
            arrows(v, n as nat, out@) == want,
        decreases n,
    {
        out = Type::Arrow {
            param: Box::new(tys[n - 1].clone()),
            ret: Box::new(out),
            effects: EffectRow::empty(),
        };
        n = n - 1;
    }
    out
}

fn names_of(v: &Vec<Param>) -> (r: Vec<String>)
    ensures
        text::strings_view(r@) == param_names(v@),
{
    let mut out: Vec<String> = Vec::new();
    let mut i: usize = 0;
    while i < v.len()
        invariant
            i <= v@.len(),
            out@.len() == i,
            forall|k: int| 0 <= k < i ==> #[trigger] out@[k]@ == v@[k].name@,
        decreases v@.len() - i,
    {
        out.push(v[i].name.clone());
        i = i + 1;
    }
    assert(text::strings_view(out@) =~= param_names(v@));
    out
}

fn type_only(kind: DefKind, ty: Type) -> (r: Def)
    ensures
        r@ == type_def(kind, ty@),
{
    let r = Def { kind, ty, pre: Vec::new(), post: Vec::new(), body: None };
    assert(r@.pre =~= Seq::empty());
    assert(r@.post =~= Seq::empty());
    r
}

fn sum_of(kind: DefKind, v: &Vec<VariantInfo>) -> (r: Def)
    ensures
        r@ == sum_def(kind, variants_view(v@)),
{
    broadcast use ir::lemma_types_view;

    let mut tys: Vec<Type> = Vec::new();
    let mut i: usize = 0;
    while i < v.len()
        invariant
            i <= v@.len(),
            tys@.len() == i,
            forall|k: int|
                0 <= k < i ==> #[trigger] tys@[k]@ == TypeView::Tuple(variants_view(v@)[k].fields),
        decreases v@.len() - i,
    {
        let t = Type::Tuple(clone_types(&v[i].fields));
        assert(t@ == TypeView::Tuple(variants_view(v@)[i as int].fields));
        tys.push(t);
        i = i + 1;
    }
    assert(ir::types_view(tys@) =~= Seq::new(
        variants_view(v@).len(),
        |i: int| TypeView::Tuple(variants_view(v@)[i].fields),
    ));
    type_only(kind, Type::Tuple(tys))
}

fn add_def(l: &mut LoweredModule, name: String, def: Def, v: Option<Vec<VariantInfo>>)
    ensures
        final(l)@ == with_def(old(l)@, entry_of(name@, def@, opt_variants_view(v))),
{
    let hash = def.content_hash();
    let e = DefEntry { name, def, hash, enum_variants: v };
    l.defs.push(e);
    assert(l@.defs =~= old(l)@.defs.push(e@));
}

impl<'a> Lowerer<'a> {
    fn lower_params(&self, v: &Vec<Param>, generics: &Vec<String>) -> (r: Vec<Type>)
        ensures
            ir::types_view(r@) == Seq::new(
                v@.len(),
                |i: int| resolve::ty_s(self@, v@[i].ty@, text::strings_view(generics@)),
            ),
    {
        broadcast use ir::lemma_types_view;

        let mut out: Vec<Type> = Vec::new();
        let mut i: usize = 0;
        while i < v.len()
            invariant
                i <= v@.len(),
                out@.len() == i,
                forall|k: int|
                    0 <= k < i ==> #[trigger] out@[k]@ == resolve::ty_s(
                        self@,
                        v@[k].ty@,
                        text::strings_view(generics@),
                    ),
            decreases v@.len() - i,
        {
            let t = self.lower_type(&v[i].ty, generics);
            out.push(t);
            i = i + 1;
        }
        assert(ir::types_view(out@) =~= Seq::new(
            v@.len(),
            |i: int| resolve::ty_s(self@, v@[i].ty@, text::strings_view(generics@)),
        ));
        out
    }

    fn types_of_params(&self, f: &FnDecl) -> (r: Vec<Type>)
        ensures
            ir::types_view(r@) == param_types(self@, *f),
    {
        if f.params.len() == 0 {
            let mut tys: Vec<Type> = Vec::new();
            tys.push(Type::Unit);
            assert(ir::types_view(tys@) =~= seq![TypeView::Unit]) by {
                broadcast use ir::lemma_types_view;

            }
            tys
        } else {
            let generics = generic_names(&f.generics);
            let tys = self.lower_params(&f.params, &generics);
            assert(ir::types_view(tys@) =~= param_types(self@, *f));
            tys
        }
    }

    fn scope_of_params(&self, f: &FnDecl) -> (r: Scope)
        ensures
            r@ == param_scope(self@, *f, f.params@.len()),
    {
        let mut sc = Scope { binds: Vec::new(), unsafe_ok: f.is_unsafe };
        let mut i: usize = 0;
        assert(sc@.binds =~= Seq::empty());
        while i < f.params.len()
            invariant
                i <= f.params@.len(),
                sc@ == param_scope(self@, *f, i as nat),
            decreases f.params@.len() - i,
        {
            let ty = subst_surface(&self.subst, &f.params[i].ty, self.subst.len());
            declare_in(
                &mut sc,
                f.params[i].name.clone(),
                Atom::Var(i as u32),
                Some(ty),
                false,
            );
            i = i + 1;
        }
        sc
    }

    /// Lower a function.
    pub fn lower_fn(&self, f: &FnDecl, p: &mut Pending) -> (r: Result<Def, LowerError>)
        ensures
            did_def(r, *final(p), fn_s(self@, *f, old(p)@)),
    {
        let tys = self.types_of_params(f);
        assert(ir::types_view(tys@).len() == tys@.len()) by {
            broadcast use ir::lemma_types_view;

        }
        let body = match &f.body {
            None => None,
            Some(blk) => {
                let sc = self.scope_of_params(f);
                let c = match self.lower_block(blk, &Goal::Value, &sc, tys.len() as u32, p) {
                    Ok(v) => v,
                    Err(e) => {
                        return Err(e);
                    },
                };
                Some(to_indices(&curry(&tys, c), 0))
            },
        };
        let generics = generic_names(&f.generics);
        let ret = match &f.ret {
            Some(t) => self.lower_type(t, &generics),
            None => Type::Unit,
        };
        let names = names_of(&f.params);
        let pre = match lower_clauses(&f.pre, &Names::Flat { params: &names, with_result: false }) {
            Ok(v) => v,
            Err(e) => {
                return Err(e);
            },
        };
        let post = match lower_clauses(&f.post, &Names::Flat { params: &names, with_result: true }) {
            Ok(v) => v,
            Err(e) => {
                return Err(e);
            },
        };
        Ok(Def { kind: DefKind::Fn, ty: curry_type(&tys, ret), pre, post, body })
    }

    /// Lower a struct.
    pub fn lower_struct(&self, s: &StructDecl) -> (r: Def)
        ensures
            r@ == struct_def(self@, *s),
    {
        broadcast use ir::lemma_types_view;

        let generics = generic_names(&s.generics);
        let mut tys: Vec<Type> = Vec::new();
        let mut i: usize = 0;
        while i < s.fields.len()
            invariant
                i <= s.fields@.len(),
                tys@.len() == i,
                forall|k: int|
                    0 <= k < i ==> #[trigger] tys@[k]@ == resolve::ty_s(
                        self@,
                        s.fields@[k].ty@,
                        text::strings_view(generics@),
                    ),
            decreases s.fields@.len() - i,
        {
            let t = self.lower_type(&s.fields[i].ty, &generics);
            tys.push(t);
            i = i + 1;
        }
        assert(ir::types_view(tys@) =~= field_types(
            self@,
            s.fields@,
            surface::generic_names_view(s.generics@),
        ));
        let prod = Type::Tuple(tys);
        let ghost p = prod@;
        assert(p == TypeView::Tuple(
            field_types(self@, s.fields@, surface::generic_names_view(s.generics@)),
        ));
        let ty = if s.linear {
            let t = Type::Linear(Box::new(prod));
            assert(t@ == TypeView::Linear(Box::new(p)));
            t
        } else {
            prod
        };
        type_only(DefKind::Struct, ty)
    }

    fn lower_plain(&self, v: &Vec<SType>, generics: &Vec<String>) -> (r: Vec<Type>)
        ensures
            ir::types_view(r@) == plain_types(self@, v@, text::strings_view(generics@)),
    {
        broadcast use ir::lemma_types_view;

        let mut out: Vec<Type> = Vec::new();
        let mut i: usize = 0;
        while i < v.len()
            invariant
                i <= v@.len(),
                out@.len() == i,
                forall|k: int|
                    0 <= k < i ==> #[trigger] out@[k]@ == resolve::ty_s(
                        self@,
                        v@[k]@,
                        text::strings_view(generics@),
                    ),
            decreases v@.len() - i,
        {
            let t = self.lower_type(&v[i], generics);
            out.push(t);
            i = i + 1;
        }
        assert(ir::types_view(out@) =~= plain_types(self@, v@, text::strings_view(generics@)));
        out
    }

    /// Lower an enum: its definition and its variants.
    pub fn lower_enum(&self, e: &EnumDecl) -> (r: (Def, Vec<VariantInfo>))
        ensures
            r.0@ == sum_def(DefKind::Enum, enum_info(self@, *e)),
            variants_view(r.1@) == enum_info(self@, *e),
    {
        let generics = generic_names(&e.generics);
        let mut info: Vec<VariantInfo> = Vec::new();
        let mut i: usize = 0;
        while i < e.variants.len()
            invariant
                i <= e.variants@.len(),
                info@.len() == i,
                text::strings_view(generics@) == surface::generic_names_view(e.generics@),
                forall|k: int| 0 <= k < i ==> #[trigger] info@[k]@ == enum_info(self@, *e)[k],
            decreases e.variants@.len() - i,
        {
            let fields = self.lower_plain(&e.variants[i].fields, &generics);
            info.push(VariantInfo { name: e.variants[i].name.clone(), fields });
            i = i + 1;
        }
        assert(variants_view(info@) =~= enum_info(self@, *e));
        (sum_of(DefKind::Enum, &info), info)
    }

    fn lower_sigs(&self, d: &InterfaceDecl) -> (r: Vec<InterfaceMethod>)
        ensures
            methods_view(r@) == sig_views(self@, *d),
    {
        let generics = generic_names(&d.generics);
        let mut out: Vec<InterfaceMethod> = Vec::new();
        let mut i: usize = 0;
        while i < d.methods.len()
            invariant
                i <= d.methods@.len(),
                out@.len() == i,
                text::strings_view(generics@) == surface::generic_names_view(d.generics@),
                forall|k: int| 0 <= k < i ==> #[trigger] out@[k]@ == sig_views(self@, *d)[k],
            decreases d.methods@.len() - i,
        {
            let params = self.lower_params(&d.methods[i].params, &generics);
            let ret = match &d.methods[i].ret {
                Some(t) => self.lower_type(t, &generics),
                None => Type::Unit,
            };
            let m = InterfaceMethod { name: d.methods[i].name.clone(), params, ret };
            assert(m@.params =~= sig_views(self@, *d)[i as int].params);
            out.push(m);
            i = i + 1;
        }
        assert(methods_view(out@) =~= sig_views(self@, *d));
        out
    }

    /// What is kept of an interface.
    pub fn lower_interface(&self, d: &InterfaceDecl) -> (r: InterfaceInfo)
        ensures
            r@ == iface_info(self@, *d),
    {
        let mut methods: Vec<String> = Vec::new();
        let mut i: usize = 0;
        while i < d.methods.len()
            invariant
                i <= d.methods@.len(),
                methods@.len() == i,
                forall|k: int| 0 <= k < i ==> #[trigger] methods@[k]@ == d.methods@[k].name@,
            decreases d.methods@.len() - i,
        {
            methods.push(d.methods[i].name.clone());
            i = i + 1;
        }
        assert(text::strings_view(methods@) =~= iface_info(self@, *d).methods);
        InterfaceInfo {
            name: d.name.clone(),
            methods,
            is_capability: d.is_capability,
            method_sigs: self.lower_sigs(d),
        }
    }

    fn lower_impl(&self, imp: &ImplDecl, l: &mut LoweredModule, p: &mut Pending) -> (r: Result<
        Vec<(String, String)>,
        LowerError,
    >)
        ensures
            match impl_s(self@, *imp, imp.methods@.len(), old(l)@, old(p)@) {
                Ok((l1, names, pend)) => r is Ok && pairs_view(r->Ok_0@) == names && final(l)@ == l1
                    && final(p)@ == pend,
                Err(e) => r is Err && r->Err_0@ == e,
            },
    {
        let ghost lw = self@;
        let ghost l0 = l@;
        let ghost p0 = p@;
        let ghost n = imp.methods@.len();
        let iface = last_of(&imp.interface);
        let key = type_key_args(&imp.args);
        let path = path_of(self.m);
        let mut out: Vec<(String, String)> = Vec::new();
        let mut i: usize = 0;
        assert(pairs_view(out@) =~= Seq::empty());
        while i < imp.methods.len()
            invariant
                i <= n,
                n == imp.methods@.len(),
                lw == self@,
                l0 == old(l)@,
                p0 == old(p)@,
                iface@ == decls::impl_iface(*imp),
                key@ == decls::impl_key(*imp),
                path@ == decls::path_view(lw.m),
                impl_s(lw, *imp, i as nat, l0, p0) == Ok::<
                    (LoweredView, Seq<(Seq<char>, Seq<char>)>, PendView),
                    LowerErrorView,
                >((l@, pairs_view(out@), p@)),
            decreases n - i,
        {
            let name = impl_method_name(
                imp.methods[i].name.as_str(),
                iface.as_str(),
                key.as_str(),
            );
            match self.lower_fn(&imp.methods[i], p) {
                Ok(def) => {
                    let full = qualify_name(path.as_str(), name.as_str());
                    let ghost before = out@;
                    let pair = (imp.methods[i].name.clone(), full);
                    out.push(pair);
                    assert(pairs_view(out@) =~= pairs_view(before).push((pair.0@, pair.1@)));
                    add_def(l, name, def, None);
                },
                Err(e) => {
                    proof {
                        lemma_impl_fails(lw, *imp, (i + 1) as nat, n, l0, p0);
                    }
                    return Err(e);
                },
            }
            i = i + 1;
        }
        Ok(out)
    }

    fn lower_item(&self, it: &Item, l: &mut LoweredModule, p: &mut Pending) -> (r: Result<
        (),
        LowerError,
    >)
        ensures
            did_item(r, *final(l), *final(p), item_lower_s(self@, *it, old(l)@, old(p)@)),
    {
        match it {
            Item::Fn(f) => {
                let def = match self.lower_fn(f, p) {
                    Ok(v) => v,
                    Err(e) => {
                        return Err(e);
                    },
                };
                add_def(l, f.name.clone(), def, None);
            },
            Item::Struct(s) => {
                let def = self.lower_struct(s);
                add_def(l, s.name.clone(), def, None);
            },
            Item::Enum(e) => {
                let (def, info) = self.lower_enum(e);
                add_def(l, e.name.clone(), def, Some(info));
            },
            Item::Error(e) => {
                let (def, info) = lower_error(e);
                add_def(l, e.name.clone(), def, Some(info));
            },
            Item::Interface(d) => {
                add_def(l, d.name.clone(), type_only(DefKind::Interface, Type::Unit), None);
                let ghost mid = l@;
                let info = self.lower_interface(d);
                l.interfaces.push(info);
                assert(l@.interfaces =~= mid.interfaces.push(info@));
            },
            Item::Impl(imp) => {
                let methods = match self.lower_impl(imp, l, p) {
                    Ok(v) => v,
                    Err(e) => {
                        return Err(e);
                    },
                };
                let ghost mid = l@;
                let info = ImplInfo {
                    interface: last_of(&imp.interface),
                    type_key: type_key_args(&imp.args),
                    methods,
                };
                l.impls.push(info);
                assert(l@.impls =~= mid.impls.push(info@));
            },
        }
        Ok(())
    }

    /// Lower the items of a module.
    pub fn lower_base(&self, p: &mut Pending) -> (r: Result<LoweredModule, LowerError>)
        ensures
            match base_s(self@, self.m.items@.len(), old(p)@) {
                Ok((l, pend)) => r is Ok && r->Ok_0@ == l && final(p)@ == pend,
                Err(e) => r is Err && r->Err_0@ == e,
            },
    {
        let ghost lw = self@;
        let ghost p0 = p@;
        let ghost n = self.m.items@.len();
        let mut l = LoweredModule {
            module: clone_strings(&self.m.name),
            defs: Vec::new(),
            interfaces: Vec::new(),
            impls: Vec::new(),
            instantiations: Vec::new(),
        };
        assert(l@ =~= blank(lw.m));
        let mut i: usize = 0;
        while i < self.m.items.len()
            invariant
                i <= n,
                n == self.m.items@.len(),
                lw == self@,
                lw.m == *self.m,
                p0 == old(p)@,
                base_s(lw, i as nat, p0) == Ok::<(LoweredView, PendView), LowerErrorView>(
                    (l@, p@),
                ),
            decreases n - i,
        {
            if let Err(e) = self.lower_item(&self.m.items[i], &mut l, p) {
                proof {
                    lemma_base_fails(lw, (i + 1) as nat, n, p0);
                }
                return Err(e);
            }
            i = i + 1;
        }
        Ok(l)
    }
}

proof fn lemma_impl_fails(
    lw: LowererView,
    imp: ImplDecl,
    i: nat,
    n: nat,
    l: LoweredView,
    pend: PendView,
)
    requires
        i <= n,
        impl_s(lw, imp, i, l, pend) is Err,
    ensures
        impl_s(lw, imp, n, l, pend) == impl_s(lw, imp, i, l, pend),
    decreases n - i,
{
    if i < n {
        assert(impl_s(lw, imp, i + 1, l, pend) == impl_s(lw, imp, i, l, pend));
        lemma_impl_fails(lw, imp, i + 1, n, l, pend);
    }
}

proof fn lemma_base_fails(lw: LowererView, i: nat, n: nat, pend: PendView)
    requires
        i <= n,
        base_s(lw, i, pend) is Err,
    ensures
        base_s(lw, n, pend) == base_s(lw, i, pend),
    decreases n - i,
{
    if i < n {
        assert(base_s(lw, i + 1, pend) == base_s(lw, i, pend));
        lemma_base_fails(lw, i + 1, n, pend);
    }
}

proof fn lemma_bases_fail(ms: Seq<Module>, i: nat, n: nat)
    requires
        i <= n,
        bases_s(ms, i) is Err,
    ensures
        bases_s(ms, n) == bases_s(ms, i),
    decreases n - i,
{
    if i < n {
        assert(bases_s(ms, i + 1) == bases_s(ms, i));
        lemma_bases_fail(ms, i + 1, n);
    }
}

/// Lower an error type: its definition and its variants.
pub fn lower_error(e: &ErrorDecl) -> (r: (Def, Vec<VariantInfo>))
    ensures
        r.0@ == sum_def(DefKind::Error, error_info(*e)),
        variants_view(r.1@) == error_info(*e),
{
    let mut info: Vec<VariantInfo> = Vec::new();
    let mut i: usize = 0;
    while i < e.variants.len()
        invariant
            i <= e.variants@.len(),
            info@.len() == i,
            forall|k: int| 0 <= k < i ==> #[trigger] info@[k]@ == error_info(*e)[k],
        decreases e.variants@.len() - i,
    {
        let v = VariantInfo { name: e.variants[i].clone(), fields: Vec::new() };
        assert(v@.fields =~= Seq::empty());
        info.push(v);
        i = i + 1;
    }
    assert(variants_view(info@) =~= error_info(*e));
    (sum_of(DefKind::Error, &info), info)
}

fn lower_bases(ms: &Vec<&Module>, reg: &EnumReg, p: &mut Pending) -> (r: Result<
    Vec<LoweredModule>,
    LowerError,
>)
    requires
        reg@ == decls::reg_modules(decls::modules_of(ms@), ms@.len()),
        old(p)@ == (PendView { queue: Seq::empty(), seen: Seq::empty() }),
    ensures
        match bases_s(decls::modules_of(ms@), ms@.len()) {
            Ok((v, pend)) => r is Ok && lowered_view(r->Ok_0@) == v && final(p)@ == pend,
            Err(e) => r is Err && r->Err_0@ == e,
        },
{
    let ghost all = decls::modules_of(ms@);
    let ghost n = ms@.len();
    let mut out: Vec<LoweredModule> = Vec::new();
    let mut i: usize = 0;
    assert(lowered_view(out@) =~= Seq::empty());
    while i < ms.len()
        invariant
            i <= n,
            n == ms@.len(),
            all == decls::modules_of(ms@),
            reg@ == decls::reg_modules(all, n),
            bases_s(all, i as nat) == Ok::<(Seq<LoweredView>, PendView), LowerErrorView>(
                (lowered_view(out@), p@),
            ),
        decreases n - i,
    {
        let lw = Lowerer { ms, m: ms[i], reg, subst: Vec::new(), inst: None };
        assert(lw@.subst =~= Seq::empty());
        assert(lw@ == plain(all, i as int));
        match lw.lower_base(p) {
            Ok(l) => {
                let ghost before = out@;
                out.push(l);
                assert(lowered_view(out@) =~= lowered_view(before).push(l@));
            },
            Err(e) => {
                proof {
                    lemma_bases_fail(all, (i + 1) as nat, n);
                }
                return Err(e);
            },
        }
        i = i + 1;
    }
    Ok(out)
}

fn bindings_of(v: &Vec<InstArg>) -> (r: Vec<(String, SType)>)
    ensures
        surface::bindings_view(r@) == subst_of(scope::args_view(v@)),
{
    let mut out: Vec<(String, SType)> = Vec::new();
    let mut i: usize = 0;
    while i < v.len()
        invariant
            i <= v@.len(),
            out@.len() == i,
            forall|k: int|
                0 <= k < i ==> #[trigger] out@[k].0@ == v@[k]@.param && out@[k].1@ == v@[k]@.ty,
        decreases v@.len() - i,
    {
        out.push((v[i].param.clone(), v[i].ty.clone()));
        i = i + 1;
    }
    assert(surface::bindings_view(out@) =~= subst_of(scope::args_view(v@)));
    out
}

fn info_of(generic: String, instance: String, v: &Vec<InstArg>, Ghost(r): Ghost<ReqView>) -> (out: Instantiation)
    requires
        r.generic == generic@,
        r.instance == instance@,
        r.args == scope::args_view(v@),
    ensures
        out@ == instance_info(r),
{
    let mut args: Vec<TypeArg> = Vec::new();
    let mut i: usize = 0;
    while i < v.len()
        invariant
            i <= v@.len(),
            args@.len() == i,
            r.args == scope::args_view(v@),
            forall|k: int| 0 <= k < i ==> #[trigger] args@[k]@ == instance_info(r).args[k],
        decreases v@.len() - i,
    {
        let bound = match &v[i].bound {
            Some(b) => Some(b.clone()),
            None => None,
        };
        assert(r.args[i as int] == v@[i as int]@);
        args.push(TypeArg { param: v[i].param.clone(), type_key: v[i].key.clone(), bound });
        i = i + 1;
    }
    assert(type_args_view(args@) =~= instance_info(r).args);
    Instantiation { generic, instance, args }
}

fn same_names(a: &Vec<String>, b: &Vec<String>) -> (r: bool)
    ensures
        r == (text::strings_view(a@) == text::strings_view(b@)),
{
    if a.len() != b.len() {
        assert(text::strings_view(a@).len() != text::strings_view(b@).len());
        return false;
    }
    let mut i: usize = 0;
    while i < a.len()
        invariant
            i <= a@.len(),
            a@.len() == b@.len(),
            forall|k: int| 0 <= k < i ==> #[trigger] a@[k]@ == b@[k]@,
        decreases a@.len() - i,
    {
        if !str_eq(a[i].as_str(), b[i].as_str()) {
            assert(text::strings_view(a@)[i as int] != text::strings_view(b@)[i as int]);
            return false;
        }
        i = i + 1;
    }
    assert(text::strings_view(a@) =~= text::strings_view(b@));
    true
}

fn find_module(v: &Vec<LoweredModule>, name: &Vec<String>) -> (r: Option<usize>)
    ensures
        match find::first_from(
            has_name(lowered_view(v@), text::strings_view(name@)),
            0,
            lowered_view(v@).len() as int,
        ) {
            Some(i) => r is Some && r->0 == i && 0 <= i < v@.len(),
            None => r is None,
        },
{
    let ghost p = has_name(lowered_view(v@), text::strings_view(name@));
    let ghost n = v@.len() as int;
    let mut i: usize = 0;
    while i < v.len()
        invariant
            i <= v@.len(),
            n == v@.len(),
            p == has_name(lowered_view(v@), text::strings_view(name@)),
            find::first_from(p, 0, n) == find::first_from(p, i as int, n),
        decreases n - i,
    {
        assert(lowered_view(v@)[i as int] == v@[i as int]@);
        let hit = same_names(&v[i].module, name);
        assert(hit == p(i as int));
        if hit {
            return Some(i);
        }
        i = i + 1;
    }
    None
}

fn add_instance(v: &mut Vec<LoweredModule>, i: usize, def: Def, name: String, info: Instantiation)
    requires
        i < old(v)@.len(),
    ensures
        lowered_view(final(v)@) == lowered_view(old(v)@).update(
            i as int,
            LoweredView {
                instantiations: old(v)@[i as int]@.instantiations.push(info@),
                ..with_def(old(v)@[i as int]@, entry_of(name@, def@, None))
            },
        ),
{
    let ghost v0 = v@;
    let mut l = v.remove(i);
    let ghost l0 = l@;
    add_def(&mut l, name, def, None);
    l.instantiations.push(info);
    assert(l@.instantiations =~= l0.instantiations.push(info@));
    v.insert(i, l);
    assert(lowered_view(v@) =~= lowered_view(v0).update(i as int, l@));
}

fn lower_instance(
    ms: &Vec<&Module>,
    reg: &EnumReg,
    out: &mut Vec<LoweredModule>,
    r: InstanceReq,
    p: &mut Pending,
) -> (res: Result<(), LowerError>)
    requires
        reg@ == decls::reg_modules(decls::modules_of(ms@), ms@.len()),
    ensures
        match instance_s(decls::modules_of(ms@), lowered_view(old(out)@), r@, old(p)@) {
            Ok((v, pend)) => res is Ok && lowered_view(final(out)@) == v && final(p)@ == pend,
            Err(e) => res is Err && res->Err_0@ == e,
        },
{
    let ghost all = decls::modules_of(ms@);
    let ghost req = r@;
    let f = match get_fn(ms, r.at) {
        Some(f) => f,
        None => {
            return Ok(());
        },
    };
    let m = ms[r.at.module];
    let subst = bindings_of(&r.args);
    let lw = Lowerer { ms, m, reg, subst, inst: Some(r.args) };
    assert(lw@ == instance_lowerer(all, req));
    let def = match lw.lower_fn(f, p) {
        Ok(v) => v,
        Err(e) => {
            return Err(e);
        },
    };
    if let Some(i) = find_module(out, &m.name) {
        let name = r.instance.clone();
        match &lw.inst {
            Some(args) => {
                let info = info_of(r.generic, r.instance, args, Ghost(req));
                assert(lowered_view(out@)[i as int] == out@[i as int]@);
                add_instance(out, i, def, name, info);
            },
            None => {},
        }
    }
    Ok(())
}

fn lower_instances(
    ms: &Vec<&Module>,
    reg: &EnumReg,
    base: Vec<LoweredModule>,
    p: &mut Pending,
    limit: u64,
) -> (r: Result<Vec<LoweredModule>, LowerError>)
    requires
        reg@ == decls::reg_modules(decls::modules_of(ms@), ms@.len()),
    ensures
        match instances_s(decls::modules_of(ms@), lowered_view(base@), old(p)@, limit as nat) {
            Ok(v) => r is Ok && lowered_view(r->Ok_0@) == v,
            Err(e) => r is Err && r->Err_0@ == e,
        },
{
    let ghost all = decls::modules_of(ms@);
    let ghost want = instances_s(all, lowered_view(base@), p@, limit as nat);
    let mut out = base;
    let mut fuel: u64 = limit;
    while p.queue.len() > 0
        invariant
            all == decls::modules_of(ms@),
            reg@ == decls::reg_modules(all, ms@.len()),
            instances_s(all, lowered_view(out@), p@, fuel as nat) == want,
            want == instances_s(all, lowered_view(base@), old(p)@, limit as nat),
        decreases fuel,
    {
        assert(p@.queue.len() == p.queue@.len());
        if fuel == 0 {
            return Err(LowerError::InstanceLimit);
        }
        let ghost before = p@;
        match p.queue.pop() {
            Some(r) => {
                assert(p@.queue =~= before.queue.drop_last());
                assert(before.queue.last() == r@);
                if let Err(e) = lower_instance(ms, reg, &mut out, r, p) {
                    return Err(e);
                }
            },
            None => {},
        }
        fuel = fuel - 1;
    }
    assert(p@.queue.len() == 0);
    Ok(out)
}

fn lower_all(ms: &Vec<&Module>) -> (r: Result<Vec<LoweredModule>, LowerError>)
    ensures
        match lower_s(decls::modules_of(ms@)) {
            Ok(v) => r is Ok && lowered_view(r->Ok_0@) == v,
            Err(e) => r is Err && r->Err_0@ == e,
        },
{
    let reg = EnumReg::from_modules(ms);
    let mut p = Pending::new();
    let base = match lower_bases(ms, &reg, &mut p) {
        Ok(v) => v,
        Err(e) => {
            return Err(e);
        },
    };
    lower_instances(ms, &reg, base, &mut p, u64::MAX)
}

/// Lower modules that share a namespace. Constructors, generic functions and
/// interfaces of each are seen by all; the results stand in the same order.
pub fn lower_modules(ms: &Vec<Module>) -> (r: Result<Vec<LoweredModule>, LowerError>)
    ensures
        match lower_s(ms@) {
            Ok(v) => r is Ok && lowered_view(r->Ok_0@) == v,
            Err(e) => r is Err && r->Err_0@ == e,
        },
{
    let mut refs: Vec<&Module> = Vec::new();
    let mut i: usize = 0;
    while i < ms.len()
        invariant
            i <= ms@.len(),
            refs@.len() == i,
            forall|k: int| 0 <= k < i ==> *(#[trigger] refs@[k]) == ms@[k],
        decreases ms@.len() - i,
    {
        refs.push(&ms[i]);
        i = i + 1;
    }
    assert(decls::modules_of(refs@) =~= ms@);
    lower_all(&refs)
}

/// Lower one module by itself.
pub fn lower_module(m: &Module) -> (r: Result<LoweredModule, LowerError>)
    ensures
        match lower_s(seq![*m]) {
            Ok(v) => r is Ok && v.len() == 1 && r->Ok_0@ == v[0],
            Err(e) => r is Err && r->Err_0@ == e,
        },
{
    let mut refs: Vec<&Module> = Vec::new();
    refs.push(m);
    assert(decls::modules_of(refs@) =~= seq![*m]);
    let mut v = match lower_all(&refs) {
        Ok(v) => v,
        Err(e) => {
            return Err(e);
        },
    };
    proof {
        lemma_lower_len(seq![*m]);
    }
    Ok(v.remove(0))
}

/// As many modules come out as go in, in the same order.
pub proof fn lemma_lower_len(ms: Seq<Module>)
    ensures
        lower_s(ms) matches Ok(v) ==> v.len() == ms.len() && forall|i: int|
            0 <= i < ms.len() ==> (#[trigger] v[i]).module == text::strings_view(ms[i].name@),
{
    lemma_bases_len(ms, ms.len());
    if let Ok((out, pend)) = bases_s(ms, ms.len()) {
        lemma_instances_len(ms, out, pend, u64::MAX as nat);
    }
}

proof fn lemma_impl_name(lw: LowererView, imp: ImplDecl, n: nat, l: LoweredView, pend: PendView)
    ensures
        impl_s(lw, imp, n, l, pend) matches Ok((l1, _, _)) ==> l1.module == l.module,
    decreases n,
{
    if n > 0 {
        lemma_impl_name(lw, imp, (n - 1) as nat, l, pend);
    }
}

proof fn lemma_base_name(lw: LowererView, n: nat, pend: PendView)
    ensures
        base_s(lw, n, pend) matches Ok((l, _)) ==> l.module == text::strings_view(lw.m.name@),
    decreases n,
{
    if n > 0 {
        lemma_base_name(lw, (n - 1) as nat, pend);
        if let Ok((l, pend1)) = base_s(lw, (n - 1) as nat, pend) {
            if let Item::Impl(imp) = lw.m.items@[n - 1] {
                lemma_impl_name(lw, imp, imp.methods@.len(), l, pend1);
            }
        }
    }
}

proof fn lemma_bases_len(ms: Seq<Module>, n: nat)
    ensures
        bases_s(ms, n) matches Ok((v, _)) ==> v.len() == n && forall|i: int|
            0 <= i < n ==> (#[trigger] v[i]).module == text::strings_view(ms[i].name@),
    decreases n,
{
    if n > 0 {
        lemma_bases_len(ms, (n - 1) as nat);
        if let Ok((v, pend)) = bases_s(ms, (n - 1) as nat) {
            let lw = plain(ms, n - 1);
            lemma_base_name(lw, lw.m.items@.len(), pend);
        }
    }
}

proof fn lemma_instances_len(ms: Seq<Module>, out: Seq<LoweredView>, pend: PendView, fuel: nat)
    ensures
        instances_s(ms, out, pend, fuel) matches Ok(v) ==> v.len() == out.len() && forall|i: int|
            0 <= i < out.len() ==> (#[trigger] v[i]).module == out[i].module,
    decreases fuel,
{
    if pend.queue.len() > 0 && fuel > 0 {
        let r = pend.queue.last();
        let rest = PendView { queue: pend.queue.drop_last(), ..pend };
        if let Ok((out1, pend1)) = instance_s(ms, out, r, rest) {
            find::lemma_first_from(
                has_name(out, text::strings_view(ms[r.at.module as int].name@)),
                0,
                out.len() as int,
            );
            assert(out1.len() == out.len());
            assert forall|i: int| 0 <= i < out.len() implies (#[trigger] out1[i]).module
                == out[i].module by {}
            lemma_instances_len(ms, out1, pend1, (fuel - 1) as nat);
        }
    }
}

} // verus!
