//! The WebAssembly backend.
//!
//! A function is called by the hash of its name (or of its content) and exported
//! under its name. A capability has no value at run time: each operation that is
//! performed becomes an import, so the imports of a module are the authority that
//! it asks of its host, and a module that performs nothing imports nothing.
use vstd::prelude::*;
use vstd::string::*;

use crate::find;
use crate::hash;
use crate::hash::symbol_hash;
use crate::hashed;
use crate::hashed::{alias_of, hashed_reachable_mask, is_concrete};
use crate::indices::deeper;
use crate::ir;
use crate::ir::{Branch, BranchView, Core, CoreView, Def, DefView, Type, TypeView};
use crate::reach;
use crate::reach::reachable_mask;
use crate::text;
use crate::text::{push_decimal, str_eq};
use crate::wasm_code;
use crate::wasm_code::{Body, BodyView, Exported, Inst, ModuleDesc, ModuleView, Signature, encode, is_encodable, validate};
use crate::wasm_eval;
use crate::wasm_ops;
use crate::wasm_ops::{cap_name, is_no_slot};
use crate::wasm_trans;
use crate::wasm_trans::{CapImport, CapImportView, Cx, CxView, FnMeta, MetaView, Slot, SlotView, TrSt, Trans, WasmError, WasmErrorView, unsupported};
use crate::world;
use crate::world::{World, WorldView, cap_op, drop_types, push_fields, resolve_cap_def, type_of};

verus! {

// ---- options and results -------------------------------------------------------------------------------

/// Options of a build.
#[derive(Debug, Clone, Copy, PartialEq, Eq, Structural)]
pub struct Options {
    /// Whether positions are tested at run time; a release build leaves it out.
    pub bounds_checks: bool,
}

impl Default for Options {
    fn default() -> (r: Self)
        ensures
            r.bounds_checks,
    {
        Options { bounds_checks: true }
    }
}

/// An exported function and how many words it takes.
#[derive(Debug, PartialEq, Eq)]
pub struct ExportInfo {
    pub name: String,
    pub arity: usize,
}

/// The mathematical counterpart of [`ExportInfo`].
#[verifier::ext_equal]
pub struct ExportView {
    pub name: Seq<char>,
    pub arity: usize,
}

impl View for ExportInfo {
    type V = ExportView;

    open spec fn view(&self) -> ExportView {
        ExportView { name: self.name@, arity: self.arity }
    }
}

pub open spec fn export_infos_view(v: Seq<ExportInfo>) -> Seq<ExportView> {
    Seq::new(v.len(), |i: int| v[i]@)
}

/// A compiled module, with what it asks of its host.
#[derive(Debug, PartialEq, Eq)]
pub struct WasmArtifact {
    pub bytes: Vec<u8>,
    /// In the order of the module's imports.
    pub imports: Vec<CapImport>,
    pub exports: Vec<ExportInfo>,
}

/// The mathematical counterpart of [`WasmArtifact`].
#[verifier::ext_equal]
pub struct ArtifactView {
    pub bytes: Seq<u8>,
    pub imports: Seq<CapImportView>,
    pub exports: Seq<ExportView>,
}

impl View for WasmArtifact {
    type V = ArtifactView;

    open spec fn view(&self) -> ArtifactView {
        ArtifactView {
            bytes: self.bytes@,
            imports: wasm_trans::cap_imports_view(self.imports@),
            exports: export_infos_view(self.exports@),
        }
    }
}

// ---- the functions of a build -----------------------------------------------------------------------------

/// A function of a build: its hash, the name that it is exported under, and its
/// definition.
pub struct Pick<'a> {
    pub hash: crate::ir::Hash,
    pub name: String,
    pub def: &'a Def,
}

/// The mathematical counterpart of [`Pick`].
#[verifier::ext_equal]
pub struct PickView {
    pub hash: Seq<u8>,
    pub name: Seq<char>,
    pub def: DefView,
}

impl<'a> View for Pick<'a> {
    type V = PickView;

    open spec fn view(&self) -> PickView {
        PickView { hash: self.hash@, name: self.name@, def: self.def@ }
    }
}

pub open spec fn picks_view(v: Seq<Pick>) -> Seq<PickView> {
    Seq::new(v.len(), |i: int| v[i]@)
}

/// A name under its module; unchanged in the root module.
pub open spec fn under(path: Seq<char>, name: Seq<char>) -> Seq<char> {
    if path.len() == 0 {
        name
    } else {
        path + "."@ + name
    }
}

/// A name under its module.
pub fn name_under(path: &str, name: &str) -> (r: String)
    ensures
        r@ == under(path@, name@),
{
    if path.unicode_len() == 0 {
        name.to_owned()
    } else {
        let mut s = path.to_owned();
        s.append(".");
        s.append(name);
        s
    }
}

/// Whether a build has definition `i`: all of a module, or what an entry needs.
pub open spec fn wanted(path: Seq<char>, m: Seq<(Seq<char>, DefView)>, entry: Option<Seq<char>>, i: int) -> bool {
    match entry {
        Some(e) => reach::needed(path, m, e, i),
        None => true,
    }
}

/// The functions of a build among the first `n` definitions: generic templates
/// are no functions.
pub open spec fn picked(
    path: Seq<char>,
    m: Seq<(Seq<char>, DefView)>,
    entry: Option<Seq<char>>,
    n: nat,
) -> Seq<PickView>
    decreases n,
{
    if n == 0 {
        Seq::empty()
    } else {
        let rest = picked(path, m, entry, (n - 1) as nat);
        if reach::concrete_fn(m[n - 1].1) && wanted(path, m, entry, n - 1) {
            rest.push(
                PickView {
                    hash: hash::symbol_id(under(path, m[n - 1].0)),
                    name: under(path, m[n - 1].0),
                    def: m[n - 1].1,
                },
            )
        } else {
            rest
        }
    }
}

/// The name that a hash is exported under: its first alias, else its own.
pub open spec fn export_name(a: Seq<(Seq<char>, Seq<u8>)>, h: Seq<u8>, name: Seq<char>) -> Seq<char> {
    match find::first_from(hashed::hash_alias(a, h), 0, a.len() as int) {
        Some(i) => a[i].0,
        None => name,
    }
}

/// The functions of a build among the first `n` definitions of a program whose
/// definitions have hashes.
pub open spec fn hashed_picked(
    m: Seq<(Seq<u8>, Seq<char>, DefView)>,
    a: Seq<(Seq<char>, Seq<u8>)>,
    entry: Seq<char>,
    n: nat,
) -> Seq<PickView>
    decreases n,
{
    if n == 0 {
        Seq::empty()
    } else {
        let rest = hashed_picked(m, a, entry, (n - 1) as nat);
        if reach::concrete_fn(m[n - 1].2) && hashed::hashed_needed(m, a, entry, n - 1) {
            rest.push(
                PickView {
                    hash: m[n - 1].0,
                    name: export_name(a, m[n - 1].0, m[n - 1].1),
                    def: m[n - 1].2,
                },
            )
        } else {
            rest
        }
    }
}

/// The functions of a build.
pub fn pick<'a>(path: &str, defs: &'a [(String, Def)], entry: Option<&str>) -> (r: Vec<Pick<'a>>)
    ensures
        picks_view(r@) == picked(path@, reach::defs_view(defs@), opt_str_view(entry), defs@.len()),
{
    let ghost m = reach::defs_view(defs@);
    let ghost ev = opt_str_view(entry);
    let mask = match entry {
        Some(e) => Some(reachable_mask(path, defs, e)),
        None => None,
    };
    let mut out: Vec<Pick<'a>> = Vec::new();
    let mut i: usize = 0;
    assert(picks_view(out@) =~= Seq::empty());
    while i < defs.len()
        invariant
            i <= defs@.len(),
            m == reach::defs_view(defs@),
            ev == opt_str_view(entry),
            match mask {
                Some(v) => v@.len() == defs@.len() && ev is Some && forall|j: int|
                    0 <= j < defs@.len() ==> #[trigger] v@[j] == reach::needed(path@, m, ev->0, j),
                None => ev is None,
            },
            picks_view(out@) == picked(path@, m, ev, i as nat),
        decreases defs@.len() - i,
    {
        let inside = match &mask {
            Some(v) => v[i],
            None => true,
        };
        if inside && is_concrete(&defs[i].1) {
            let name = name_under(path, defs[i].0.as_str());
            let p = Pick { hash: symbol_hash(name.as_str()), name, def: &defs[i].1 };
            let ghost before = out@;
            let ghost pv = p@;
            out.push(p);
            assert(picks_view(out@) =~= picks_view(before).push(pv));
        }
        i = i + 1;
    }
    out
}

/// The counterpart of a text that may be missing.
pub open spec fn opt_str_view(s: Option<&str>) -> Option<Seq<char>> {
    match s {
        Some(t) => Some(t@),
        None => None,
    }
}

/// The functions of a build of a program whose definitions have hashes.
pub fn hashed_pick<'a>(
    defs: &'a [(crate::ir::Hash, String, Def)],
    aliases: &[(String, crate::ir::Hash)],
    entry: &str,
) -> (r: Vec<Pick<'a>>)
    ensures
        picks_view(r@) == hashed_picked(
            hashed::hashed_view(defs@),
            hashed::aliases_view(aliases@),
            entry@,
            defs@.len(),
        ),
{
    let ghost m = hashed::hashed_view(defs@);
    let ghost a = hashed::aliases_view(aliases@);
    let mask = hashed_reachable_mask(defs, aliases, entry);
    let mut out: Vec<Pick<'a>> = Vec::new();
    let mut i: usize = 0;
    assert(picks_view(out@) =~= Seq::empty());
    while i < defs.len()
        invariant
            i <= defs@.len(),
            m == hashed::hashed_view(defs@),
            a == hashed::aliases_view(aliases@),
            mask@.len() == defs@.len(),
            forall|j: int|
                0 <= j < defs@.len() ==> #[trigger] mask@[j] == hashed::hashed_needed(m, a, entry@, j),
            picks_view(out@) == hashed_picked(m, a, entry@, i as nat),
        decreases defs@.len() - i,
    {
        if mask[i] && is_concrete(&defs[i].2) {
            let name = match alias_of(aliases, &defs[i].0) {
                Some(k) => aliases[k].0.as_str().to_owned(),
                None => defs[i].1.as_str().to_owned(),
            };
            let p = Pick { hash: defs[i].0, name, def: &defs[i].2 };
            let ghost before = out@;
            let ghost pv = p@;
            out.push(p);
            assert(picks_view(out@) =~= picks_view(before).push(pv));
        }
        i = i + 1;
    }
    out
}

// ---- parameters -----------------------------------------------------------------------------------------------

/// The parameter types of a function type.
pub open spec fn params_of(t: TypeView) -> Seq<TypeView>
    decreases t,
{
    match t {
        TypeView::Arrow { param, ret, effects } => seq![*param] + params_of(*ret),
        _ => Seq::empty(),
    }
}

/// How many of the first `n` parameters are words.
pub open spec fn word_count(w: WorldView, v: Seq<TypeView>, n: nat) -> nat
    decreases n,
{
    if n == 0 {
        0
    } else {
        word_count(w, v, (n - 1) as nat) + if wasm_ops::no_slot(w, v[n - 1]) {
            0nat
        } else {
            1nat
        }
    }
}

/// What calls need to know of a function.
pub open spec fn meta_of(w: WorldView, p: PickView) -> MetaView {
    let v = params_of(p.def.ty);
    MetaView { hash: p.hash, arity: v.len() as usize, words: word_count(w, v, v.len()) as usize }
}

pub open spec fn metas_of(w: WorldView, v: Seq<PickView>) -> Seq<MetaView> {
    Seq::new(v.len(), |i: int| meta_of(w, v[i]))
}

/// The parameter types of a function type.
pub fn peel_param_types(t: &Type) -> (r: Vec<Type>)
    ensures
        ir::types_view(r@) == params_of(t@),
{
    broadcast use ir::lemma_types_view;

    let mut out: Vec<Type> = Vec::new();
    let mut at = t;
    assert(ir::types_view(out@) + params_of(t@) =~= params_of(t@));
    loop
        invariant
            ir::types_view(out@) + params_of(at@) == params_of(t@),
        ensures
            ir::types_view(out@) == params_of(t@),
        decreases at,
    {
        match at {
            Type::Arrow { param, ret, effects: _ } => {
                let ghost before = out@;
                let p = (**param).clone();
                let ghost pv = p@;
                out.push(p);
                assert(ir::types_view(out@) =~= ir::types_view(before).push(pv));
                assert(ir::types_view(out@) + params_of(ret@) =~= ir::types_view(before) + params_of(at@));
                at = &**ret;
            },
            _ => {
                assert(ir::types_view(out@) + params_of(at@) =~= ir::types_view(out@));
                break;
            },
        }
    }
    out
}

pub fn count_words(w: &World, v: &Vec<Type>) -> (r: usize)
    ensures
        r == word_count(w@, ir::types_view(v@), v@.len()),
        r <= v@.len(),
{
    broadcast use ir::lemma_types_view;

    let ghost tv = ir::types_view(v@);
    let mut n: usize = 0;
    let mut i: usize = 0;
    while i < v.len()
        invariant
            i <= v@.len(),
            n <= i,
            tv == ir::types_view(v@),
            n == word_count(w@, tv, i as nat),
        decreases v@.len() - i,
    {
        assert(tv[i as int] == v@[i as int]@);
        if !is_no_slot(w, &v[i]) {
            n = n + 1;
        }
        i = i + 1;
    }
    n
}

fn gather_metas(w: &World, v: &Vec<Pick>) -> (r: Vec<FnMeta>)
    ensures
        wasm_trans::metas_view(r@) == metas_of(w@, picks_view(v@)),
{
    let ghost pv = picks_view(v@);
    let mut out: Vec<FnMeta> = Vec::new();
    let mut i: usize = 0;
    while i < v.len()
        invariant
            i <= v@.len(),
            pv == picks_view(v@),
            out@.len() == i,
            forall|k: int| 0 <= k < i ==> #[trigger] out@[k]@ == meta_of(w@, pv[k]),
        decreases v@.len() - i,
    {
        let params = peel_param_types(&v[i].def.ty);
        assert(ir::types_view(params@).len() == params@.len()) by {
            broadcast use ir::lemma_types_view;

        }
        let m = FnMeta { hash: v[i].hash, arity: params.len(), words: count_words(w, &params) };
        assert(pv[i as int] == v@[i as int]@);
        assert(m@ == meta_of(w@, pv[i as int]));
        out.push(m);
        i = i + 1;
    }
    assert(wasm_trans::metas_view(out@) =~= metas_of(w@, pv));
    out
}

// ---- imports -----------------------------------------------------------------------------------------------------

/// A type in a message.
pub open spec fn shown_type(t: TypeView) -> Seq<char> {
    match t {
        TypeView::Unit => "()"@,
        TypeView::Bool => "bool"@,
        TypeView::Int(_) => "int"@,
        TypeView::Float(_) => "float"@,
        TypeView::Str => "str"@,
        TypeView::Char => "char"@,
        TypeView::Array(_, _) => "array"@,
        TypeView::Slice(_) => "slice"@,
        TypeView::Tuple(_) => "tuple"@,
        TypeView::Arrow { .. } => "fn"@,
        TypeView::Nominal { .. } => "nominal"@,
        TypeView::Ref { .. } => "ref"@,
        TypeView::Linear(_) => "linear"@,
        TypeView::Var(_) => "tyvar"@,
    }
}

fn show_type(t: &Type) -> (r: &'static str)
    ensures
        r@ == shown_type(t@),
{
    match t {
        Type::Unit => "()",
        Type::Bool => "bool",
        Type::Int(_) => "int",
        Type::Float(_) => "float",
        Type::Str => "str",
        Type::Char => "char",
        Type::Array(_, _) => "array",
        Type::Slice(_) => "slice",
        Type::Tuple(_) => "tuple",
        Type::Arrow { .. } => "fn",
        Type::Nominal { .. } => "nominal",
        Type::Ref { .. } => "ref",
        Type::Linear(_) => "linear",
        Type::Var(_) => "tyvar",
    }
}

pub open spec fn bad_operand(t: TypeView) -> WasmErrorView {
    wasm_trans::unsupported_view(
        "capability operand type `"@ + shown_type(t)
            + "` (only i64/bool/str/unit operands are supported in wasm today)"@,
    )
}

pub open spec fn bad_result(t: TypeView) -> WasmErrorView {
    wasm_trans::unsupported_view("capability result type `"@ + shown_type(t) + "`"@)
}

/// How many of the first `n` operands of an operation are words.
pub open spec fn operand_count(v: Seq<TypeView>, n: nat) -> Result<nat, WasmErrorView>
    decreases n,
{
    if n == 0 {
        Ok(0)
    } else {
        match operand_count(v, (n - 1) as nat) {
            Ok(k) => match v[n - 1] {
                TypeView::Int(_) | TypeView::Bool | TypeView::Str => Ok(k + 1),
                TypeView::Unit => Ok(k),
                _ => Err(bad_operand(v[n - 1])),
            },
            Err(e) => Err(e),
        }
    }
}

/// Whether an operation with that result leaves a word. A capability is no word.
pub open spec fn result_word(w: WorldView, t: TypeView) -> Result<bool, WasmErrorView> {
    match t {
        TypeView::Int(_) | TypeView::Bool | TypeView::Str => Ok(true),
        _ => if wasm_ops::no_slot(w, t) {
            Ok(false)
        } else {
            Err(bad_result(t))
        },
    }
}

pub open spec fn same_op(v: Seq<CapImportView>, cap: Seq<char>, op: u32) -> spec_fn(int) -> bool {
    |i: int| v[i].cap == cap && v[i].op == op
}

/// The imports with that of an operation, which stands there once.
pub open spec fn import_s(w: WorldView, h: Seq<u8>, op: u32, out: Seq<CapImportView>) -> Result<
    Seq<CapImportView>,
    WasmErrorView,
> {
    let cap = wasm_ops::cap_name_of(w, h);
    if find::first_from(same_op(out, cap, op), 0, out.len() as int) is Some {
        Ok(out)
    } else {
        match world::op_of(w, h, op) {
            Some(o) => match operand_count(o.params, o.params.len()) {
                Ok(n) => match result_word(w, o.ret) {
                    Ok(b) => Ok(
                        out.push(CapImportView { cap, op, params: n as usize, returns_value: b }),
                    ),
                    Err(e) => Err(e),
                },
                Err(e) => Err(e),
            },
            None => Err(WasmErrorView::UnresolvedCapability),
        }
    }
}

/// Binders of unknown type.
pub open spec fn unknown(tys: Seq<Option<TypeView>>, n: nat) -> Seq<Option<TypeView>> {
    world::with_fields(tys, None, n)
}

/// The imports with those of the operations that a term performs.
pub open spec fn walk_s(
    w: WorldView,
    c: CoreView,
    tys: Seq<Option<TypeView>>,
    out: Seq<CapImportView>,
) -> Result<Seq<CapImportView>, WasmErrorView>
    decreases c, 0nat,
{
    match c {
        CoreView::Lam { param, effects, body } => walk_s(w, *body, tys.push(Some(param)), out),
        CoreView::Let { value, body } => match walk_s(w, *value, tys, out) {
            Ok(out1) => walk_s(w, *body, tys.push(world::type_of_s(w, *value, tys)), out1),
            Err(e) => Err(e),
        },
        CoreView::Match { scrutinee, branches } => walk_branches(
            w,
            branches,
            branches.len(),
            tys,
            out,
        ),
        CoreView::Loop { state, inv, cond, body } => {
            let inner = unknown(tys, ((state.len() as usize) as u32) as nat);
            match walk_s(w, *cond, inner, out) {
                Ok(out1) => walk_s(w, *body, inner, out1),
                Err(e) => Err(e),
            }
        },
        CoreView::Perform { cap, op, args } => match world::cap_def(w, cap, tys) {
            Some(h) => import_s(w, h, op, out),
            None => Err(WasmErrorView::UnresolvedCapability),
        },
        _ => Ok(out),
    }
}

/// The imports with those of the first `n` branches.
pub open spec fn walk_branches(
    w: WorldView,
    v: Seq<BranchView>,
    n: nat,
    tys: Seq<Option<TypeView>>,
    out: Seq<CapImportView>,
) -> Result<Seq<CapImportView>, WasmErrorView>
    decreases v, n,
{
    if n == 0 || n > v.len() {
        Ok(out)
    } else {
        match walk_branches(w, v, (n - 1) as nat, tys, out) {
            Ok(out1) => walk_s(w, v[n - 1].body, unknown(tys, v[n - 1].binds as nat), out1),
            Err(e) => Err(e),
        }
    }
}

/// The imports of the first `n` functions, each operation once, in the order in
/// which they are first performed.
pub open spec fn imports_of(w: WorldView, v: Seq<PickView>, n: nat) -> Result<
    Seq<CapImportView>,
    WasmErrorView,
>
    decreases n,
{
    if n == 0 {
        Ok(Seq::empty())
    } else {
        match imports_of(w, v, (n - 1) as nat) {
            Ok(out) => match v[n - 1].def.body {
                Some(c) => walk_s(w, c, Seq::empty(), out),
                None => Ok(out),
            },
            Err(e) => Err(e),
        }
    }
}

/// What collecting imports did: `want`.
pub open spec fn did_walk(
    r: Result<(), WasmError>,
    out: Seq<CapImport>,
    want: Result<Seq<CapImportView>, WasmErrorView>,
) -> bool {
    match want {
        Ok(v) => r is Ok && wasm_trans::cap_imports_view(out) == v,
        Err(e) => r is Err && r->Err_0@ == e,
    }
}

proof fn lemma_operands_fail(v: Seq<TypeView>, i: nat, n: nat)
    requires
        i <= n,
        operand_count(v, i) is Err,
    ensures
        operand_count(v, n) == operand_count(v, i),
    decreases n - i,
{
    if i < n {
        assert(operand_count(v, i + 1) == operand_count(v, i));
        lemma_operands_fail(v, i + 1, n);
    }
}

fn count_operands(v: &Vec<Type>) -> (r: Result<usize, WasmError>)
    ensures
        match operand_count(ir::types_view(v@), v@.len()) {
            Ok(n) => r is Ok && r->Ok_0 == n,
            Err(e) => r is Err && r->Err_0@ == e,
        },
{
    broadcast use ir::lemma_types_view;

    let ghost tv = ir::types_view(v@);
    let mut n: usize = 0;
    let mut i: usize = 0;
    while i < v.len()
        invariant
            i <= v@.len(),
            n <= i,
            tv == ir::types_view(v@),
            operand_count(tv, i as nat) == Ok::<nat, WasmErrorView>(n as nat),
        decreases v@.len() - i,
    {
        assert(tv[i as int] == v@[i as int]@);
        match &v[i] {
            Type::Int(_) | Type::Bool | Type::Str => {
                n = n + 1;
            },
            Type::Unit => {},
            _ => {
                proof {
                    lemma_operands_fail(tv, (i + 1) as nat, v@.len());
                }
                let mut s = "capability operand type `".to_owned();
                s.append(show_type(&v[i]));
                s.append("` (only i64/bool/str/unit operands are supported in wasm today)");
                return Err(WasmError::Unsupported(s));
            },
        }
        i = i + 1;
    }
    Ok(n)
}

fn returns_word(w: &World, t: &Type) -> (r: Result<bool, WasmError>)
    ensures
        match result_word(w@, t@) {
            Ok(b) => r is Ok && r->Ok_0 == b,
            Err(e) => r is Err && r->Err_0@ == e,
        },
{
    match t {
        Type::Int(_) | Type::Bool | Type::Str => Ok(true),
        _ => {
            if is_no_slot(w, t) {
                Ok(false)
            } else {
                let mut s = "capability result type `".to_owned();
                s.append(show_type(t));
                s.append("`");
                Err(WasmError::Unsupported(s))
            }
        },
    }
}

fn has_import(v: &Vec<CapImport>, cap: &str, op: u32) -> (r: bool)
    ensures
        r == (find::first_from(same_op(wasm_trans::cap_imports_view(v@), cap@, op), 0, v@.len() as int) is Some),
{
    let ghost p = same_op(wasm_trans::cap_imports_view(v@), cap@, op);
    let ghost n = v@.len() as int;
    let mut i: usize = 0;
    while i < v.len()
        invariant
            i <= n,
            n == v@.len(),
            p == same_op(wasm_trans::cap_imports_view(v@), cap@, op),
            find::first_from(p, 0, n) == find::first_from(p, i as int, n),
        decreases n - i,
    {
        let hit = v[i].op == op && str_eq(v[i].cap.as_str(), cap);
        assert(hit == p(i as int));
        if hit {
            return true;
        }
        i = i + 1;
    }
    false
}

fn add_import_of(w: &World, h: &crate::ir::Hash, op: u32, out: &mut Vec<CapImport>) -> (r: Result<
    (),
    WasmError,
>)
    ensures
        did_walk(r, final(out)@, import_s(w@, h@, op, wasm_trans::cap_imports_view(old(out)@))),
{
    let cap = cap_name(w, h);
    if has_import(out, cap.as_str(), op) {
        return Ok(());
    }
    match cap_op(w, h, op) {
        Some(o) => {
            let params = match count_operands(&o.params) {
                Ok(v) => v,
                Err(e) => {
                    return Err(e);
                },
            };
            let returns_value = match returns_word(w, &o.ret) {
                Ok(v) => v,
                Err(e) => {
                    return Err(e);
                },
            };
            assert(ir::types_view(o.params@).len() == o.params@.len()) by {
                broadcast use ir::lemma_types_view;

            }
            let x = CapImport { cap, op, params, returns_value };
            let ghost xv = x@;
            let ghost before = out@;
            out.push(x);
            assert(wasm_trans::cap_imports_view(out@) =~= wasm_trans::cap_imports_view(before).push(xv));
            Ok(())
        },
        None => Err(WasmError::UnresolvedCapability),
    }
}

proof fn lemma_walk_fail(
    w: WorldView,
    v: Seq<BranchView>,
    i: nat,
    n: nat,
    tys: Seq<Option<TypeView>>,
    out: Seq<CapImportView>,
)
    requires
        i <= n <= v.len(),
        walk_branches(w, v, i, tys, out) is Err,
    ensures
        walk_branches(w, v, n, tys, out) == walk_branches(w, v, i, tys, out),
    decreases n - i,
{
    if i < n {
        assert(walk_branches(w, v, i + 1, tys, out) == walk_branches(w, v, i, tys, out));
        lemma_walk_fail(w, v, i + 1, n, tys, out);
    }
}

fn walk_caps(w: &World, c: &Core, tys: &mut Vec<Option<Type>>, out: &mut Vec<CapImport>) -> (r: Result<
    (),
    WasmError,
>)
    ensures
        did_walk(
            r,
            final(out)@,
            walk_s(w@, c@, world::opt_types_view(old(tys)@), wasm_trans::cap_imports_view(old(out)@)),
        ),
        r is Ok ==> final(tys)@ == old(tys)@,
    decreases c, 0nat,
{
    let ghost t0 = tys@;
    let ghost tv = world::opt_types_view(tys@);
    match c {
        Core::Lam { param, effects: _, body } => {
            let p = Some(param.clone());
            tys.push(p);
            assert(world::opt_types_view(tys@) =~= tv.push(Some(param@)));
            if let Err(e) = walk_caps(w, body, tys, out) {
                return Err(e);
            }
            let _t = tys.pop();
            assert(tys@ =~= t0);
            Ok(())
        },
        Core::Let { value, body } => {
            if let Err(e) = walk_caps(w, value, tys, out) {
                return Err(e);
            }
            let t = type_of(w, value, tys);
            let ghost ov = world::opt_type_view(t);
            tys.push(t);
            assert(world::opt_types_view(tys@) =~= tv.push(ov));
            if let Err(e) = walk_caps(w, body, tys, out) {
                return Err(e);
            }
            let _t = tys.pop();
            assert(tys@ =~= t0);
            Ok(())
        },
        Core::Match { scrutinee: _, branches } => walk_arms(w, branches, tys, out),
        Core::Loop { state, inv: _, cond, body } => {
            let none: Option<Vec<Type>> = None;
            let k = state.len() as u32;
            push_fields(tys, &none, k);
            if let Err(e) = walk_caps(w, cond, tys, out) {
                return Err(e);
            }
            if let Err(e) = walk_caps(w, body, tys, out) {
                return Err(e);
            }
            drop_types(tys, k);
            assert(tys@ =~= t0);
            Ok(())
        },
        Core::Perform { cap, op, args: _ } => match resolve_cap_def(cap, tys, w) {
            Some(h) => add_import_of(w, &h, op.0, out),
            None => Err(WasmError::UnresolvedCapability),
        },
        _ => Ok(()),
    }
}

fn walk_arms(
    w: &World,
    v: &Vec<Branch>,
    tys: &mut Vec<Option<Type>>,
    out: &mut Vec<CapImport>,
) -> (r: Result<(), WasmError>)
    ensures
        did_walk(
            r,
            final(out)@,
            walk_branches(
                w@,
                ir::branches_view(v@),
                v@.len(),
                world::opt_types_view(old(tys)@),
                wasm_trans::cap_imports_view(old(out)@),
            ),
        ),
        r is Ok ==> final(tys)@ == old(tys)@,
    decreases v@, 0nat,
{
    broadcast use ir::lemma_branches_view;

    let ghost t0 = tys@;
    let ghost tv = world::opt_types_view(tys@);
    let ghost o0 = wasm_trans::cap_imports_view(out@);
    let ghost bv = ir::branches_view(v@);
    let none: Option<Vec<Type>> = None;
    let mut i: usize = 0;
    while i < v.len()
        invariant
            i <= v@.len(),
            bv == ir::branches_view(v@),
            bv.len() == v@.len(),
            t0 == old(tys)@,
            tys@ == t0,
            tv == world::opt_types_view(t0),
            o0 == wasm_trans::cap_imports_view(old(out)@),
            none is None,
            walk_branches(w@, bv, i as nat, tv, o0) == Ok::<Seq<CapImportView>, WasmErrorView>(
                wasm_trans::cap_imports_view(out@),
            ),
        decreases v@.len() - i,
    {
        assert(bv[i as int] == v@[i as int]@);
        push_fields(tys, &none, v[i].binds);
        match walk_caps(w, &v[i].body, tys, out) {
            Ok(_) => {},
            Err(e) => {
                proof {
                    lemma_walk_fail(w@, bv, (i + 1) as nat, v@.len(), tv, o0);
                }
                return Err(e);
            },
        }
        drop_types(tys, v[i].binds);
        assert(tys@ =~= t0);
        i = i + 1;
    }
    Ok(())
}

proof fn lemma_imports_fail(w: WorldView, v: Seq<PickView>, i: nat, n: nat)
    requires
        i <= n,
        imports_of(w, v, i) is Err,
    ensures
        imports_of(w, v, n) == imports_of(w, v, i),
    decreases n - i,
{
    if i < n {
        assert(imports_of(w, v, i + 1) == imports_of(w, v, i));
        lemma_imports_fail(w, v, i + 1, n);
    }
}

fn collect_imports(w: &World, v: &Vec<Pick>) -> (r: Result<Vec<CapImport>, WasmError>)
    ensures
        match imports_of(w@, picks_view(v@), v@.len()) {
            Ok(x) => r is Ok && wasm_trans::cap_imports_view(r->Ok_0@) == x,
            Err(e) => r is Err && r->Err_0@ == e,
        },
{
    let ghost pv = picks_view(v@);
    let mut out: Vec<CapImport> = Vec::new();
    let mut i: usize = 0;
    assert(wasm_trans::cap_imports_view(out@) =~= Seq::empty());
    while i < v.len()
        invariant
            i <= v@.len(),
            pv == picks_view(v@),
            imports_of(w@, pv, i as nat) == Ok::<Seq<CapImportView>, WasmErrorView>(
                wasm_trans::cap_imports_view(out@),
            ),
        decreases v@.len() - i,
    {
        assert(pv[i as int] == v@[i as int]@);
        match &v[i].def.body {
            Some(c) => {
                let mut tys: Vec<Option<Type>> = Vec::new();
                assert(world::opt_types_view(tys@) =~= Seq::empty());
                match walk_caps(w, c, &mut tys, &mut out) {
                    Ok(_) => {},
                    Err(e) => {
                        proof {
                            lemma_imports_fail(w@, pv, (i + 1) as nat, v@.len());
                        }
                        return Err(e);
                    },
                }
            },
            None => {},
        }
        i = i + 1;
    }
    Ok(out)
}

// ---- bodies ------------------------------------------------------------------------------------------------------

/// The term inside the parameters of a function.
pub open spec fn inside_lams(c: CoreView) -> CoreView
    decreases c,
{
    match c {
        CoreView::Lam { param, effects, body } => inside_lams(*body),
        _ => c,
    }
}

/// The term inside the parameters of a function.
pub fn peel_lams(c: &Core) -> (r: &Core)
    ensures
        r@ == inside_lams(c@),
    decreases c,
{
    match c {
        Core::Lam { param: _, effects: _, body } => peel_lams(body),
        _ => c,
    }
}

/// The binders of the first `n` parameters: words have the first locals.
pub open spec fn param_slots(w: WorldView, v: Seq<TypeView>, n: nat) -> Seq<SlotView>
    decreases n,
{
    if n == 0 {
        Seq::empty()
    } else {
        param_slots(w, v, (n - 1) as nat).push(
            if wasm_ops::no_slot(w, v[n - 1]) {
                SlotView::Unit
            } else {
                SlotView::Local((word_count(w, v, (n - 1) as nat) as usize) as u32)
            },
        )
    }
}

/// The state in which the compilation of a function starts.
pub open spec fn start_s(w: WorldView, v: Seq<TypeView>, words: usize) -> TrSt {
    TrSt {
        insts: Seq::empty(),
        env: param_slots(w, v, v.len()),
        tys: Seq::new(v.len(), |i: int| Some(v[i])),
        next: words as u32,
    }
}

/// The runs of locals that a function has besides its parameters.
pub open spec fn extra_locals(next: u32, words: usize) -> Seq<u32> {
    if next > words as u32 {
        seq![(next - words as u32) as u32]
    } else {
        Seq::empty()
    }
}

/// How many words the calls of a hash pass.
pub open spec fn words_of(cx: CxView, h: Seq<u8>) -> usize {
    match wasm_trans::fn_pos(cx, h) {
        Some(i) => cx.fns[i].words,
        None => 0,
    }
}

/// The body of a function.
pub open spec fn body_s(cx: CxView, p: PickView) -> Result<BodyView, WasmErrorView> {
    match p.def.body {
        Some(c) => {
            let words = words_of(cx, p.hash);
            match wasm_eval::word_s(cx, inside_lams(c), start_s(cx.world, params_of(p.def.ty), words)) {
                Ok(s) => Ok(BodyView { locals: extra_locals(s.next, words), code: s.insts }),
                Err(e) => Err(e),
            }
        },
        None => Err(wasm_trans::unsupported_view("function without a body"@)),
    }
}

/// The bodies of the first `n` functions.
pub open spec fn bodies_s(cx: CxView, v: Seq<PickView>, n: nat) -> Result<Seq<BodyView>, WasmErrorView>
    decreases n,
{
    if n == 0 {
        Ok(Seq::empty())
    } else {
        match bodies_s(cx, v, (n - 1) as nat) {
            Ok(out) => match body_s(cx, v[n - 1]) {
                Ok(b) => Ok(out.push(b)),
                Err(e) => Err(e),
            },
            Err(e) => Err(e),
        }
    }
}

impl<'a> Cx<'a> {
    fn words_for(&self, h: &crate::ir::Hash) -> (r: usize)
        ensures
            r == words_of(self@, h@),
    {
        match self.find_fn(h) {
            Some(i) => {
                assert(self@.fns[i as int] == self.fns@[i as int]@);
                self.fns[i].words
            },
            None => 0,
        }
    }
}

fn start(w: &World, v: &Vec<Type>, words: usize) -> (r: Trans)
    ensures
        r@ == start_s(w@, ir::types_view(v@), words),
{
    broadcast use ir::lemma_types_view;
    broadcast use wasm_trans::lemma_slots_view;

    let ghost tv = ir::types_view(v@);
    let mut env: Vec<Slot> = Vec::new();
    let mut tys: Vec<Option<Type>> = Vec::new();
    let mut local: usize = 0;
    let mut i: usize = 0;
    assert(wasm_trans::slots_view(env@) =~= Seq::empty());
    while i < v.len()
        invariant
            i <= v@.len(),
            local <= i,
            tv == ir::types_view(v@),
            local == word_count(w@, tv, i as nat),
            wasm_trans::slots_view(env@) == param_slots(w@, tv, i as nat),
            tys@.len() == i,
            forall|k: int| 0 <= k < i ==> world::opt_type_view(#[trigger] tys@[k]) == Some(tv[k]),
        decreases v@.len() - i,
    {
        assert(tv[i as int] == v@[i as int]@);
        let ghost before = env@;
        let x = if is_no_slot(w, &v[i]) {
            Slot::Unit
        } else {
            local = local + 1;
            Slot::Local((local - 1) as u32)
        };
        let ghost xv = x@;
        env.push(x);
        assert(wasm_trans::slots_view(env@) =~= wasm_trans::slots_view(before).push(xv));
        tys.push(Some(v[i].clone()));
        i = i + 1;
    }
    assert(world::opt_types_view(tys@) =~= Seq::new(tv.len(), |i: int| Some(tv[i])));
    let insts: Vec<Inst> = Vec::new();
    assert(insts@ =~= Seq::empty());
    Trans { insts, env, tys, next: words as u32 }
}

fn compile_fn(cx: &Cx, p: &Pick) -> (r: Result<Body, WasmError>)
    ensures
        match body_s(cx@, p@) {
            Ok(b) => r is Ok && r->Ok_0@ == b,
            Err(e) => r is Err && r->Err_0@ == e,
        },
{
    match &p.def.body {
        Some(c) => {
            let words = cx.words_for(&p.hash);
            let params = peel_param_types(&p.def.ty);
            let mut t = start(cx.world, &params, words);
            let inner = peel_lams(c);
            if let Err(e) = t.eval_word(cx, inner) {
                return Err(e);
            }
            let n = words as u32;
            let mut locals: Vec<u32> = Vec::new();
            if t.next > n {
                locals.push(t.next - n);
            }
            assert(locals@ =~= extra_locals(t.next, words));
            Ok(Body { locals, code: t.insts })
        },
        None => Err(unsupported("function without a body")),
    }
}

proof fn lemma_bodies_fail(cx: CxView, v: Seq<PickView>, i: nat, n: nat)
    requires
        i <= n,
        bodies_s(cx, v, i) is Err,
    ensures
        bodies_s(cx, v, n) == bodies_s(cx, v, i),
    decreases n - i,
{
    if i < n {
        assert(bodies_s(cx, v, i + 1) == bodies_s(cx, v, i));
        lemma_bodies_fail(cx, v, i + 1, n);
    }
}

fn compile_bodies(cx: &Cx, v: &Vec<Pick>) -> (r: Result<Vec<Body>, WasmError>)
    ensures
        match bodies_s(cx@, picks_view(v@), v@.len()) {
            Ok(b) => r is Ok && wasm_code::bodies_view(r->Ok_0@) == b,
            Err(e) => r is Err && r->Err_0@ == e,
        },
{
    let ghost pv = picks_view(v@);
    let ghost c = cx@;
    let mut out: Vec<Body> = Vec::new();
    let mut i: usize = 0;
    assert(wasm_code::bodies_view(out@) =~= Seq::empty());
    while i < v.len()
        invariant
            i <= v@.len(),
            c == cx@,
            pv == picks_view(v@),
            bodies_s(c, pv, i as nat) == Ok::<Seq<BodyView>, WasmErrorView>(wasm_code::bodies_view(out@)),
        decreases v@.len() - i,
    {
        assert(pv[i as int] == v@[i as int]@);
        match compile_fn(cx, &v[i]) {
            Ok(b) => {
                let ghost before = out@;
                let ghost xv = b@;
                out.push(b);
                assert(wasm_code::bodies_view(out@) =~= wasm_code::bodies_view(before).push(xv));
            },
            Err(e) => {
                proof {
                    lemma_bodies_fail(c, pv, (i + 1) as nat, v@.len());
                }
                return Err(e);
            },
        }
        i = i + 1;
    }
    Ok(out)
}

// ---- modules -------------------------------------------------------------------------------------------------------

/// The name of an operation among a capability's imports.
pub open spec fn op_name(op: u32) -> Seq<char> {
    "op"@ + text::decimal(op as nat)
}

/// The import of an operation: module and field name.
pub open spec fn import_pair(i: CapImportView) -> (Seq<char>, Seq<char>) {
    (i.cap, op_name(i.op))
}

/// The signatures of the imports, then those of the functions.
pub open spec fn signatures_of(cx: CxView, v: Seq<PickView>) -> Seq<Signature> {
    Seq::new(
        cx.imports.len(),
        |i: int| Signature { params: cx.imports[i].params, result: cx.imports[i].returns_value },
    ) + Seq::new(v.len(), |i: int| Signature { params: words_of(cx, v[i].hash), result: true })
}

/// The index that the calls of a hash use.
pub open spec fn call_index(cx: CxView, h: Seq<u8>) -> u32 {
    match wasm_trans::fn_pos(cx, h) {
        Some(i) => wasm_trans::fn_index(cx, i),
        None => 0,
    }
}

/// The exports: each function under its name, and the memory if it is exported.
pub open spec fn exports_of(cx: CxView, v: Seq<PickView>, memory: bool) -> Seq<(Seq<char>, Exported)> {
    let fns = Seq::new(v.len(), |i: int| (v[i].name, Exported::Func(call_index(cx, v[i].hash))));
    if memory {
        fns.push(("memory"@, Exported::Memory(0)))
    } else {
        fns
    }
}

/// What a module says of its exported functions.
pub open spec fn export_list(cx: CxView, v: Seq<PickView>) -> Seq<ExportView> {
    Seq::new(v.len(), |i: int| ExportView { name: v[i].name, arity: words_of(cx, v[i].hash) })
}

/// What a build makes of its functions.
#[verifier::ext_equal]
pub struct PlanView {
    pub desc: ModuleView,
    pub imports: Seq<CapImportView>,
    pub exports: Seq<ExportView>,
}

/// The program that the functions of a build are part of.
pub open spec fn cx_of(w: WorldView, v: Seq<PickView>, imports: Seq<CapImportView>, checks: bool) -> CxView {
    CxView { world: w, fns: metas_of(w, v), imports, checks }
}

/// The module of a build. `whole` builds export their memory and have a section
/// for imports even if there are none.
pub open spec fn plan_s(w: WorldView, v: Seq<PickView>, checks: bool, whole: bool) -> Result<
    PlanView,
    WasmErrorView,
> {
    match imports_of(w, v, v.len()) {
        Ok(imports) => {
            let cx = cx_of(w, v, imports, checks);
            match bodies_s(cx, v, v.len()) {
                Ok(bodies) => Ok(
                    PlanView {
                        desc: ModuleView {
                            types: signatures_of(cx, v),
                            imports: Seq::new(imports.len(), |i: int| import_pair(imports[i])),
                            exports: exports_of(cx, v, whole),
                            bodies,
                            import_section: whole,
                        },
                        imports,
                        exports: export_list(cx, v),
                    },
                ),
                Err(e) => Err(e),
            }
        },
        Err(e) => Err(e),
    }
}

/// What a build makes of its functions: the module, and what it asks of its host
/// and offers it.
#[derive(Debug, PartialEq, Eq)]
pub struct Plan {
    pub desc: ModuleDesc,
    pub imports: Vec<CapImport>,
    pub exports: Vec<ExportInfo>,
}

impl View for Plan {
    type V = PlanView;

    open spec fn view(&self) -> PlanView {
        PlanView {
            desc: self.desc@,
            imports: wasm_trans::cap_imports_view(self.imports@),
            exports: export_infos_view(self.exports@),
        }
    }
}

/// What planning did: `want`.
pub open spec fn did_plan(r: Result<Plan, WasmError>, want: Result<PlanView, WasmErrorView>) -> bool {
    match want {
        Ok(p) => r is Ok && r->Ok_0@ == p,
        Err(e) => r is Err && r->Err_0@ == e,
    }
}

fn list_signatures(cx: &Cx, v: &Vec<Pick>) -> (r: Vec<Signature>)
    ensures
        r@ == signatures_of(cx@, picks_view(v@)),
{
    let ghost pv = picks_view(v@);
    let ghost c = cx@;
    let ghost all = signatures_of(c, pv);
    let n = cx.imports.len();
    let mut out: Vec<Signature> = Vec::new();
    let mut i: usize = 0;
    while i < n
        invariant
            i <= n,
            n == cx.imports@.len(),
            c == cx@,
            all == signatures_of(c, pv),
            out@.len() == i,
            forall|k: int| 0 <= k < i ==> #[trigger] out@[k] == all[k],
        decreases n - i,
    {
        assert(c.imports[i as int] == cx.imports@[i as int]@);
        out.push(
            Signature { params: cx.imports[i].params, result: cx.imports[i].returns_value },
        );
        i = i + 1;
    }
    let mut j: usize = 0;
    while j < v.len()
        invariant
            j <= v@.len(),
            n == cx.imports@.len(),
            c == cx@,
            pv == picks_view(v@),
            all == signatures_of(c, pv),
            out@.len() == n + j,
            forall|k: int| 0 <= k < n + j ==> #[trigger] out@[k] == all[k],
        decreases v@.len() - j,
    {
        assert(pv[j as int] == v@[j as int]@);
        out.push(Signature { params: cx.words_for(&v[j].hash), result: true });
        j = j + 1;
    }
    assert(out@ =~= all);
    out
}

fn list_imports(v: &Vec<CapImport>) -> (r: Vec<(String, String)>)
    ensures
        wasm_code::import_names(r@) == Seq::new(v@.len(), |i: int| import_pair(wasm_trans::cap_imports_view(v@)[i])),
{
    let ghost iv = wasm_trans::cap_imports_view(v@);
    let mut out: Vec<(String, String)> = Vec::new();
    let mut i: usize = 0;
    while i < v.len()
        invariant
            i <= v@.len(),
            iv == wasm_trans::cap_imports_view(v@),
            out@.len() == i,
            forall|k: int|
                0 <= k < i ==> ((#[trigger] out@[k]).0@, out@[k].1@) == import_pair(iv[k]),
        decreases v@.len() - i,
    {
        let mut name = "op".to_owned();
        push_decimal(&mut name, v[i].op as u64);
        out.push((v[i].cap.as_str().to_owned(), name));
        i = i + 1;
    }
    assert(wasm_code::import_names(out@) =~= Seq::new(v@.len(), |i: int| import_pair(iv[i])));
    out
}

fn list_exports(cx: &Cx, v: &Vec<Pick>, memory: bool) -> (r: Vec<(String, Exported)>)
    ensures
        wasm_code::export_names(r@) == exports_of(cx@, picks_view(v@), memory),
{
    let ghost pv = picks_view(v@);
    let ghost c = cx@;
    let ghost all = exports_of(c, pv, memory);
    let mut out: Vec<(String, Exported)> = Vec::new();
    let mut i: usize = 0;
    while i < v.len()
        invariant
            i <= v@.len(),
            c == cx@,
            pv == picks_view(v@),
            all == exports_of(c, pv, memory),
            out@.len() == i,
            forall|k: int| 0 <= k < i ==> ((#[trigger] out@[k]).0@, out@[k].1) == all[k],
        decreases v@.len() - i,
    {
        assert(pv[i as int] == v@[i as int]@);
        let f = match cx.find_fn(&v[i].hash) {
            Some(k) => deeper(cx.imports.len() as u32, k as u32),
            None => 0,
        };
        out.push((v[i].name.as_str().to_owned(), Exported::Func(f)));
        i = i + 1;
    }
    if memory {
        out.push(("memory".to_owned(), Exported::Memory(0)));
    }
    assert(wasm_code::export_names(out@) =~= all);
    out
}

fn list_infos(cx: &Cx, v: &Vec<Pick>) -> (r: Vec<ExportInfo>)
    ensures
        export_infos_view(r@) == export_list(cx@, picks_view(v@)),
{
    let ghost pv = picks_view(v@);
    let ghost c = cx@;
    let mut out: Vec<ExportInfo> = Vec::new();
    let mut i: usize = 0;
    while i < v.len()
        invariant
            i <= v@.len(),
            c == cx@,
            pv == picks_view(v@),
            out@.len() == i,
            forall|k: int| 0 <= k < i ==> #[trigger] out@[k]@ == export_list(c, pv)[k],
        decreases v@.len() - i,
    {
        assert(pv[i as int] == v@[i as int]@);
        let x = ExportInfo {
            name: v[i].name.as_str().to_owned(),
            arity: cx.words_for(&v[i].hash),
        };
        assert(x@ == export_list(c, pv)[i as int]);
        out.push(x);
        i = i + 1;
    }
    assert(export_infos_view(out@) =~= export_list(c, pv));
    out
}

/// The module of a build.
fn plan(w: &World, v: &Vec<Pick>, checks: bool, whole: bool) -> (r: Result<Plan, WasmError>)
    ensures
        did_plan(r, plan_s(w@, picks_view(v@), checks, whole)),
{
    let ghost pv = picks_view(v@);
    let fns = gather_metas(w, v);
    let imports = match collect_imports(w, v) {
        Ok(v) => v,
        Err(e) => {
            return Err(e);
        },
    };
    let cx = Cx { world: w, fns: &fns, imports: &imports, checks };
    assert(cx@ == cx_of(w@, pv, wasm_trans::cap_imports_view(imports@), checks));
    let bodies = match compile_bodies(&cx, v) {
        Ok(v) => v,
        Err(e) => {
            return Err(e);
        },
    };
    let desc = ModuleDesc {
        types: list_signatures(&cx, v),
        imports: list_imports(&imports),
        exports: list_exports(&cx, v, whole),
        bodies,
        import_section: whole,
    };
    let exports = list_infos(&cx, v);
    Ok(Plan { desc, imports, exports })
}

/// The module of a set of definitions: of all of them, or of those that `entry`
/// needs.
pub fn plan_module(
    path: &str,
    defs: &[(String, Def)],
    world: &World,
    opts: &Options,
    entry: Option<&str>,
) -> (r: Result<Plan, WasmError>)
    ensures
        did_plan(
            r,
            plan_s(
                world@,
                picked(path@, reach::defs_view(defs@), opt_str_view(entry), defs@.len()),
                opts.bounds_checks,
                true,
            ),
        ),
{
    let v = pick(path, defs, entry);
    plan(world, &v, opts.bounds_checks, true)
}

/// The module of what `entry` needs of a program whose definitions have hashes.
pub fn plan_hashed(
    defs: &[(crate::ir::Hash, String, Def)],
    aliases: &[(String, crate::ir::Hash)],
    world: &World,
    opts: &Options,
    entry: &str,
) -> (r: Result<Plan, WasmError>)
    ensures
        did_plan(
            r,
            plan_s(
                world@,
                hashed_picked(hashed::hashed_view(defs@), hashed::aliases_view(aliases@), entry@, defs@.len()),
                opts.bounds_checks,
                false,
            ),
        ),
{
    let v = hashed_pick(defs, aliases, entry);
    plan(world, &v, opts.bounds_checks, false)
}

/// An artifact, unless something is wrong with its bytes.
pub open spec fn checked_s(
    bytes: Seq<u8>,
    wrong: Option<Seq<char>>,
    imports: Seq<CapImportView>,
    exports: Seq<ExportView>,
) -> Result<ArtifactView, WasmErrorView> {
    match wrong {
        Some(m) => Err(WasmErrorView::Invalid(m)),
        None => Ok(ArtifactView { bytes, imports, exports }),
    }
}

/// The artifact of a plan: the encoded module, if it is valid.
pub open spec fn finish_s(p: PlanView) -> Result<ArtifactView, WasmErrorView> {
    if !wasm_code::encodable(p.desc) {
        Err(WasmErrorView::Invalid("module too large"@))
    } else {
        let bytes = wasm_code::encoded(wasm_code::sections(p.desc));
        checked_s(bytes, wasm_code::validation_error(bytes), p.imports, p.exports)
    }
}

/// The artifact of a build.
pub open spec fn built_s(r: Result<PlanView, WasmErrorView>) -> Result<ArtifactView, WasmErrorView> {
    match r {
        Ok(p) => finish_s(p),
        Err(e) => Err(e),
    }
}

/// What building did: `want`.
pub open spec fn did_build(
    r: Result<WasmArtifact, WasmError>,
    want: Result<ArtifactView, WasmErrorView>,
) -> bool {
    match want {
        Ok(a) => r is Ok && r->Ok_0@ == a,
        Err(e) => r is Err && r->Err_0@ == e,
    }
}

/// The counterpart of a text that may be missing.
pub open spec fn opt_string_view(s: Option<String>) -> Option<Seq<char>> {
    match s {
        Some(t) => Some(t@),
        None => None,
    }
}

/// An artifact of the bytes of a module, where `wrong` is what a validator says
/// against them.
pub fn checked(
    bytes: Vec<u8>,
    wrong: Option<String>,
    imports: Vec<CapImport>,
    exports: Vec<ExportInfo>,
) -> (r: Result<WasmArtifact, WasmError>)
    ensures
        did_build(
            r,
            checked_s(
                bytes@,
                opt_string_view(wrong),
                wasm_trans::cap_imports_view(imports@),
                export_infos_view(exports@),
            ),
        ),
{
    match wrong {
        Some(m) => Err(WasmError::Invalid(m)),
        None => Ok(WasmArtifact { bytes, imports, exports }),
    }
}

/// The artifact of a plan.
pub fn finish(p: Plan) -> (r: Result<WasmArtifact, WasmError>)
    ensures
        did_build(r, finish_s(p@)),
{
    if !is_encodable(&p.desc) {
        return Err(WasmError::Invalid("module too large".to_owned()));
    }
    let bytes = encode(&p.desc);
    let wrong = validate(&bytes);
    checked(bytes, wrong, p.imports, p.exports)
}

/// Compile a set of definitions.
pub fn compile(path: &str, defs: &[(String, Def)], world: &World) -> (r: Result<
    WasmArtifact,
    WasmError,
>)
    ensures
        did_build(
            r,
            built_s(
                plan_s(world@, picked(path@, reach::defs_view(defs@), None, defs@.len()), true, true),
            ),
        ),
{
    let opts = Options { bounds_checks: true };
    compile_with(path, defs, world, &opts)
}

/// Compile a set of definitions with options.
pub fn compile_with(path: &str, defs: &[(String, Def)], world: &World, opts: &Options) -> (r: Result<
    WasmArtifact,
    WasmError,
>)
    ensures
        did_build(
            r,
            built_s(
                plan_s(
                    world@,
                    picked(path@, reach::defs_view(defs@), None, defs@.len()),
                    opts.bounds_checks,
                    true,
                ),
            ),
        ),
{
    let p = match plan_module(path, defs, world, opts, None) {
        Ok(v) => v,
        Err(e) => {
            return Err(e);
        },
    };
    finish(p)
}

/// Compile the definitions that `entry` needs, or all of them if there is no
/// such entry.
pub fn compile_reachable(
    path: &str,
    defs: &[(String, Def)],
    world: &World,
    opts: &Options,
    entry: &str,
) -> (r: Result<WasmArtifact, WasmError>)
    ensures
        did_build(
            r,
            built_s(
                plan_s(
                    world@,
                    picked(path@, reach::defs_view(defs@), Some(entry@), defs@.len()),
                    opts.bounds_checks,
                    true,
                ),
            ),
        ),
{
    let p = match plan_module(path, defs, world, opts, Some(entry)) {
        Ok(v) => v,
        Err(e) => {
            return Err(e);
        },
    };
    finish(p)
}

/// Compile what `entry` needs of a program whose definitions have hashes.
pub fn compile_hashed_reachable(
    defs: &[(crate::ir::Hash, String, Def)],
    aliases: &[(String, crate::ir::Hash)],
    world: &World,
    opts: &Options,
    entry: &str,
) -> (r: Result<WasmArtifact, WasmError>)
    ensures
        did_build(
            r,
            built_s(
                plan_s(
                    world@,
                    hashed_picked(hashed::hashed_view(defs@), hashed::aliases_view(aliases@), entry@, defs@.len()),
                    opts.bounds_checks,
                    false,
                ),
            ),
        ),
{
    let p = match plan_hashed(defs, aliases, world, opts, entry) {
        Ok(v) => v,
        Err(e) => {
            return Err(e);
        },
    };
    finish(p)
}

} // verus!
