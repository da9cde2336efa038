//! What is kept of a definition beside its Core term, and the world that kept
//! definitions make up.
use vstd::prelude::*;
use vstd::string::*;

use crate::copies::{clone_hashes, clone_types};
use crate::decls;
use crate::find;
use crate::hash;
use crate::hash::symbol_hash;
use crate::ir;
use crate::ir::{Def, DefKind, DefView, Type, TypeView};
use crate::lower;
use crate::lower::{EntryView, IfaceView, InterfaceInfo, InterfaceMethod, LoweredModule, LoweredView, MethodView, VariantInfo, VariantView};
use crate::syntax::{Item, Module};
use crate::text;
use crate::text::{clone_strings, str_eq};
use crate::words;
use crate::words::{has_prefix, trim, trim_start};
use crate::world;
use crate::world::{CapView, GlobalView, OpSig, OpView, SumView, World, WorldView};

verus! {

// ---- what is kept ------------------------------------------------------------------------------------

/// What is kept of a definition beside its Core term.
#[derive(Debug, PartialEq, Eq)]
pub struct DefMeta {
    /// The variants of an enum or an error type, in tag order.
    pub enum_variants: Vec<VariantInfo>,
    /// The operations of a capability.
    pub capability_ops: Vec<OpSig>,
    /// For an unsafe function, why it is sound, as far as its docs say.
    pub unsafe_sites: Vec<String>,
}

/// The mathematical counterpart of [`DefMeta`].
#[verifier::ext_equal]
pub struct MetaInfo {
    pub enum_variants: Seq<VariantView>,
    pub capability_ops: Seq<OpView>,
    pub unsafe_sites: Seq<Seq<char>>,
}

impl View for DefMeta {
    type V = MetaInfo;

    open spec fn view(&self) -> MetaInfo {
        MetaInfo {
            enum_variants: lower::variants_view(self.enum_variants@),
            capability_ops: world::ops_view(self.capability_ops@),
            unsafe_sites: text::strings_view(self.unsafe_sites@),
        }
    }
}

pub open spec fn def_metas_view(v: Seq<DefMeta>) -> Seq<MetaInfo> {
    Seq::new(v.len(), |i: int| v[i]@)
}

/// Nothing but the Core term.
pub open spec fn no_meta() -> MetaInfo {
    MetaInfo {
        enum_variants: Seq::empty(),
        capability_ops: Seq::empty(),
        unsafe_sites: Seq::empty(),
    }
}

impl Default for DefMeta {
    fn default() -> (r: DefMeta)
        ensures
            r@ == no_meta(),
    {
        let r = DefMeta {
            enum_variants: Vec::new(),
            capability_ops: Vec::new(),
            unsafe_sites: Vec::new(),
        };
        assert(r@ =~= no_meta());
        r
    }
}

/// A copy of a list of variants.
pub fn clone_variants(v: &Vec<VariantInfo>) -> (r: Vec<VariantInfo>)
    ensures
        lower::variants_view(r@) == lower::variants_view(v@),
{
    let mut out: Vec<VariantInfo> = Vec::new();
    let mut i: usize = 0;
    while i < v.len()
        invariant
            i <= v@.len(),
            out@.len() == i,
            forall|k: int| 0 <= k < i ==> #[trigger] out@[k]@ == v@[k]@,
        decreases v@.len() - i,
    {
        let x = VariantInfo { name: v[i].name.clone(), fields: clone_types(&v[i].fields) };
        out.push(x);
        i = i + 1;
    }
    assert(lower::variants_view(out@) =~= lower::variants_view(v@));
    out
}

/// A copy of a list of operations.
pub fn clone_ops(v: &Vec<OpSig>) -> (r: Vec<OpSig>)
    ensures
        world::ops_view(r@) == world::ops_view(v@),
{
    let mut out: Vec<OpSig> = Vec::new();
    let mut i: usize = 0;
    while i < v.len()
        invariant
            i <= v@.len(),
            out@.len() == i,
            forall|k: int| 0 <= k < i ==> #[trigger] out@[k]@ == v@[k]@,
        decreases v@.len() - i,
    {
        let x = OpSig {
            consumes_receiver: v[i].consumes_receiver,
            params: clone_types(&v[i].params),
            ret: v[i].ret.clone(),
            errors: clone_hashes(&v[i].errors),
        };
        out.push(x);
        i = i + 1;
    }
    assert(world::ops_view(out@) =~= world::ops_view(v@));
    out
}

impl Clone for DefMeta {
    fn clone(&self) -> (r: Self)
        ensures
            r@ == self@,
    {
        DefMeta {
            enum_variants: clone_variants(&self.enum_variants),
            capability_ops: clone_ops(&self.capability_ops),
            unsafe_sites: clone_strings(&self.unsafe_sites),
        }
    }
}

// ---- what source says of a function -------------------------------------------------------------------

/// The parameter names of the first function of that name; none if there is none.
pub open spec fn params_named(m: Module, name: Seq<char>) -> Seq<Seq<char>> {
    match find::first_from(decls::is_fn_named(m.items@, name), 0, m.items@.len() as int) {
        Some(i) => match m.items@[i] {
            Item::Fn(f) => lower::param_names(f.params@),
            _ => Seq::empty(),
        },
        None => Seq::empty(),
    }
}

/// The parameter names of the function of that name.
pub fn fn_param_names(m: &Module, name: &str) -> (r: Vec<String>)
    ensures
        text::strings_view(r@) == params_named(*m, name@),
{
    let ghost p = decls::is_fn_named(m.items@, name@);
    let ghost n = m.items@.len() as int;
    let mut i: usize = 0;
    while i < m.items.len()
        invariant
            i <= n,
            n == m.items@.len(),
            p == decls::is_fn_named(m.items@, name@),
            find::first_from(p, 0, n) == find::first_from(p, i as int, n),
        decreases n - i,
    {
        if let Item::Fn(f) = &m.items[i] {
            if str_eq(f.name.as_str(), name) {
                assert(p(i as int));
                let mut out: Vec<String> = Vec::new();
                let mut k: usize = 0;
                while k < f.params.len()
                    invariant
                        k <= f.params@.len(),
                        out@.len() == k,
                        forall|j: int| 0 <= j < k ==> #[trigger] out@[j]@ == f.params@[j].name@,
                    decreases f.params@.len() - k,
                {
                    out.push(f.params[k].name.clone());
                    k = k + 1;
                }
                assert(text::strings_view(out@) =~= lower::param_names(f.params@));
                return out;
            }
        }
        assert(!p(i as int));
        i = i + 1;
    }
    let out: Vec<String> = Vec::new();
    assert(text::strings_view(out@) =~= Seq::empty());
    out
}

pub open spec fn is_unsafe_fn(items: Seq<Item>, name: Seq<char>) -> spec_fn(int) -> bool {
    |i: int|
        match items[i] {
            Item::Fn(f) => f.name@ == name && f.is_unsafe,
            _ => false,
        }
}

/// What a line of documentation says of safety.
pub open spec fn safety_of(line: Seq<char>) -> Option<Seq<char>> {
    let t = words::trimmed_start(line);
    if words::starts(t, "SAFETY:"@) {
        Some(words::trimmed_end(words::trimmed_start(t.skip("SAFETY:"@.len() as int))))
    } else {
        None
    }
}

pub open spec fn speaks_of_safety(docs: Seq<Seq<char>>) -> spec_fn(int) -> bool {
    |i: int| safety_of(docs[i]) is Some
}

/// Why a function is sound: the first line of its docs that says so, else an
/// empty text.
pub open spec fn safety_note(docs: Seq<Seq<char>>) -> Seq<char> {
    match find::first_from(speaks_of_safety(docs), 0, docs.len() as int) {
        Some(i) => safety_of(docs[i])->0,
        None => Seq::empty(),
    }
}

/// The unsafe sites of the function of that name: one if it is unsafe.
pub open spec fn sites_named(m: Module, name: Seq<char>) -> Seq<Seq<char>> {
    match find::first_from(is_unsafe_fn(m.items@, name), 0, m.items@.len() as int) {
        Some(i) => match m.items@[i] {
            Item::Fn(f) => seq![safety_note(text::strings_view(f.docs@))],
            _ => Seq::empty(),
        },
        None => Seq::empty(),
    }
}

fn read_safety(line: &str) -> (r: Option<String>)
    ensures
        match safety_of(line@) {
            Some(t) => r is Some && r->0@ == t,
            None => r is None,
        },
{
    let t = trim_start(line);
    if has_prefix(t, "SAFETY:") {
        let n = t.unicode_len();
        let k = "SAFETY:".unicode_len();
        let rest = t.substring_char(k, n);
        assert(rest@ =~= t@.skip("SAFETY:"@.len() as int));
        Some(trim(rest).to_owned())
    } else {
        None
    }
}

fn find_safety(docs: &Vec<String>) -> (r: String)
    ensures
        r@ == safety_note(text::strings_view(docs@)),
{
    let ghost d = text::strings_view(docs@);
    let ghost p = speaks_of_safety(d);
    let ghost n = docs@.len() as int;
    let mut i: usize = 0;
    while i < docs.len()
        invariant
            i <= n,
            n == docs@.len(),
            d == text::strings_view(docs@),
            p == speaks_of_safety(d),
            find::first_from(p, 0, n) == find::first_from(p, i as int, n),
        decreases n - i,
    {
        assert(d[i as int] == docs@[i as int]@);
        match read_safety(docs[i].as_str()) {
            Some(t) => {
                assert(p(i as int));
                return t;
            },
            None => {
                assert(!p(i as int));
            },
        }
        i = i + 1;
    }
    let r = String::new();
    assert(r@ =~= Seq::empty());
    r
}

/// The unsafe sites of the function of that name.
pub fn unsafe_sites_for_fn(m: &Module, name: &str) -> (r: Vec<String>)
    ensures
        text::strings_view(r@) == sites_named(*m, name@),
{
    let ghost p = is_unsafe_fn(m.items@, name@);
    let ghost n = m.items@.len() as int;
    let mut i: usize = 0;
    while i < m.items.len()
        invariant
            i <= n,
            n == m.items@.len(),
            p == is_unsafe_fn(m.items@, name@),
            find::first_from(p, 0, n) == find::first_from(p, i as int, n),
        decreases n - i,
    {
        if let Item::Fn(f) = &m.items[i] {
            if f.is_unsafe && str_eq(f.name.as_str(), name) {
                assert(p(i as int));
                let mut out: Vec<String> = Vec::new();
                out.push(find_safety(&f.docs));
                assert(text::strings_view(out@) =~= seq![safety_note(text::strings_view(f.docs@))]);
                return out;
            }
        }
        assert(!p(i as int));
        i = i + 1;
    }
    let out: Vec<String> = Vec::new();
    assert(text::strings_view(out@) =~= Seq::empty());
    out
}

// ---- what a module keeps ---------------------------------------------------------------------------------

/// A method of a capability as an operation: its receiver is no operand.
pub open spec fn op_of_method(s: MethodView) -> OpView {
    OpView {
        consumes_receiver: s.params.len() > 0 && s.params[0] is Linear,
        params: if s.params.len() > 0 {
            s.params.skip(1)
        } else {
            Seq::empty()
        },
        ret: s.ret,
        errors: Seq::empty(),
    }
}

pub open spec fn is_capability_named(v: Seq<IfaceView>, name: Seq<char>) -> spec_fn(int) -> bool {
    |i: int| v[i].is_capability && v[i].name == name
}

/// The operations of the capability of that name; none if there is none.
pub open spec fn ops_named(v: Seq<IfaceView>, name: Seq<char>) -> Seq<OpView> {
    match find::last_below(is_capability_named(v, name), v.len() as int) {
        Some(i) => Seq::new(v[i].method_sigs.len(), |k: int| op_of_method(v[i].method_sigs[k])),
        None => Seq::empty(),
    }
}

/// What is kept of a definition of a module.
pub open spec fn meta_of_entry(l: LoweredView, m: Module, e: EntryView) -> MetaInfo {
    MetaInfo {
        enum_variants: match e.enum_variants {
            Some(v) => v,
            None => Seq::empty(),
        },
        capability_ops: ops_named(l.interfaces, e.name),
        unsafe_sites: sites_named(m, e.name),
    }
}

fn method_op(s: &InterfaceMethod) -> (r: OpSig)
    ensures
        r@ == op_of_method(s@),
{
    broadcast use ir::lemma_types_view;

    let mut params: Vec<Type> = Vec::new();
    let mut consumes_receiver = false;
    if s.params.len() > 0 {
        consumes_receiver = match &s.params[0] {
            Type::Linear(_) => true,
            _ => false,
        };
        assert(s@.params[0] == s.params@[0]@);
        let mut i: usize = 1;
        while i < s.params.len()
            invariant
                1 <= i <= s.params@.len(),
                params@.len() == i - 1,
                forall|k: int| 0 <= k < i - 1 ==> #[trigger] params@[k]@ == s.params@[k + 1]@,
            decreases s.params@.len() - i,
        {
            params.push(s.params[i].clone());
            i = i + 1;
        }
        assert(ir::types_view(params@) =~= s@.params.skip(1));
    }
    let r = OpSig { consumes_receiver, params, ret: s.ret.clone(), errors: Vec::new() };
    assert(r@ =~= op_of_method(s@));
    r
}

fn find_ops(v: &Vec<InterfaceInfo>, name: &str) -> (r: Vec<OpSig>)
    ensures
        world::ops_view(r@) == ops_named(lower::ifaces_view(v@), name@),
{
    let ghost w = lower::ifaces_view(v@);
    let ghost p = is_capability_named(w, name@);
    let mut i: usize = v.len();
    while i > 0
        invariant
            i <= v@.len(),
            w == lower::ifaces_view(v@),
            p == is_capability_named(w, name@),
            find::last_below(p, w.len() as int) == find::last_below(p, i as int),
        decreases i,
    {
        let f = &v[i - 1];
        assert(w[i - 1] == f@);
        if f.is_capability && str_eq(f.name.as_str(), name) {
            assert(p(i - 1));
            let mut out: Vec<OpSig> = Vec::new();
            let mut k: usize = 0;
            while k < f.method_sigs.len()
                invariant
                    k <= f.method_sigs@.len(),
                    out@.len() == k,
                    forall|j: int|
                        0 <= j < k ==> #[trigger] out@[j]@ == op_of_method(f.method_sigs@[j]@),
                decreases f.method_sigs@.len() - k,
            {
                out.push(method_op(&f.method_sigs[k]));
                k = k + 1;
            }
            assert(world::ops_view(out@) =~= ops_named(w, name@));
            return out;
        }
        assert(!p(i - 1));
        i = i - 1;
    }
    let out: Vec<OpSig> = Vec::new();
    assert(world::ops_view(out@) =~= Seq::empty());
    out
}

/// What is kept of the definitions of a module, in their order.
pub fn store_meta_for_module(l: &LoweredModule, m: &Module) -> (r: Vec<DefMeta>)
    ensures
        def_metas_view(r@) == Seq::new(
            l@.defs.len(),
            |i: int| meta_of_entry(l@, *m, l@.defs[i]),
        ),
{
    let mut out: Vec<DefMeta> = Vec::new();
    let mut i: usize = 0;
    while i < l.defs.len()
        invariant
            i <= l.defs@.len(),
            out@.len() == i,
            forall|k: int|
                0 <= k < i ==> #[trigger] out@[k]@ == meta_of_entry(l@, *m, l.defs@[k]@),
        decreases l.defs@.len() - i,
    {
        let e = &l.defs[i];
        let enum_variants = match &e.enum_variants {
            Some(v) => clone_variants(v),
            None => {
                let none: Vec<VariantInfo> = Vec::new();
                assert(lower::variants_view(none@) =~= Seq::empty());
                none
            },
        };
        let x = DefMeta {
            enum_variants,
            capability_ops: find_ops(&l.interfaces, e.name.as_str()),
            unsafe_sites: unsafe_sites_for_fn(m, e.name.as_str()),
        };
        assert(x@ == meta_of_entry(l@, *m, e@));
        out.push(x);
        i = i + 1;
    }
    assert(def_metas_view(out@) =~= Seq::new(
        l@.defs.len(),
        |i: int| meta_of_entry(l@, *m, l@.defs[i]),
    ));
    out
}

// ---- worlds --------------------------------------------------------------------------------------------------

/// A definition under the hash that others refer to it by.
#[derive(Debug, PartialEq, Eq)]
pub struct PinnedDef {
    pub hash: crate::ir::Hash,
    pub name: String,
    pub def: Def,
    pub meta: DefMeta,
}

/// The mathematical counterpart of [`PinnedDef`].
#[verifier::ext_equal]
pub struct PinView {
    pub hash: Seq<u8>,
    pub name: Seq<char>,
    pub def: DefView,
    pub meta: MetaInfo,
}

impl View for PinnedDef {
    type V = PinView;

    open spec fn view(&self) -> PinView {
        PinView { hash: self.hash@, name: self.name@, def: self.def@, meta: self.meta@ }
    }
}

pub open spec fn pins_view(v: Seq<PinnedDef>) -> Seq<PinView> {
    Seq::new(v.len(), |i: int| v[i]@)
}

/// The fields of a struct's type, and whether it is linear.
pub open spec fn fields_of(t: TypeView) -> (Seq<TypeView>, bool)
    decreases t,
{
    match t {
        TypeView::Linear(inner) => (fields_of(*inner).0, true),
        TypeView::Tuple(v) => (v, false),
        _ => (seq![t], false),
    }
}

/// The fields of a struct's type, and whether it is linear.
pub fn struct_fields(t: &Type) -> (r: (Vec<Type>, bool))
    ensures
        ir::types_view(r.0@) == fields_of(t@).0,
        r.1 == fields_of(t@).1,
    decreases t,
{
    match t {
        Type::Linear(inner) => {
            let (fields, _) = struct_fields(inner);
            (fields, true)
        },
        Type::Tuple(v) => (clone_types(v), false),
        _ => {
            broadcast use ir::lemma_types_view;

            let mut v: Vec<Type> = Vec::new();
            v.push(t.clone());
            assert(ir::types_view(v@) =~= seq![t@]);
            (v, false)
        },
    }
}

pub open spec fn dots(s: Seq<char>) -> spec_fn(int) -> bool {
    |i: int| s[i] == '.'
}

/// What follows the last dot of a name.
pub open spec fn bare_name(s: Seq<char>) -> Seq<char> {
    match find::last_below(dots(s), s.len() as int) {
        Some(i) => s.skip(i + 1),
        None => s,
    }
}

/// What follows the last dot of a name.
pub fn bare(s: &str) -> (r: String)
    ensures
        r@ == bare_name(s@),
{
    let n = s.unicode_len();
    let ghost p = dots(s@);
    let mut i: usize = n;
    while i > 0
        invariant
            i <= n,
            n == s@.len(),
            p == dots(s@),
            find::last_below(p, n as int) == find::last_below(p, i as int),
        decreases i,
    {
        if s.get_char(i - 1) == '.' {
            assert(p(i - 1));
            let t = s.substring_char(i, n);
            assert(t@ =~= s@.skip(i as int));
            return t.to_owned();
        }
        assert(!p(i - 1));
        i = i - 1;
    }
    s.to_owned()
}

/// The fields of variants.
pub open spec fn variant_fields(v: Seq<VariantView>) -> Seq<Seq<TypeView>> {
    Seq::new(v.len(), |i: int| v[i].fields)
}

/// The world with one more definition: a struct or a sum is laid out, a
/// capability is known by its hash and by its bare name, and anything else but
/// an interface has its type.
pub open spec fn with_pin(w: WorldView, d: PinView) -> WorldView {
    match d.def.kind {
        DefKind::Struct => WorldView {
            sums: w.sums.push(
                SumView {
                    def: d.hash,
                    name: d.name,
                    variants: seq![fields_of(d.def.ty).0],
                    linear: fields_of(d.def.ty).1,
                },
            ),
            ..w
        },
        DefKind::Enum | DefKind::Error => WorldView {
            sums: w.sums.push(
                SumView {
                    def: d.hash,
                    name: d.name,
                    variants: variant_fields(d.meta.enum_variants),
                    linear: false,
                },
            ),
            ..w
        },
        DefKind::Interface => if d.meta.capability_ops.len() > 0 {
            let name = bare_name(d.name);
            WorldView {
                caps: w.caps.push(
                    CapView { def: d.hash, name, ops: d.meta.capability_ops },
                ).push(
                    CapView { def: hash::symbol_id(name), name, ops: d.meta.capability_ops },
                ),
                ..w
            }
        } else {
            w
        },
        _ => WorldView {
            globals: w.globals.push(GlobalView { def: d.hash, ty: d.def.ty }),
            ..w
        },
    }
}

/// The world of the first `n` definitions.
pub open spec fn world_of_pins(v: Seq<PinView>, n: nat) -> WorldView
    decreases n,
{
    if n == 0 {
        WorldView { caps: Seq::empty(), sums: Seq::empty(), globals: Seq::empty() }
    } else {
        with_pin(world_of_pins(v, (n - 1) as nat), v[n - 1])
    }
}

fn add_pin(w: &mut World, d: &PinnedDef)
    ensures
        final(w)@ == with_pin(old(w)@, d@),
{
    match d.def.kind {
        DefKind::Struct => {
            let (fields, linear) = struct_fields(&d.def.ty);
            let mut variants: Vec<Vec<Type>> = Vec::new();
            variants.push(fields);
            assert(world::type_lists_view(variants@) =~= seq![fields_of(d.def.ty@).0]);
            w.add_sum(d.hash, d.name.clone(), variants, linear);
        },
        DefKind::Enum | DefKind::Error => {
            let mut variants: Vec<Vec<Type>> = Vec::new();
            let mut i: usize = 0;
            while i < d.meta.enum_variants.len()
                invariant
                    i <= d.meta.enum_variants@.len(),
                    variants@.len() == i,
                    forall|k: int|
                        0 <= k < i ==> ir::types_view((#[trigger] variants@[k])@)
                            == d.meta.enum_variants@[k]@.fields,
                decreases d.meta.enum_variants@.len() - i,
            {
                variants.push(clone_types(&d.meta.enum_variants[i].fields));
                i = i + 1;
            }
            assert(world::type_lists_view(variants@) =~= variant_fields(d@.meta.enum_variants));
            w.add_sum(d.hash, d.name.clone(), variants, false);
        },
        DefKind::Interface => {
            if d.meta.capability_ops.len() > 0 {
                let name = bare(d.name.as_str());
                w.add_cap(d.hash, name.clone(), clone_ops(&d.meta.capability_ops));
                let h = symbol_hash(name.as_str());
                w.add_cap(h, name, clone_ops(&d.meta.capability_ops));
            }
        },
        _ => {
            w.add_global(d.hash, d.def.ty.clone());
        },
    }
}

/// The world of definitions under their hashes.
pub fn world_for_pinned(v: &Vec<PinnedDef>) -> (r: World)
    ensures
        r@ == world_of_pins(pins_view(v@), v@.len()),
{
    let ghost p = pins_view(v@);
    let mut w = World::new();
    let mut i: usize = 0;
    while i < v.len()
        invariant
            i <= v@.len(),
            p == pins_view(v@),
            w@ == world_of_pins(p, i as nat),
        decreases v@.len() - i,
    {
        assert(p[i as int] == v@[i as int]@);
        add_pin(&mut w, &v[i]);
        i = i + 1;
    }
    w
}

} // verus!
