//! What lowering reads of a program beside the function it lowers: names, imports
//! and declarations. Programs with one outline resolve every name alike.
use vstd::prelude::*;

use crate::decls;
use crate::decls::{CtorRef, RegView};
use crate::emit;
use crate::find;
use crate::ir::TypeView;
use crate::resolve;
use crate::scope::{LowererView, PendView, ScopeView};
use crate::surface;
use crate::syntax;
use crate::syntax::{Expr, Field, FnDecl, Generic, ImplDecl, Item, MethodSig, Module, Param, STypeView, StructDecl, Variant};
use crate::text;

verus! {

// ---- declarations that are alike ----------------------------------------------------------------

/// The same fields: names and types.
pub open spec fn same_fields(v: Seq<Field>, w: Seq<Field>) -> bool {
    &&& v.len() == w.len()
    &&& forall|i: int|
        0 <= i < v.len() ==> (#[trigger] v[i]).name@ == w[i].name@ && v[i].ty@ == w[i].ty@
}

/// The same type parameters with the same bounds.
pub open spec fn same_generics(v: Seq<Generic>, w: Seq<Generic>) -> bool {
    &&& v.len() == w.len()
    &&& forall|i: int|
        0 <= i < v.len() ==> (#[trigger] v[i]).name@ == w[i].name@ && resolve::bound_of(v[i])
            == resolve::bound_of(w[i])
}

/// Parameters of the same types.
pub open spec fn same_params(v: Seq<Param>, w: Seq<Param>) -> bool {
    &&& v.len() == w.len()
    &&& forall|i: int| 0 <= i < v.len() ==> (#[trigger] v[i]).ty@ == w[i].ty@
}

/// The same variants: names and the types of their fields.
pub open spec fn same_variants(v: Seq<Variant>, w: Seq<Variant>) -> bool {
    &&& v.len() == w.len()
    &&& forall|i: int|
        0 <= i < v.len() ==> (#[trigger] v[i]).name@ == w[i].name@ && syntax::stypes_view(
            v[i].fields@,
        ) == syntax::stypes_view(w[i].fields@)
}

/// The same method signatures.
pub open spec fn same_methods(v: Seq<MethodSig>, w: Seq<MethodSig>) -> bool {
    &&& v.len() == w.len()
    &&& forall|i: int|
        0 <= i < v.len() ==> (#[trigger] v[i]).name@ == w[i].name@ && same_params(
            v[i].params@,
            w[i].params@,
        ) && syntax::opt_stype_view(v[i].ret) == syntax::opt_stype_view(w[i].ret)
}

/// The same header of a function: its name, its type parameters, the types of its
/// parameters and result, and whether it has a body.
pub open spec fn same_head(a: FnDecl, b: FnDecl) -> bool {
    &&& a.name@ == b.name@
    &&& same_generics(a.generics@, b.generics@)
    &&& same_params(a.params@, b.params@)
    &&& syntax::opt_stype_view(a.ret) == syntax::opt_stype_view(b.ret)
    &&& (a.body is None) == (b.body is None)
}

/// Items that declare the same.
pub open spec fn same_decl(a: Item, b: Item) -> bool {
    match (a, b) {
        (Item::Fn(f), Item::Fn(g)) => same_head(f, g),
        (Item::Struct(s), Item::Struct(t)) => {
            &&& s.name@ == t.name@
            &&& surface::generic_names_view(s.generics@) == surface::generic_names_view(t.generics@)
            &&& s.linear == t.linear
            &&& same_fields(s.fields@, t.fields@)
        },
        (Item::Enum(e), Item::Enum(f)) => {
            &&& e.name@ == f.name@
            &&& surface::generic_names_view(e.generics@) == surface::generic_names_view(f.generics@)
            &&& same_variants(e.variants@, f.variants@)
        },
        (Item::Error(e), Item::Error(f)) => {
            &&& e.name@ == f.name@
            &&& text::strings_view(e.variants@) == text::strings_view(f.variants@)
        },
        (Item::Interface(d), Item::Interface(e)) => {
            &&& d.name@ == e.name@
            &&& surface::generic_names_view(d.generics@) == surface::generic_names_view(e.generics@)
            &&& d.is_capability == e.is_capability
            &&& same_methods(d.methods@, e.methods@)
        },
        (Item::Impl(i), Item::Impl(j)) => {
            &&& text::strings_view(i.interface@) == text::strings_view(j.interface@)
            &&& syntax::stypes_view(i.args@) == syntax::stypes_view(j.args@)
            &&& i.methods@.len() == j.methods@.len()
            &&& forall|k: int|
                0 <= k < i.methods@.len() ==> same_head(#[trigger] i.methods@[k], j.methods@[k])
        },
        _ => false,
    }
}

/// Modules of one name with the same imports, whose items declare the same, one
/// by one.
pub open spec fn same_outline(a: Module, b: Module) -> bool {
    &&& text::strings_view(a.name@) == text::strings_view(b.name@)
    &&& a.imports@.len() == b.imports@.len()
    &&& forall|i: int|
        0 <= i < a.imports@.len() ==> text::strings_view((#[trigger] a.imports@[i]).path@)
            == text::strings_view(b.imports@[i].path@) && text::strings_view(a.imports@[i].names@)
            == text::strings_view(b.imports@[i].names@)
    &&& a.items@.len() == b.items@.len()
    &&& forall|i: int| 0 <= i < a.items@.len() ==> same_decl(#[trigger] a.items@[i], b.items@[i])
}

/// Programs with the same outline, module by module.
pub open spec fn same_outlines(a: Seq<Module>, b: Seq<Module>) -> bool {
    &&& a.len() == b.len()
    &&& forall|i: int| 0 <= i < a.len() ==> same_outline(#[trigger] a[i], b[i])
}

/// Lowerers that stand in programs with the same outline.
pub open spec fn related(p: LowererView, q: LowererView) -> bool {
    &&& same_outlines(p.ms, q.ms)
    &&& same_outline(p.m, q.m)
    &&& p.reg == q.reg
    &&& p.subst == q.subst
    &&& p.inst == q.inst
}

// ---- one module ------------------------------------------------------------------------------------

proof fn lemma_path(a: Module, b: Module)
    requires
        same_outline(a, b),
    ensures
        decls::path_view(a) == decls::path_view(b),
{
}

proof fn lemma_import(a: Module, b: Module, name: Seq<char>)
    requires
        same_outline(a, b),
    ensures
        decls::import_of(a, name) == decls::import_of(b, name),
{
    let p = decls::imports_name(a, name);
    let q = decls::imports_name(b, name);
    let n = a.imports@.len() as int;
    assert forall|k: int| 0 <= k < n implies #[trigger] p(k) == q(k) by {
        assert(text::strings_view(a.imports@[k].names@) == text::strings_view(b.imports@[k].names@));
    }
    find::lemma_first_from_same(p, q, 0, n);
    find::lemma_first_from(p, 0, n);
}

/// Both absent, or declarations of the same fields.
pub open spec fn same_struct(a: Option<StructDecl>, b: Option<StructDecl>) -> bool {
    match (a, b) {
        (None, None) => true,
        (Some(s), Some(t)) => same_fields(s.fields@, t.fields@),
        _ => false,
    }
}

/// Both absent, or functions with the same header.
pub open spec fn same_opt_head(a: Option<FnDecl>, b: Option<FnDecl>) -> bool {
    match (a, b) {
        (None, None) => true,
        (Some(f), Some(g)) => same_head(f, g),
        _ => false,
    }
}

proof fn lemma_struct(a: Module, b: Module, name: Seq<char>)
    requires
        same_outline(a, b),
    ensures
        same_struct(decls::struct_named(a, name), decls::struct_named(b, name)),
{
    let p = decls::is_struct_named(a.items@, name);
    let q = decls::is_struct_named(b.items@, name);
    let n = a.items@.len() as int;
    assert forall|k: int| 0 <= k < n implies #[trigger] p(k) == q(k) by {
        assert(same_decl(a.items@[k], b.items@[k]));
    }
    find::lemma_last_below_same(p, q, n);
    find::lemma_last_below(p, n);
    if let Some(i) = find::last_below(p, n) {
        assert(same_decl(a.items@[i], b.items@[i]));
    }
}

proof fn lemma_fn(a: Module, b: Module, name: Seq<char>)
    requires
        same_outline(a, b),
    ensures
        same_opt_head(decls::fn_named(a, name), decls::fn_named(b, name)),
{
    let p = decls::is_fn_named(a.items@, name);
    let q = decls::is_fn_named(b.items@, name);
    let n = a.items@.len() as int;
    assert forall|k: int| 0 <= k < n implies #[trigger] p(k) == q(k) by {
        assert(same_decl(a.items@[k], b.items@[k]));
    }
    find::lemma_last_below_same(p, q, n);
    find::lemma_last_below(p, n);
    if let Some(i) = find::last_below(p, n) {
        assert(same_decl(a.items@[i], b.items@[i]));
    }
}

// ---- the whole program -----------------------------------------------------------------------------

proof fn lemma_last_item(
    p: spec_fn(int, int) -> bool,
    q: spec_fn(int, int) -> bool,
    a: Seq<Module>,
    b: Seq<Module>,
    n: int,
)
    requires
        same_outlines(a, b),
        n <= a.len(),
        forall|m: int, i: int|
            0 <= m < a.len() && 0 <= i < a[m].items@.len() ==> #[trigger] p(m, i) == q(m, i),
    ensures
        decls::last_item(p, decls::item_count(a), n) == decls::last_item(
            q,
            decls::item_count(b),
            n,
        ),
        decls::last_item(p, decls::item_count(a), n) matches Some((m, i)) ==> 0 <= m < n && 0 <= i
            < a[m].items@.len() && p(m, i),
    decreases n,
{
    if n > 0 {
        lemma_last_item(p, q, a, b, n - 1);
        let c = |i: int| p(n - 1, i);
        let d = |i: int| q(n - 1, i);
        let k = a[n - 1].items@.len() as int;
        assert(same_outline(a[n - 1], b[n - 1]));
        assert forall|i: int| 0 <= i < k implies #[trigger] c(i) == d(i) by {
            assert(p(n - 1, i) == q(n - 1, i));
        }
        find::lemma_last_below_same(c, d, k);
        find::lemma_last_below(c, k);
    }
}

/// Items at one place declare the same.
proof fn lemma_at(a: Seq<Module>, b: Seq<Module>, m: int, i: int)
    requires
        same_outlines(a, b),
        0 <= m < a.len(),
        0 <= i < a[m].items@.len(),
    ensures
        same_outline(a[m], b[m]),
        same_decl(a[m].items@[i], b[m].items@[i]),
        decls::sum_name(a[m].items@[i]) == decls::sum_name(b[m].items@[i]),
        decls::sum_qual(a[m], a[m].items@[i]) == decls::sum_qual(b[m], b[m].items@[i]),
        decls::variant_total(a[m].items@[i]) == decls::variant_total(b[m].items@[i]),
        decls::path_view(a[m]) == decls::path_view(b[m]),
{
    assert(same_outline(a[m], b[m]));
    assert(same_decl(a[m].items@[i], b[m].items@[i]));
    match (a[m].items@[i], b[m].items@[i]) {
        (Item::Error(e), Item::Error(f)) => {
            assert(text::strings_view(e.variants@).len() == e.variants@.len());
            assert(text::strings_view(f.variants@).len() == f.variants@.len());
        },
        _ => {},
    }
}

proof fn lemma_enum(a: Seq<Module>, b: Seq<Module>, name: Seq<char>)
    requires
        same_outlines(a, b),
    ensures
        decls::enum_qualified_view(a, name) == decls::enum_qualified_view(b, name),
        decls::variants_of(a, name) == decls::variants_of(b, name),
{
    let p = decls::is_sum_called(a, name);
    let q = decls::is_sum_called(b, name);
    assert forall|m: int, i: int| 0 <= m < a.len() && 0 <= i < a[m].items@.len() implies #[trigger] p(
        m,
        i,
    ) == q(m, i) by {
        lemma_at(a, b, m, i);
    }
    lemma_last_item(p, q, a, b, a.len() as int);
    if let Some((m, i)) = decls::last_item(p, decls::item_count(a), a.len() as int) {
        lemma_at(a, b, m, i);
    }
    let r = decls::is_sum_qualified(a, name);
    let s = decls::is_sum_qualified(b, name);
    assert forall|m: int, i: int| 0 <= m < a.len() && 0 <= i < a[m].items@.len() implies #[trigger] r(
        m,
        i,
    ) == s(m, i) by {
        lemma_at(a, b, m, i);
    }
    lemma_last_item(r, s, a, b, a.len() as int);
    if let Some((m, i)) = decls::last_item(r, decls::item_count(a), a.len() as int) {
        lemma_at(a, b, m, i);
    }
}

proof fn lemma_ctor_enum(a: Seq<Module>, b: Seq<Module>, c: CtorRef)
    requires
        same_outlines(a, b),
    ensures
        decls::ctor_enum(a, c) == decls::ctor_enum(b, c),
{
    if c.module < a.len() {
        assert(same_outline(a[c.module as int], b[c.module as int]));
        if c.item < a[c.module as int].items@.len() {
            lemma_at(a, b, c.module as int, c.item as int);
        }
    }
}

proof fn lemma_foreign(a: Seq<Module>, b: Seq<Module>, name: Seq<char>)
    requires
        same_outlines(a, b),
    ensures
        resolve::foreign(a, name) == resolve::foreign(b, name),
{
    let p = resolve::is_foreign_fn(a, name);
    let q = resolve::is_foreign_fn(b, name);
    assert forall|m: int, i: int| 0 <= m < a.len() && 0 <= i < a[m].items@.len() implies #[trigger] p(
        m,
        i,
    ) == q(m, i) by {
        lemma_at(a, b, m, i);
    }
    lemma_last_item(p, q, a, b, a.len() as int);
}

proof fn lemma_generic(a: Seq<Module>, b: Seq<Module>, name: Seq<char>)
    requires
        same_outlines(a, b),
    ensures
        decls::generic_named(a, name) == decls::generic_named(b, name),
        decls::generic_named(a, name) matches Some((m, i)) ==> 0 <= m < a.len() && same_opt_head(
            decls::fn_at(a, m, i),
            decls::fn_at(b, m, i),
        ) && decls::path_view(a[m]) == decls::path_view(b[m]),
{
    let p = decls::is_generic_fn(a, name);
    let q = decls::is_generic_fn(b, name);
    assert forall|m: int, i: int| 0 <= m < a.len() && 0 <= i < a[m].items@.len() implies #[trigger] p(
        m,
        i,
    ) == q(m, i) by {
        lemma_at(a, b, m, i);
    }
    lemma_last_item(p, q, a, b, a.len() as int);
    if let Some((m, i)) = decls::generic_named(a, name) {
        lemma_at(a, b, m, i);
    }
}

/// Functions at one place have the same header.
pub proof fn lemma_fn_at(a: Seq<Module>, b: Seq<Module>, m: int, i: int)
    requires
        same_outlines(a, b),
    ensures
        same_opt_head(decls::fn_at(a, m, i), decls::fn_at(b, m, i)),
{
    if 0 <= m < a.len() {
        assert(same_outline(a[m], b[m]));
        if 0 <= i < a[m].items@.len() {
            lemma_at(a, b, m, i);
        }
    }
}

proof fn lemma_has_method(v: Seq<MethodSig>, w: Seq<MethodSig>, name: Seq<char>)
    requires
        same_methods(v, w),
    ensures
        decls::has_method(v, name) == decls::has_method(w, name),
{
    if decls::has_method(v, name) {
        let k = choose|k: int| 0 <= k < v.len() && (#[trigger] v[k]).name@ == name;
        assert(w[k].name@ == name);
    }
    if decls::has_method(w, name) {
        let k = choose|k: int| 0 <= k < w.len() && (#[trigger] w[k]).name@ == name;
        assert(v[k].name@ == name);
    }
}

proof fn lemma_iface(a: Seq<Module>, b: Seq<Module>, name: Seq<char>)
    requires
        same_outlines(a, b),
    ensures
        decls::method_iface(a, name) == decls::method_iface(b, name),
{
    let p = decls::declares_method(a, name);
    let q = decls::declares_method(b, name);
    assert forall|m: int, i: int| 0 <= m < a.len() && 0 <= i < a[m].items@.len() implies #[trigger] p(
        m,
        i,
    ) == q(m, i) by {
        lemma_at(a, b, m, i);
        match (a[m].items@[i], b[m].items@[i]) {
            (Item::Interface(d), Item::Interface(e)) => lemma_has_method(
                d.methods@,
                e.methods@,
                name,
            ),
            _ => {},
        }
    }
    lemma_last_item(p, q, a, b, a.len() as int);
    if let Some((m, i)) = decls::last_item(p, decls::item_count(a), a.len() as int) {
        lemma_at(a, b, m, i);
    }
}

/// Implementations that declare the same are selected alike.
pub proof fn lemma_impl_names(i: ImplDecl, j: ImplDecl)
    requires
        same_decl(Item::Impl(i), Item::Impl(j)),
    ensures
        decls::impl_iface(i) == decls::impl_iface(j),
        decls::impl_key(i) == decls::impl_key(j),
{
    broadcast use syntax::lemma_stypes_view;

    assert(syntax::stypes_view(i.args@).len() == i.args@.len());
    assert(syntax::stypes_view(j.args@).len() == j.args@.len());
}

proof fn lemma_defines(i: ImplDecl, j: ImplDecl, name: Seq<char>)
    requires
        same_decl(Item::Impl(i), Item::Impl(j)),
    ensures
        decls::defines_fn(i.methods@, name) == decls::defines_fn(j.methods@, name),
{
    let v = i.methods@;
    let w = j.methods@;
    if decls::defines_fn(v, name) {
        let k = choose|k: int| 0 <= k < v.len() && (#[trigger] v[k]).name@ == name;
        assert(same_head(v[k], w[k]));
    }
    if decls::defines_fn(w, name) {
        let k = choose|k: int| 0 <= k < w.len() && (#[trigger] w[k]).name@ == name;
        assert(same_head(v[k], w[k]));
    }
}

proof fn lemma_impl_method(
    a: Seq<Module>,
    b: Seq<Module>,
    iface: Seq<char>,
    key: Seq<char>,
    name: Seq<char>,
)
    requires
        same_outlines(a, b),
    ensures
        decls::impl_method(a, iface, key, name) == decls::impl_method(b, iface, key, name),
{
    let p = decls::is_impl_of(a, iface, key);
    let q = decls::is_impl_of(b, iface, key);
    assert forall|m: int, i: int| 0 <= m < a.len() && 0 <= i < a[m].items@.len() implies #[trigger] p(
        m,
        i,
    ) == q(m, i) by {
        lemma_at(a, b, m, i);
        match (a[m].items@[i], b[m].items@[i]) {
            (Item::Impl(x), Item::Impl(y)) => lemma_impl_names(x, y),
            _ => {},
        }
    }
    lemma_last_item(p, q, a, b, a.len() as int);
    if let Some((m, i)) = decls::last_item(p, decls::item_count(a), a.len() as int) {
        lemma_at(a, b, m, i);
        match (a[m].items@[i], b[m].items@[i]) {
            (Item::Impl(x), Item::Impl(y)) => lemma_defines(x, y, name),
            _ => {},
        }
    }
}

// ---- the table of constructors ------------------------------------------------------------------------

proof fn lemma_variants(r: RegView, a: Seq<Module>, b: Seq<Module>, m: int, i: int, k: nat)
    requires
        same_outlines(a, b),
        0 <= m < a.len(),
        0 <= i < a[m].items@.len(),
        k <= decls::variant_total(a[m].items@[i]),
    ensures
        decls::reg_variants(r, a, m, i, k) == decls::reg_variants(r, b, m, i, k),
    decreases k,
{
    broadcast use syntax::lemma_stypes_view;

    lemma_at(a, b, m, i);
    if k > 0 {
        lemma_variants(r, a, b, m, i, (k - 1) as nat);
        match (a[m].items@[i], b[m].items@[i]) {
            (Item::Enum(e), Item::Enum(f)) => {
                let v = e.variants@[k - 1];
                let w = f.variants@[k - 1];
                assert(v.name@ == w.name@);
                assert(syntax::stypes_view(v.fields@).len() == v.fields@.len());
                assert(syntax::stypes_view(w.fields@).len() == w.fields@.len());
            },
            (Item::Error(e), Item::Error(f)) => {
                assert(text::strings_view(e.variants@)[k - 1] == e.variants@[k - 1]@);
                assert(text::strings_view(f.variants@)[k - 1] == f.variants@[k - 1]@);
            },
            _ => {},
        }
    }
}

proof fn lemma_items(r: RegView, a: Seq<Module>, b: Seq<Module>, m: int, n: nat)
    requires
        same_outlines(a, b),
        0 <= m < a.len(),
        n <= a[m].items@.len(),
    ensures
        decls::reg_items(r, a, m, n) == decls::reg_items(r, b, m, n),
    decreases n,
{
    if n > 0 {
        lemma_items(r, a, b, m, (n - 1) as nat);
        lemma_at(a, b, m, n - 1);
        lemma_variants(
            decls::reg_items(r, a, m, (n - 1) as nat),
            a,
            b,
            m,
            n - 1,
            decls::variant_total(a[m].items@[n - 1]),
        );
    }
}

/// Programs with one outline have one table of constructors.
pub proof fn lemma_table(a: Seq<Module>, b: Seq<Module>, n: nat)
    requires
        same_outlines(a, b),
        n <= a.len(),
    ensures
        decls::reg_modules(a, n) == decls::reg_modules(b, n),
    decreases n,
{
    if n > 0 {
        lemma_table(a, b, (n - 1) as nat);
        assert(same_outline(a[n - 1], b[n - 1]));
        lemma_items(decls::reg_modules(a, (n - 1) as nat), a, b, n - 1, a[n - 1].items@.len());
    }
}

// ---- names and types in a lowerer -----------------------------------------------------------------------

proof fn lemma_quals(p: LowererView, q: LowererView, name: Seq<char>)
    requires
        related(p, q),
    ensures
        resolve::type_qual(p, name) == resolve::type_qual(q, name),
        resolve::struct_qual(p, name) == resolve::struct_qual(q, name),
        resolve::value_qual(p, name) == resolve::value_qual(q, name),
        resolve::missing_enum(p, name) == resolve::missing_enum(q, name),
{
    lemma_path(p.m, q.m);
    lemma_import(p.m, q.m, name);
    lemma_struct(p.m, q.m, name);
    lemma_fn(p.m, q.m, name);
    lemma_enum(p.ms, q.ms, name);
}

proof fn lemma_global(p: LowererView, q: LowererView, sc: ScopeView, name: Seq<char>)
    requires
        related(p, q),
    ensures
        resolve::global_ref(p, sc, name) == resolve::global_ref(q, sc, name),
{
    lemma_quals(p, q, name);
    lemma_foreign(p.ms, q.ms, resolve::value_qual(p, name));
}

proof fn lemma_named(p: LowererView, q: LowererView, path: Seq<Seq<char>>, args: Seq<TypeView>)
    requires
        related(p, q),
    ensures
        resolve::named_type(p, path, args) == resolve::named_type(q, path, args),
{
    reveal(resolve::named_type);
    if path.len() == 1 {
        lemma_quals(p, q, path[0]);
    }
}

proof fn lemma_type(
    p: LowererView,
    q: LowererView,
    t: STypeView,
    generics: Seq<Seq<char>>,
    fuel: nat,
)
    requires
        related(p, q),
    ensures
        resolve::type_s(p, t, generics, fuel) == resolve::type_s(q, t, generics, fuel),
    decreases fuel, 1nat, t, 0nat,
{
    match t {
        STypeView::Unit => {},
        STypeView::Named(path) => lemma_type_path(p, q, path, generics, fuel),
        STypeView::Generic { path, args } => {
            lemma_types(p, q, args, args.len(), generics, fuel);
            lemma_named(p, q, path, resolve::types_s(p, args, args.len(), generics, fuel));
        },
        STypeView::Slice(inner) => lemma_type(p, q, *inner, generics, fuel),
        STypeView::Array { len, elem } => lemma_type(p, q, *elem, generics, fuel),
        STypeView::Ref { mutable, inner } => lemma_type(p, q, *inner, generics, fuel),
        STypeView::ErrorUnion(o) => match o {
            Some(e) => lemma_type(p, q, *e, generics, fuel),
            None => {},
        },
        STypeView::Optional(inner) => lemma_type(p, q, *inner, generics, fuel),
    }
}

proof fn lemma_type_path(
    p: LowererView,
    q: LowererView,
    path: Seq<Seq<char>>,
    generics: Seq<Seq<char>>,
    fuel: nat,
)
    requires
        related(p, q),
    ensures
        resolve::path_s(p, path, generics, fuel) == resolve::path_s(q, path, generics, fuel),
    decreases fuel, 0nat, path, 0nat,
{
    lemma_named(p, q, path, Seq::empty());
    if path.len() == 1 && fuel > 0 {
        if let Some(t) = surface::bound_type(p.subst, path[0]) {
            lemma_type(p, q, t, generics, (fuel - 1) as nat);
        }
    }
}

proof fn lemma_types(
    p: LowererView,
    q: LowererView,
    v: Seq<STypeView>,
    n: nat,
    generics: Seq<Seq<char>>,
    fuel: nat,
)
    requires
        related(p, q),
    ensures
        resolve::types_s(p, v, n, generics, fuel) == resolve::types_s(q, v, n, generics, fuel),
    decreases fuel, 1nat, v, n,
{
    if n > 0 && n <= v.len() {
        lemma_types(p, q, v, (n - 1) as nat, generics, fuel);
        lemma_type(p, q, v[n - 1], generics, fuel);
    }
}

/// Fields that are the same are found at the same position.
pub proof fn lemma_field_index(v: Seq<Field>, w: Seq<Field>, name: Seq<char>)
    requires
        same_fields(v, w),
    ensures
        resolve::field_index(v, name) == resolve::field_index(w, name),
        resolve::field_index(v, name) matches Some(i) ==> 0 <= i < v.len(),
{
    let p = resolve::is_field_named(v, name);
    let q = resolve::is_field_named(w, name);
    assert forall|k: int| 0 <= k < v.len() implies #[trigger] p(k) == q(k) by {
        assert(v[k].name@ == w[k].name@);
    }
    find::lemma_first_from_same(p, q, 0, v.len() as int);
    find::lemma_first_from(p, 0, v.len() as int);
}

proof fn lemma_field(p: LowererView, q: LowererView, bt: STypeView, field: Seq<char>)
    requires
        related(p, q),
    ensures
        resolve::field_type(p, bt, field) == resolve::field_type(q, bt, field),
        resolve::projection(p, Some(bt), field) == resolve::projection(q, Some(bt), field),
{
    if let Some(s) = surface::struct_name_view(bt) {
        lemma_struct(p.m, q.m, s);
        match (decls::struct_named(p.m, s), decls::struct_named(q.m, s)) {
            (Some(d), Some(e)) => lemma_field_index(d.fields@, e.fields@, field),
            _ => {},
        }
    }
}

proof fn lemma_expr_type(p: LowererView, q: LowererView, e: Expr, sc: ScopeView)
    requires
        related(p, q),
    ensures
        resolve::expr_type(p, e, sc) == resolve::expr_type(q, e, sc),
    decreases e,
{
    match e {
        Expr::Field(base, field) => {
            lemma_expr_type(p, q, *base, sc);
            if let Some(bt) = resolve::expr_type(p, *base, sc) {
                lemma_field(p, q, bt, field@);
            }
        },
        Expr::Call(callee, _) => match *callee {
            Expr::Var(f) => lemma_fn(p.m, q.m, f@),
            _ => {},
        },
        Expr::Index(base, _) => lemma_expr_type(p, q, *base, sc),
        Expr::Unary(op, operand) => lemma_expr_type(p, q, *operand, sc),
        _ => {},
    }
}

proof fn lemma_iterated(p: LowererView, q: LowererView, t: STypeView)
    requires
        related(p, q),
    ensures
        resolve::iterated(p, t) == resolve::iterated(q, t),
{
    match surface::peel_view(t) {
        STypeView::Generic { path, args } => if path.len() == 1 {
            lemma_quals(p, q, path[0]);
        },
        _ => {},
    }
}

// ---- instances ------------------------------------------------------------------------------------------

proof fn lemma_dispatch(p: LowererView, q: LowererView, name: Seq<char>)
    requires
        related(p, q),
    ensures
        resolve::dispatch(p, name) == resolve::dispatch(q, name),
{
    reveal(resolve::dispatch);
    lemma_iface(p.ms, q.ms, name);
    match (p.inst, decls::method_iface(p.ms, name)) {
        (Some(args), Some(iface)) => {
            let c = resolve::satisfies_bound(p, iface, name);
            let d = resolve::satisfies_bound(q, iface, name);
            let n = args.len() as int;
            assert forall|k: int| 0 <= k < n implies #[trigger] c(k) == d(k) by {
                lemma_impl_method(p.ms, q.ms, iface, args[k].key, name);
            }
            find::lemma_first_from_same(c, d, 0, n);
            if let Some(i) = find::first_from(c, 0, n) {
                lemma_impl_method(p.ms, q.ms, iface, args[i].key, name);
            }
        },
        _ => {},
    }
}

proof fn lemma_solve(
    p: LowererView,
    q: LowererView,
    v: Seq<Param>,
    w: Seq<Param>,
    args: Seq<Expr>,
    n: nat,
    generics: Seq<Seq<char>>,
    sc: ScopeView,
)
    requires
        related(p, q),
        same_params(v, w),
        n <= v.len(),
    ensures
        resolve::solve(p, v, args, n, generics, sc) == resolve::solve(q, w, args, n, generics, sc),
    decreases n,
{
    if n > 0 {
        lemma_solve(p, q, v, w, args, (n - 1) as nat, generics, sc);
        lemma_expr_type(p, q, args[n - 1], sc);
        assert(v[n - 1].ty@ == w[n - 1].ty@);
    }
}

proof fn lemma_solved(
    m: Seq<(Seq<char>, STypeView)>,
    v: Seq<Generic>,
    w: Seq<Generic>,
    n: nat,
)
    requires
        same_generics(v, w),
        n <= v.len(),
    ensures
        resolve::solved_args(m, v, n) == resolve::solved_args(m, w, n),
    decreases n,
{
    if n > 0 {
        lemma_solved(m, v, w, (n - 1) as nat);
        assert(v[n - 1].name@ == w[n - 1].name@);
    }
}

proof fn lemma_calls(
    p: LowererView,
    q: LowererView,
    name: Seq<char>,
    args: Seq<Expr>,
    elem: STypeView,
    sc: ScopeView,
    pend: PendView,
)
    requires
        related(p, q),
    ensures
        resolve::generic_call(p, name, args, sc, pend) == resolve::generic_call(
            q,
            name,
            args,
            sc,
            pend,
        ),
        resolve::iterator_call(p, name, elem, pend) == resolve::iterator_call(q, name, elem, pend),
{
    reveal(resolve::generic_call);
    reveal(resolve::iterator_call);
    lemma_generic(p.ms, q.ms, name);
    if let Some((gm, gi)) = decls::generic_named(p.ms, name) {
        match (decls::fn_at(p.ms, gm, gi), decls::fn_at(q.ms, gm, gi)) {
            (Some(f), Some(g)) => {
                let names = surface::generic_names_view(f.generics@);
                assert(names =~= surface::generic_names_view(g.generics@));
                if f.params@.len() == args.len() {
                    lemma_solve(p, q, f.params@, g.params@, args, args.len(), names, sc);
                    if let Some(m) = resolve::solve(p, f.params@, args, args.len(), names, sc) {
                        lemma_solved(m, f.generics@, g.generics@, f.generics@.len());
                    }
                }
                if f.generics@.len() > 0 {
                    assert(f.generics@[0].name@ == g.generics@[0].name@);
                    lemma_solved(
                        seq![(f.generics@[0].name@, elem)],
                        f.generics@,
                        g.generics@,
                        f.generics@.len(),
                    );
                }
            },
            _ => {},
        }
    }
}

// ---- all that lowering asks ----------------------------------------------------------------------------

/// Lowerers that answer alike whatever lowering asks them.
#[verifier::opaque]
pub open spec fn like(p: LowererView, q: LowererView) -> bool {
    &&& p.reg == q.reg
    &&& p.subst == q.subst
    &&& decls::path_view(p.m) == decls::path_view(q.m)
    &&& forall|name: Seq<char>| #[trigger]
        resolve::missing_enum(p, name) == resolve::missing_enum(q, name)
    &&& forall|name: Seq<char>| #[trigger]
        resolve::struct_qual(p, name) == resolve::struct_qual(q, name)
    &&& forall|sc: ScopeView, name: Seq<char>| #[trigger]
        resolve::global_ref(p, sc, name) == resolve::global_ref(q, sc, name)
    &&& forall|name: Seq<char>|
        same_struct(#[trigger] decls::struct_named(p.m, name), decls::struct_named(q.m, name))
    &&& forall|c: CtorRef| #[trigger] decls::ctor_enum(p.ms, c) == decls::ctor_enum(q.ms, c)
    &&& forall|name: Seq<char>| #[trigger]
        decls::variants_of(p.ms, name) == decls::variants_of(q.ms, name)
    &&& forall|t: STypeView, g: Seq<Seq<char>>| #[trigger]
        resolve::ty_s(p, t, g) == resolve::ty_s(q, t, g)
    &&& forall|e: Expr, sc: ScopeView| #[trigger]
        resolve::expr_type(p, e, sc) == resolve::expr_type(q, e, sc)
    &&& forall|bt: STypeView, f: Seq<char>| #[trigger]
        resolve::field_type(p, bt, f) == resolve::field_type(q, bt, f)
    &&& forall|bt: Option<STypeView>, f: Seq<char>| #[trigger]
        resolve::projection(p, bt, f) == resolve::projection(q, bt, f)
    &&& forall|v: Seq<Expr>, sc: ScopeView| #[trigger]
        emit::elem_view(p, v, sc) == emit::elem_view(q, v, sc)
    &&& forall|t: STypeView| #[trigger] resolve::iterated(p, t) == resolve::iterated(q, t)
    &&& forall|name: Seq<char>| #[trigger]
        resolve::dispatch(p, name) == resolve::dispatch(q, name)
    &&& forall|name: Seq<char>, args: Seq<Expr>, sc: ScopeView, pend: PendView| #[trigger]
        resolve::generic_call(p, name, args, sc, pend) == resolve::generic_call(
            q,
            name,
            args,
            sc,
            pend,
        )
    &&& forall|name: Seq<char>, elem: STypeView, pend: PendView| #[trigger]
        resolve::iterator_call(p, name, elem, pend) == resolve::iterator_call(q, name, elem, pend)
}

/// Lowerers in programs with the same outline answer alike.
pub proof fn lemma_like(p: LowererView, q: LowererView)
    requires
        related(p, q),
    ensures
        like(p, q),
{
    reveal(like);
    lemma_path(p.m, q.m);
    assert forall|name: Seq<char>| #[trigger]
        resolve::missing_enum(p, name) == resolve::missing_enum(q, name) by {
        lemma_quals(p, q, name);
    }
    assert forall|name: Seq<char>| #[trigger]
        resolve::struct_qual(p, name) == resolve::struct_qual(q, name) by {
        lemma_quals(p, q, name);
    }
    assert forall|sc: ScopeView, name: Seq<char>| #[trigger]
        resolve::global_ref(p, sc, name) == resolve::global_ref(q, sc, name) by {
        lemma_global(p, q, sc, name);
    }
    assert forall|name: Seq<char>|
        same_struct(#[trigger] decls::struct_named(p.m, name), decls::struct_named(q.m, name)) by {
        lemma_struct(p.m, q.m, name);
    }
    assert forall|c: CtorRef| #[trigger] decls::ctor_enum(p.ms, c) == decls::ctor_enum(q.ms, c) by {
        lemma_ctor_enum(p.ms, q.ms, c);
    }
    assert forall|name: Seq<char>| #[trigger]
        decls::variants_of(p.ms, name) == decls::variants_of(q.ms, name) by {
        lemma_enum(p.ms, q.ms, name);
    }
    assert forall|t: STypeView, g: Seq<Seq<char>>| #[trigger]
        resolve::ty_s(p, t, g) == resolve::ty_s(q, t, g) by {
        lemma_type(p, q, t, g, p.subst.len());
    }
    assert forall|e: Expr, sc: ScopeView| #[trigger]
        resolve::expr_type(p, e, sc) == resolve::expr_type(q, e, sc) by {
        lemma_expr_type(p, q, e, sc);
    }
    assert forall|bt: STypeView, f: Seq<char>| #[trigger]
        resolve::field_type(p, bt, f) == resolve::field_type(q, bt, f) by {
        lemma_field(p, q, bt, f);
    }
    assert forall|bt: Option<STypeView>, f: Seq<char>| #[trigger]
        resolve::projection(p, bt, f) == resolve::projection(q, bt, f) by {
        if let Some(t) = bt {
            lemma_field(p, q, t, f);
        }
    }
    assert forall|v: Seq<Expr>, sc: ScopeView| #[trigger]
        emit::elem_view(p, v, sc) == emit::elem_view(q, v, sc) by {
        reveal(emit::elem_view);
        if v.len() > 0 {
            lemma_expr_type(p, q, v[0], sc);
            if let Some(t) = resolve::arg_type(p, v[0], sc) {
                lemma_type(p, q, t, Seq::empty(), p.subst.len());
            }
        }
    }
    assert forall|t: STypeView| #[trigger]
        resolve::iterated(p, t) == resolve::iterated(q, t) by {
        lemma_iterated(p, q, t);
    }
    assert forall|name: Seq<char>| #[trigger]
        resolve::dispatch(p, name) == resolve::dispatch(q, name) by {
        lemma_dispatch(p, q, name);
    }
    assert forall|name: Seq<char>, args: Seq<Expr>, sc: ScopeView, pend: PendView| #[trigger]
        resolve::generic_call(p, name, args, sc, pend) == resolve::generic_call(
            q,
            name,
            args,
            sc,
            pend,
        ) by {
        lemma_calls(p, q, name, args, STypeView::Unit, sc, pend);
    }
    assert forall|name: Seq<char>, elem: STypeView, pend: PendView| #[trigger]
        resolve::iterator_call(p, name, elem, pend) == resolve::iterator_call(
            q,
            name,
            elem,
            pend,
        ) by {
        lemma_calls(
            p,
            q,
            name,
            Seq::empty(),
            elem,
            ScopeView { binds: Seq::empty(), unsafe_ok: false },
            pend,
        );
    }
}

} // verus!
