//! Programs that differ in the names of parameters and locals only are the same
//! program.
use vstd::prelude::*;

use crate::alike;
use crate::alike_block;
use crate::alike_context;
use crate::alike_expr;
use crate::decls;
use crate::lower;
use crate::lower::LoweredView;
use crate::outline;
use crate::resolve;
use crate::scope::{LowererView, PendView, ReqView};
use crate::surface;
use crate::syntax;
use crate::syntax::{EnumDecl, ErrorDecl, FnDecl, ImplDecl, InterfaceDecl, Item, Module, SType, StructDecl};
use crate::text;

verus! {

/// Functions that differ in their docs only.
pub open spec fn same_but_docs(a: FnDecl, b: FnDecl) -> bool {
    b == FnDecl { docs: b.docs, ..a }
}

/// Functions that differ in the names of parameters and locals and in their docs
/// only. A function whose docs alone change needs nothing more.
pub open spec fn same_function(m: Module, a: FnDecl, b: FnDecl) -> bool {
    alike::same_fn(m, a, b) || same_but_docs(a, b)
}

/// Items whose functions differ in the names of parameters and locals and in
/// their docs only.
pub open spec fn same_code(m: Module, a: Item, b: Item) -> bool {
    match (a, b) {
        (Item::Fn(f), Item::Fn(g)) => same_function(m, f, g),
        (Item::Impl(i), Item::Impl(j)) => forall|k: int|
            0 <= k < i.methods@.len() ==> same_function(m, #[trigger] i.methods@[k], j.methods@[k]),
        _ => true,
    }
}

/// Modules that differ in the names of parameters and locals and in docs only:
/// they have the same name, imports and declarations, and their functions are
/// alike, one by one.
pub open spec fn same_module(a: Module, b: Module) -> bool {
    &&& outline::same_outline(a, b)
    &&& forall|i: int| 0 <= i < a.items@.len() ==> same_code(a, #[trigger] a.items@[i], b.items@[i])
}

/// Programs whose modules are alike, one by one.
pub open spec fn same_program(a: Seq<Module>, b: Seq<Module>) -> bool {
    &&& a.len() == b.len()
    &&& forall|i: int| 0 <= i < a.len() ==> same_module(#[trigger] a[i], b[i])
}

proof fn lemma_param_scope(lw: LowererView, a: FnDecl, b: FnDecl, n: nat)
    requires
        same_but_docs(a, b),
    ensures
        lower::param_scope(lw, a, n) == lower::param_scope(lw, b, n),
    decreases n,
{
    if n > 0 {
        lemma_param_scope(lw, a, b, (n - 1) as nat);
    }
}

/// The docs of a function are no part of its definition.
pub proof fn lemma_docs_are_no_part_of_a_function(
    lw: LowererView,
    a: FnDecl,
    b: FnDecl,
    pend: PendView,
)
    requires
        same_but_docs(a, b),
    ensures
        lower::fn_s(lw, a, pend) == lower::fn_s(lw, b, pend),
{
    lemma_param_scope(lw, a, b, a.params@.len());
    assert(lower::param_types(lw, a) =~= lower::param_types(lw, b));
}

proof fn lemma_fn(p: LowererView, q: LowererView, f: FnDecl, g: FnDecl, pend: PendView)
    requires
        outline::like(p, q),
        same_function(p.m, f, g),
    ensures
        alike_expr::agree(lower::fn_s(p, f, pend), lower::fn_s(q, g, pend)),
{
    if same_but_docs(f, g) {
        lemma_docs_are_no_part_of_a_function(p, f, g, pend);
    } else {
        alike_block::lemma_renaming_keeps_a_function(p, f, g, pend);
    }
    alike_context::lemma_function(p, q, g, pend);
}

// ---- items -------------------------------------------------------------------------------------------

proof fn lemma_impl(
    p: LowererView,
    q: LowererView,
    i: ImplDecl,
    j: ImplDecl,
    n: nat,
    l: LoweredView,
    pend: PendView,
)
    requires
        outline::like(p, q),
        outline::same_decl(Item::Impl(i), Item::Impl(j)),
        same_code(p.m, Item::Impl(i), Item::Impl(j)),
        n <= i.methods@.len(),
    ensures
        alike_expr::agree(lower::impl_s(p, i, n, l, pend), lower::impl_s(q, j, n, l, pend)),
    decreases n,
{
    if n > 0 {
        lemma_impl(p, q, i, j, (n - 1) as nat, l, pend);
        if let Ok((l1, names, pend1)) = lower::impl_s(p, i, (n - 1) as nat, l, pend) {
            let f = i.methods@[n - 1];
            let g = j.methods@[n - 1];
            assert(same_function(p.m, f, g));
            assert(outline::same_head(f, g));
            lemma_fn(p, q, f, g, pend1);
            outline::lemma_impl_names(i, j);
            assert(decls::path_view(p.m) == decls::path_view(q.m)) by {
                reveal(outline::like);
            }
        }
    }
}

proof fn lemma_struct_def(p: LowererView, q: LowererView, s: StructDecl, t: StructDecl)
    requires
        outline::like(p, q),
        outline::same_decl(Item::Struct(s), Item::Struct(t)),
    ensures
        lower::struct_def(p, s) == lower::struct_def(q, t),
{
    reveal(outline::like);
    let g = surface::generic_names_view(s.generics@);
    assert(lower::field_types(p, s.fields@, g) =~= lower::field_types(q, t.fields@, g)) by {
        assert forall|i: int| 0 <= i < s.fields@.len() implies resolve::ty_s(
            p,
            (#[trigger] s.fields@[i]).ty@,
            g,
        ) == resolve::ty_s(q, t.fields@[i].ty@, g) by {}
    }
}

proof fn lemma_plain_types(
    p: LowererView,
    q: LowererView,
    v: Seq<SType>,
    w: Seq<SType>,
    g: Seq<Seq<char>>,
)
    requires
        outline::like(p, q),
        syntax::stypes_view(v) == syntax::stypes_view(w),
    ensures
        lower::plain_types(p, v, g) == lower::plain_types(q, w, g),
{
    broadcast use syntax::lemma_stypes_view;

    reveal(outline::like);
    assert(syntax::stypes_view(v).len() == v.len());
    assert(syntax::stypes_view(w).len() == w.len());
    assert forall|i: int| 0 <= i < v.len() implies (#[trigger] v[i])@ == w[i]@ by {
        assert(syntax::stypes_view(v)[i] == v[i]@);
        assert(syntax::stypes_view(w)[i] == w[i]@);
    }
    assert(lower::plain_types(p, v, g) =~= lower::plain_types(q, w, g));
}

proof fn lemma_enum_info(p: LowererView, q: LowererView, e: EnumDecl, f: EnumDecl)
    requires
        outline::like(p, q),
        outline::same_decl(Item::Enum(e), Item::Enum(f)),
    ensures
        lower::enum_info(p, e) == lower::enum_info(q, f),
{
    let g = surface::generic_names_view(e.generics@);
    let v = lower::enum_info(p, e);
    let w = lower::enum_info(q, f);
    assert forall|i: int| 0 <= i < e.variants@.len() implies v[i] == w[i] by {
        assert(e.variants@[i].name@ == f.variants@[i].name@);
        lemma_plain_types(p, q, e.variants@[i].fields@, f.variants@[i].fields@, g);
    }
    assert(v =~= w);
}

proof fn lemma_error_info(e: ErrorDecl, f: ErrorDecl)
    requires
        outline::same_decl(Item::Error(e), Item::Error(f)),
    ensures
        lower::error_info(e) == lower::error_info(f),
{
    assert(text::strings_view(e.variants@).len() == e.variants@.len());
    assert(text::strings_view(f.variants@).len() == f.variants@.len());
    assert forall|i: int| 0 <= i < e.variants@.len() implies (#[trigger] e.variants@[i])@
        == f.variants@[i]@ by {
        assert(text::strings_view(e.variants@)[i] == e.variants@[i]@);
        assert(text::strings_view(f.variants@)[i] == f.variants@[i]@);
    }
    assert(lower::error_info(e) =~= lower::error_info(f));
}

proof fn lemma_iface_info(p: LowererView, q: LowererView, d: InterfaceDecl, e: InterfaceDecl)
    requires
        outline::like(p, q),
        outline::same_decl(Item::Interface(d), Item::Interface(e)),
    ensures
        lower::iface_info(p, d) == lower::iface_info(q, e),
{
    reveal(outline::like);
    let g = surface::generic_names_view(d.generics@);
    let v = lower::sig_views(p, d);
    let w = lower::sig_views(q, e);
    assert forall|i: int| 0 <= i < d.methods@.len() implies v[i] == w[i] by {
        let x = d.methods@[i];
        let y = e.methods@[i];
        assert(x.name@ == y.name@);
        assert(v[i].params =~= w[i].params) by {
            assert forall|k: int| 0 <= k < x.params@.len() implies resolve::ty_s(
                p,
                (#[trigger] x.params@[k]).ty@,
                g,
            ) == resolve::ty_s(q, y.params@[k].ty@, g) by {}
        }
    }
    assert(v =~= w);
    assert(lower::iface_info(p, d).methods =~= lower::iface_info(q, e).methods);
}

proof fn lemma_item(
    p: LowererView,
    q: LowererView,
    a: Item,
    b: Item,
    l: LoweredView,
    pend: PendView,
)
    requires
        outline::like(p, q),
        outline::same_decl(a, b),
        same_code(p.m, a, b),
    ensures
        alike_expr::agree(lower::item_lower_s(p, a, l, pend), lower::item_lower_s(q, b, l, pend)),
{
    match (a, b) {
        (Item::Fn(f), Item::Fn(g)) => lemma_fn(p, q, f, g, pend),
        (Item::Struct(s), Item::Struct(t)) => lemma_struct_def(p, q, s, t),
        (Item::Enum(e), Item::Enum(f)) => lemma_enum_info(p, q, e, f),
        (Item::Error(e), Item::Error(f)) => lemma_error_info(e, f),
        (Item::Interface(d), Item::Interface(e)) => lemma_iface_info(p, q, d, e),
        (Item::Impl(i), Item::Impl(j)) => {
            lemma_impl(p, q, i, j, i.methods@.len(), l, pend);
            outline::lemma_impl_names(i, j);
        },
        _ => {},
    }
}

// ---- modules -----------------------------------------------------------------------------------------

proof fn lemma_base(p: LowererView, q: LowererView, n: nat, pend: PendView)
    requires
        outline::like(p, q),
        same_module(p.m, q.m),
        n <= p.m.items@.len(),
    ensures
        alike_expr::agree(lower::base_s(p, n, pend), lower::base_s(q, n, pend)),
    decreases n,
{
    if n > 0 {
        lemma_base(p, q, (n - 1) as nat, pend);
        if let Ok((l, pend1)) = lower::base_s(p, (n - 1) as nat, pend) {
            let a = p.m.items@[n - 1];
            let b = q.m.items@[n - 1];
            assert(outline::same_decl(a, b));
            assert(same_code(p.m, a, b));
            lemma_item(p, q, a, b, l, pend1);
        }
    }
}

proof fn lemma_outlines(a: Seq<Module>, b: Seq<Module>)
    requires
        same_program(a, b),
    ensures
        outline::same_outlines(a, b),
        decls::reg_modules(a, a.len()) == decls::reg_modules(b, b.len()),
{
    assert forall|i: int| 0 <= i < a.len() implies outline::same_outline(#[trigger] a[i], b[i]) by {
        assert(same_module(a[i], b[i]));
    }
    outline::lemma_table(a, b, a.len());
}

proof fn lemma_bases(a: Seq<Module>, b: Seq<Module>, n: nat)
    requires
        same_program(a, b),
        n <= a.len(),
    ensures
        alike_expr::agree(lower::bases_s(a, n), lower::bases_s(b, n)),
    decreases n,
{
    if n > 0 {
        lemma_bases(a, b, (n - 1) as nat);
        if let Ok((out, pend)) = lower::bases_s(a, (n - 1) as nat) {
            let p = lower::plain(a, n - 1);
            let q = lower::plain(b, n - 1);
            lemma_outlines(a, b);
            assert(same_module(a[n - 1], b[n - 1]));
            outline::lemma_like(p, q);
            lemma_base(p, q, p.m.items@.len(), pend);
        }
    }
}

proof fn lemma_instance(
    a: Seq<Module>,
    b: Seq<Module>,
    out: Seq<LoweredView>,
    r: ReqView,
    pend: PendView,
)
    requires
        same_program(a, b),
    ensures
        alike_expr::agree(
            lower::instance_s(a, out, r, pend),
            lower::instance_s(b, out, r, pend),
        ),
{
    let m = r.at.module as int;
    let i = r.at.item as int;
    lemma_outlines(a, b);
    outline::lemma_fn_at(a, b, m, i);
    match (decls::fn_at(a, m, i), decls::fn_at(b, m, i)) {
        (Some(f), Some(g)) => {
            assert(same_module(a[m], b[m]));
            assert(same_code(a[m], a[m].items@[i], b[m].items@[i]));
            let p = lower::instance_lowerer(a, r);
            let q = lower::instance_lowerer(b, r);
            outline::lemma_like(p, q);
            lemma_fn(p, q, f, g, pend);
        },
        _ => {},
    }
}

proof fn lemma_instances(
    a: Seq<Module>,
    b: Seq<Module>,
    out: Seq<LoweredView>,
    pend: PendView,
    fuel: nat,
)
    requires
        same_program(a, b),
    ensures
        alike_expr::agree(
            lower::instances_s(a, out, pend, fuel),
            lower::instances_s(b, out, pend, fuel),
        ),
    decreases fuel,
{
    if pend.queue.len() > 0 && fuel > 0 {
        let r = pend.queue.last();
        let rest = PendView { queue: pend.queue.drop_last(), ..pend };
        lemma_instance(a, b, out, r, rest);
        if let Ok((out1, pend1)) = lower::instance_s(a, out, r, rest) {
            lemma_instances(a, b, out1, pend1, (fuel - 1) as nat);
        }
    }
}

/// Renaming parameters and locals and rewriting docs changes nothing of a program:
/// two programs whose modules are alike are lowered to the same modules, with the
/// same definitions under the same names and the same hashes, or both are refused.
pub proof fn lemma_renaming_keeps_a_program(a: Seq<Module>, b: Seq<Module>)
    requires
        same_program(a, b),
    ensures
        match (lower::lower_s(a), lower::lower_s(b)) {
            (Ok(v), Ok(w)) => {
                &&& v.len() == a.len()
                &&& v == w
                &&& forall|i: int, k: int|
                    0 <= i < v.len() && 0 <= k < v[i].defs.len() ==> (#[trigger] v[i].defs[k]).hash
                        == w[i].defs[k].hash
            },
            (Err(_), Err(_)) => true,
            _ => false,
        },
{
    lemma_bases(a, b, a.len());
    if let Ok((out, pend)) = lower::bases_s(a, a.len()) {
        lemma_instances(a, b, out, pend, u64::MAX as nat);
    }
    lower::lemma_lower_len(a);
}

/// Renaming parameters and locals and rewriting docs changes nothing of a module that
/// is lowered by itself.
pub proof fn lemma_renaming_keeps_a_module(a: Module, b: Module)
    requires
        same_module(a, b),
    ensures
        match (lower::lower_s(seq![a]), lower::lower_s(seq![b])) {
            (Ok(v), Ok(w)) => v.len() == 1 && w.len() == 1 && v[0] == w[0],
            (Err(_), Err(_)) => true,
            _ => false,
        },
{
    lemma_renaming_keeps_a_program(seq![a], seq![b]);
}

/// Modules that hold the same but for the docs of their functions.
pub open spec fn same_module_but_docs(a: Module, b: Module) -> bool {
    &&& a.name == b.name
    &&& a.imports == b.imports
    &&& a.items@.len() == b.items@.len()
    &&& forall|i: int|
        0 <= i < a.items@.len() ==> match (#[trigger] a.items@[i], b.items@[i]) {
            (Item::Fn(f), Item::Fn(g)) => same_but_docs(f, g),
            (Item::Impl(x), Item::Impl(y)) => {
                &&& x == (ImplDecl { methods: x.methods, ..y })
                &&& x.methods@.len() == y.methods@.len()
                &&& forall|k: int|
                    0 <= k < x.methods@.len() ==> same_but_docs(
                        #[trigger] x.methods@[k],
                        y.methods@[k],
                    )
            },
            (x, y) => x == y,
        }
}

/// Rewriting docs, or nothing at all, changes nothing of a program, whatever its
/// functions hold: it is lowered to the same modules with the same hashes, or
/// refused, as before.
pub proof fn lemma_docs_are_no_part_of_a_program(a: Seq<Module>, b: Seq<Module>)
    requires
        a.len() == b.len(),
        forall|i: int| 0 <= i < a.len() ==> same_module_but_docs(#[trigger] a[i], b[i]),
    ensures
        same_program(a, b),
        match (lower::lower_s(a), lower::lower_s(b)) {
            (Ok(v), Ok(w)) => v == w,
            (Err(_), Err(_)) => true,
            _ => false,
        },
{
    assert forall|i: int| 0 <= i < a.len() implies same_module(#[trigger] a[i], b[i]) by {
        let m = a[i];
        let n = b[i];
        assert(same_module_but_docs(m, n));
        assert forall|k: int| 0 <= k < m.items@.len() implies outline::same_decl(
            #[trigger] m.items@[k],
            n.items@[k],
        ) && same_code(m, m.items@[k], n.items@[k]) by {}
    }
    lemma_renaming_keeps_a_program(a, b);
}

} // verus!
