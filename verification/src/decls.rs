//! The declarations of a set of modules, and how names find them.
//!
//! Where several declarations share a name the last one counts.
use vstd::prelude::*;
use vstd::string::*;

use crate::find;
use crate::surface;
use crate::surface::{named, type_key, type_key_args};
use crate::syntax;
use crate::syntax::{FnDecl, ImplDecl, Item, MethodSig, Module, StructDecl};
use crate::table::Table;
use crate::text;
use crate::text::{contains_string, join, str_eq};

verus! {

/// The modules behind a list of references.
pub open spec fn modules_of(v: Seq<&Module>) -> Seq<Module> {
    Seq::new(v.len(), |i: int| *v[i])
}

/// The dotted path of a module.
pub open spec fn path_view(m: Module) -> Seq<char> {
    text::join_view(text::strings_view(m.name@), "."@)
}

/// The dotted path of a module.
pub fn path_of(m: &Module) -> (r: String)
    ensures
        r@ == path_view(*m),
{
    join(&m.name, ".")
}

/// A name under its module; unchanged in the root module.
pub open spec fn member_view(path: Seq<char>, name: Seq<char>) -> Seq<char> {
    if path.len() == 0 {
        name
    } else {
        path + "."@ + name
    }
}

/// A name under its module; unchanged in the root module.
pub fn qualify_name(module: &str, name: &str) -> (r: String)
    ensures
        r@ == member_view(module@, name@),
{
    if module.unicode_len() == 0 {
        name.to_owned()
    } else {
        let mut s = module.to_owned();
        s.append(".");
        s.append(name);
        s
    }
}

/// `a.b`.
pub fn dotted(a: &str, b: &str) -> (r: String)
    ensures
        r@ == a@ + "."@ + b@,
{
    let mut s = a.to_owned();
    s.append(".");
    s.append(b);
    s
}

// ---- declarations of one module ------------------------------------------------------

pub open spec fn is_struct_named(items: Seq<Item>, name: Seq<char>) -> spec_fn(int) -> bool {
    |i: int|
        match items[i] {
            Item::Struct(s) => s.name@ == name,
            _ => false,
        }
}

pub open spec fn is_fn_named(items: Seq<Item>, name: Seq<char>) -> spec_fn(int) -> bool {
    |i: int|
        match items[i] {
            Item::Fn(f) => f.name@ == name,
            _ => false,
        }
}

/// The struct of that name.
pub open spec fn struct_named(m: Module, name: Seq<char>) -> Option<StructDecl> {
    match find::last_below(is_struct_named(m.items@, name), m.items@.len() as int) {
        Some(i) => match m.items@[i] {
            Item::Struct(s) => Some(s),
            _ => None,
        },
        None => None,
    }
}

/// The function of that name.
pub open spec fn fn_named(m: Module, name: Seq<char>) -> Option<FnDecl> {
    match find::last_below(is_fn_named(m.items@, name), m.items@.len() as int) {
        Some(i) => match m.items@[i] {
            Item::Fn(f) => Some(f),
            _ => None,
        },
        None => None,
    }
}

/// Whether the module declares a struct or a function of that name.
pub open spec fn is_local_item(m: Module, name: Seq<char>) -> bool {
    struct_named(m, name) is Some || fn_named(m, name) is Some
}

/// The struct of that name.
pub fn find_struct<'a>(m: &'a Module, name: &str) -> (r: Option<&'a StructDecl>)
    ensures
        match struct_named(*m, name@) {
            Some(s) => r is Some && *r->0 == s,
            None => r is None,
        },
{
    let ghost p = is_struct_named(m.items@, name@);
    let mut i: usize = m.items.len();
    while i > 0
        invariant
            i <= m.items@.len(),
            p == is_struct_named(m.items@, name@),
            find::last_below(p, m.items@.len() as int) == find::last_below(p, i as int),
        decreases i,
    {
        if let Item::Struct(s) = &m.items[i - 1] {
            if str_eq(s.name.as_str(), name) {
                assert(p(i - 1));
                return Some(s);
            }
        }
        assert(!p(i - 1));
        i = i - 1;
    }
    None
}

/// The function of that name.
pub fn find_fn<'a>(m: &'a Module, name: &str) -> (r: Option<&'a FnDecl>)
    ensures
        match fn_named(*m, name@) {
            Some(s) => r is Some && *r->0 == s,
            None => r is None,
        },
{
    let ghost p = is_fn_named(m.items@, name@);
    let mut i: usize = m.items.len();
    while i > 0
        invariant
            i <= m.items@.len(),
            p == is_fn_named(m.items@, name@),
            find::last_below(p, m.items@.len() as int) == find::last_below(p, i as int),
        decreases i,
    {
        if let Item::Fn(s) = &m.items[i - 1] {
            if str_eq(s.name.as_str(), name) {
                assert(p(i - 1));
                return Some(s);
            }
        }
        assert(!p(i - 1));
        i = i - 1;
    }
    None
}

/// Whether the module declares a struct or a function of that name.
pub fn has_local_item(m: &Module, name: &str) -> (r: bool)
    ensures
        r == is_local_item(*m, name@),
{
    find_struct(m, name).is_some() || find_fn(m, name).is_some()
}

/// The module that a name is imported from: the first import that lists it.
pub open spec fn import_of(m: Module, name: Seq<char>) -> Option<Seq<char>> {
    match find::first_from(imports_name(m, name), 0, m.imports@.len() as int) {
        Some(i) => Some(text::join_view(text::strings_view(m.imports@[i].path@), "."@)),
        None => None,
    }
}

pub open spec fn imports_name(m: Module, name: Seq<char>) -> spec_fn(int) -> bool {
    |i: int| text::strings_view(m.imports@[i].names@).contains(name)
}

/// The module that a name is imported from.
pub fn find_import(m: &Module, name: &str) -> (r: Option<String>)
    ensures
        match import_of(*m, name@) {
            Some(s) => r is Some && r->0@ == s,
            None => r is None,
        },
{
    let ghost p = imports_name(*m, name@);
    let ghost n = m.imports@.len() as int;
    let mut i: usize = 0;
    while i < m.imports.len()
        invariant
            i <= m.imports@.len(),
            n == m.imports@.len(),
            p == imports_name(*m, name@),
            find::first_from(p, 0, n) == find::first_from(p, i as int, n),
        decreases n - i,
    {
        let hit = contains_string(&m.imports[i].names, name);
        assert(hit == p(i as int));
        if hit {
            return Some(join(&m.imports[i].path, "."));
        }
        i = i + 1;
    }
    None
}

// ---- searches over several modules -----------------------------------------------------

/// How many items each module has.
pub open spec fn item_count(ms: Seq<Module>) -> spec_fn(int) -> int {
    |m: int| ms[m].items@.len() as int
}

/// The last item among the first `n` modules for which `p` holds, as the
/// position of its module and its own position in it.
pub open spec fn last_item(
    p: spec_fn(int, int) -> bool,
    count: spec_fn(int) -> int,
    n: int,
) -> Option<(int, int)>
    decreases n,
{
    if n <= 0 {
        None
    } else {
        match find::last_below(|i: int| p(n - 1, i), count(n - 1)) {
            Some(i) => Some((n - 1, i)),
            None => last_item(p, count, n - 1),
        }
    }
}

/// Where an item stands: the position of its module, and its own in it.
#[derive(Debug, Clone, Copy, PartialEq, Eq, Structural)]
pub struct ItemRef {
    pub module: usize,
    pub item: usize,
}

/// Whether a reference stands for a found position.
pub open spec fn refers(r: Option<ItemRef>, want: Option<(int, int)>) -> bool {
    match want {
        Some((m, i)) => r is Some && r->0.module == m && r->0.item == i,
        None => r is None,
    }
}

/// The function at a position, if there is one.
pub open spec fn fn_at(ms: Seq<Module>, m: int, i: int) -> Option<FnDecl> {
    if 0 <= m < ms.len() && 0 <= i < ms[m].items@.len() {
        match ms[m].items@[i] {
            Item::Fn(f) => Some(f),
            _ => None,
        }
    } else {
        None
    }
}

/// The function at a position, if there is one.
pub fn get_fn<'a>(ms: &Vec<&'a Module>, at: ItemRef) -> (r: Option<&'a FnDecl>)
    ensures
        match fn_at(modules_of(ms@), at.module as int, at.item as int) {
            Some(f) => r is Some && *r->0 == f,
            None => r is None,
        },
{
    if at.module < ms.len() {
        let m: &'a Module = ms[at.module];
        if at.item < m.items.len() {
            if let Item::Fn(f) = &m.items[at.item] {
                return Some(f);
            }
        }
    }
    None
}

pub open spec fn is_generic_fn(ms: Seq<Module>, name: Seq<char>) -> spec_fn(int, int) -> bool {
    |m: int, i: int|
        match ms[m].items@[i] {
            Item::Fn(f) => f.generics@.len() > 0 && f.name@ == name,
            _ => false,
        }
}

/// The generic function of that name.
pub open spec fn generic_named(ms: Seq<Module>, name: Seq<char>) -> Option<(int, int)> {
    last_item(is_generic_fn(ms, name), item_count(ms), ms.len() as int)
}

/// The generic function of that name.
pub fn find_generic(ms: &Vec<&Module>, name: &str) -> (r: Option<ItemRef>)
    ensures
        refers(r, generic_named(modules_of(ms@), name@)),
{
    let ghost all = modules_of(ms@);
    let ghost p = is_generic_fn(all, name@);
    let ghost count = item_count(all);
    let mut m: usize = ms.len();
    while m > 0
        invariant
            m <= ms@.len(),
            all == modules_of(ms@),
            p == is_generic_fn(all, name@),
            count == item_count(all),
            last_item(p, count, all.len() as int) == last_item(p, count, m as int),
        decreases m,
    {
        let ghost q = |i: int| p(m - 1, i);
        let ghost len = count(m - 1);
        let mut i: usize = ms[m - 1].items.len();
        while i > 0
            invariant
                0 < m <= ms@.len(),
                all == modules_of(ms@),
                p == is_generic_fn(all, name@),
                count == item_count(all),
                len == count(m - 1),
                i <= len,
                q == (|i: int| p(m - 1, i)),
                last_item(p, count, all.len() as int) == last_item(p, count, m as int),
                find::last_below(q, len) == find::last_below(q, i as int),
            decreases i,
        {
            if let Item::Fn(f) = &ms[m - 1].items[i - 1] {
                if f.generics.len() > 0 && str_eq(f.name.as_str(), name) {
                    assert(q(i - 1));
                    return Some(ItemRef { module: m - 1, item: i - 1 });
                }
            }
            assert(!q(i - 1));
            i = i - 1;
        }
        m = m - 1;
    }
    None
}

pub open spec fn has_method(ms: Seq<MethodSig>, name: Seq<char>) -> bool {
    exists|k: int| 0 <= k < ms.len() && (#[trigger] ms[k]).name@ == name
}

pub open spec fn declares_method(ms: Seq<Module>, name: Seq<char>) -> spec_fn(int, int) -> bool {
    |m: int, i: int|
        match ms[m].items@[i] {
            Item::Interface(f) => has_method(f.methods@, name),
            _ => false,
        }
}

/// The interface that declares a method of that name.
pub open spec fn method_iface(ms: Seq<Module>, name: Seq<char>) -> Option<Seq<char>> {
    match last_item(declares_method(ms, name), item_count(ms), ms.len() as int) {
        Some((m, i)) => match ms[m].items@[i] {
            Item::Interface(f) => Some(f.name@),
            _ => None,
        },
        None => None,
    }
}

fn sig_listed(v: &Vec<MethodSig>, name: &str) -> (r: bool)
    ensures
        r == has_method(v@, name@),
{
    let mut i: usize = 0;
    while i < v.len()
        invariant
            i <= v@.len(),
            forall|k: int| 0 <= k < i ==> (#[trigger] v@[k]).name@ != name@,
        decreases v@.len() - i,
    {
        if str_eq(v[i].name.as_str(), name) {
            return true;
        }
        i = i + 1;
    }
    false
}

/// The interface that declares a method of that name.
pub fn find_method_iface(ms: &Vec<&Module>, name: &str) -> (r: Option<String>)
    ensures
        match method_iface(modules_of(ms@), name@) {
            Some(s) => r is Some && r->0@ == s,
            None => r is None,
        },
{
    let ghost all = modules_of(ms@);
    let ghost p = declares_method(all, name@);
    let ghost count = item_count(all);
    let mut m: usize = ms.len();
    while m > 0
        invariant
            m <= ms@.len(),
            all == modules_of(ms@),
            p == declares_method(all, name@),
            count == item_count(all),
            last_item(p, count, all.len() as int) == last_item(p, count, m as int),
        decreases m,
    {
        let ghost q = |i: int| p(m - 1, i);
        let ghost len = count(m - 1);
        let mut i: usize = ms[m - 1].items.len();
        while i > 0
            invariant
                0 < m <= ms@.len(),
                all == modules_of(ms@),
                p == declares_method(all, name@),
                count == item_count(all),
                len == count(m - 1),
                i <= len,
                q == (|i: int| p(m - 1, i)),
                last_item(p, count, all.len() as int) == last_item(p, count, m as int),
                find::last_below(q, len) == find::last_below(q, i as int),
            decreases i,
        {
            if let Item::Interface(f) = &ms[m - 1].items[i - 1] {
                if sig_listed(&f.methods, name) {
                    assert(q(i - 1));
                    return Some(f.name.clone());
                }
            }
            assert(!q(i - 1));
            i = i - 1;
        }
        m = m - 1;
    }
    None
}

/// The last segment of a path, empty if there is none.
pub open spec fn last_segment(p: Seq<Seq<char>>) -> Seq<char> {
    if p.len() == 0 {
        Seq::empty()
    } else {
        p.last()
    }
}

/// The last segment of a path, empty if there is none.
pub fn last_of(p: &Vec<String>) -> (r: String)
    ensures
        r@ == last_segment(text::strings_view(p@)),
{
    if p.len() == 0 {
        String::new()
    } else {
        p[p.len() - 1].clone()
    }
}

/// The spelling of the types that an implementation is for.
pub open spec fn impl_key(imp: ImplDecl) -> Seq<char> {
    surface::type_keys_view(syntax::stypes_view(imp.args@), imp.args@.len())
}

/// The interface of an implementation.
pub open spec fn impl_iface(imp: ImplDecl) -> Seq<char> {
    last_segment(text::strings_view(imp.interface@))
}

pub open spec fn is_impl_of(
    ms: Seq<Module>,
    iface: Seq<char>,
    key: Seq<char>,
) -> spec_fn(int, int) -> bool {
    |m: int, i: int|
        match ms[m].items@[i] {
            Item::Impl(imp) => impl_iface(imp) == iface && impl_key(imp) == key,
            _ => false,
        }
}

pub open spec fn defines_fn(v: Seq<FnDecl>, name: Seq<char>) -> bool {
    exists|k: int| 0 <= k < v.len() && (#[trigger] v[k]).name@ == name
}

/// The definition that a method of `iface` denotes at the type `key`: the
/// qualified, mangled name of the implementation's method.
pub open spec fn impl_method(
    ms: Seq<Module>,
    iface: Seq<char>,
    key: Seq<char>,
    name: Seq<char>,
) -> Option<Seq<char>> {
    match last_item(is_impl_of(ms, iface, key), item_count(ms), ms.len() as int) {
        Some((m, i)) => match ms[m].items@[i] {
            Item::Impl(imp) => if defines_fn(imp.methods@, name) {
                Some(member_view(path_view(ms[m]), mangled(name, iface, key)))
            } else {
                None
            },
            _ => None,
        },
        None => None,
    }
}

/// The mangled name of an implementation's method.
pub open spec fn mangled(method: Seq<char>, iface: Seq<char>, key: Seq<char>) -> Seq<char> {
    method + "$"@ + iface + "$"@ + key
}

/// The mangled name of an implementation's method. No source identifier holds
/// a dollar sign, so it never collides with one.
pub fn impl_method_name(method: &str, interface: &str, type_key: &str) -> (r: String)
    ensures
        r@ == mangled(method@, interface@, type_key@),
{
    let mut s = method.to_owned();
    s.append("$");
    s.append(interface);
    s.append("$");
    s.append(type_key);
    s
}

fn fn_listed(v: &Vec<FnDecl>, name: &str) -> (r: bool)
    ensures
        r == defines_fn(v@, name@),
{
    let mut i: usize = 0;
    while i < v.len()
        invariant
            i <= v@.len(),
            forall|k: int| 0 <= k < i ==> (#[trigger] v@[k]).name@ != name@,
        decreases v@.len() - i,
    {
        if str_eq(v[i].name.as_str(), name) {
            return true;
        }
        i = i + 1;
    }
    false
}

/// The definition that a method of `iface` denotes at the type `key`.
pub fn find_impl_method(ms: &Vec<&Module>, iface: &str, key: &str, name: &str) -> (r: Option<String>)
    ensures
        match impl_method(modules_of(ms@), iface@, key@, name@) {
            Some(s) => r is Some && r->0@ == s,
            None => r is None,
        },
{
    let ghost all = modules_of(ms@);
    let ghost p = is_impl_of(all, iface@, key@);
    let ghost count = item_count(all);
    let mut m: usize = ms.len();
    while m > 0
        invariant
            m <= ms@.len(),
            all == modules_of(ms@),
            p == is_impl_of(all, iface@, key@),
            count == item_count(all),
            last_item(p, count, all.len() as int) == last_item(p, count, m as int),
        decreases m,
    {
        let ghost q = |i: int| p(m - 1, i);
        let ghost len = count(m - 1);
        let mut i: usize = ms[m - 1].items.len();
        while i > 0
            invariant
                0 < m <= ms@.len(),
                all == modules_of(ms@),
                p == is_impl_of(all, iface@, key@),
                count == item_count(all),
                len == count(m - 1),
                i <= len,
                q == (|i: int| p(m - 1, i)),
                last_item(p, count, all.len() as int) == last_item(p, count, m as int),
                find::last_below(q, len) == find::last_below(q, i as int),
            decreases i,
        {
            if let Item::Impl(imp) = &ms[m - 1].items[i - 1] {
                if str_eq(last_of(&imp.interface).as_str(), iface) && str_eq(
                    type_key_args(&imp.args).as_str(),
                    key,
                ) {
                    assert(q(i - 1));
                    if fn_listed(&imp.methods, name) {
                        return Some(
                            qualify_name(
                                path_of(ms[m - 1]).as_str(),
                                impl_method_name(name, iface, key).as_str(),
                            ),
                        );
                    }
                    return None;
                }
            }
            assert(!q(i - 1));
            i = i - 1;
        }
        m = m - 1;
    }
    None
}

// ---- enums and errors --------------------------------------------------------------------

/// The name of an enum or an error declaration.
pub open spec fn sum_name(it: Item) -> Option<Seq<char>> {
    match it {
        Item::Enum(e) => Some(e.name@),
        Item::Error(e) => Some(e.name@),
        _ => None,
    }
}

/// How many variants an enum or an error has.
pub open spec fn variant_total(it: Item) -> nat {
    match it {
        Item::Enum(e) => e.variants@.len(),
        Item::Error(e) => e.variants@.len(),
        _ => 0,
    }
}

pub open spec fn variant_label(it: Item, k: int) -> Seq<char> {
    match it {
        Item::Enum(e) => e.variants@[k].name@,
        Item::Error(e) => e.variants@[k]@,
        _ => Seq::empty(),
    }
}

/// How many fields a variant has; those of an error have none.
pub open spec fn variant_arity(it: Item, k: int) -> nat {
    match it {
        Item::Enum(e) => e.variants@[k].fields@.len(),
        _ => 0,
    }
}

/// The qualified name of an enum or an error.
pub open spec fn sum_qual(m: Module, it: Item) -> Seq<char> {
    match sum_name(it) {
        Some(n) => member_view(path_view(m), n),
        None => Seq::empty(),
    }
}

pub open spec fn is_sum_called(ms: Seq<Module>, name: Seq<char>) -> spec_fn(int, int) -> bool {
    |m: int, i: int|
        sum_name(ms[m].items@[i]) matches Some(n) && (n == name || sum_qual(ms[m], ms[m].items@[i])
            == name)
}

pub open spec fn is_sum_qualified(ms: Seq<Module>, qual: Seq<char>) -> spec_fn(int, int) -> bool {
    |m: int, i: int|
        sum_name(ms[m].items@[i]) is Some && sum_qual(ms[m], ms[m].items@[i]) == qual
}

/// The qualified name that an enum's bare or qualified name denotes.
pub open spec fn enum_qualified_view(ms: Seq<Module>, name: Seq<char>) -> Option<Seq<char>> {
    match last_item(is_sum_called(ms, name), item_count(ms), ms.len() as int) {
        Some((m, i)) => Some(sum_qual(ms[m], ms[m].items@[i])),
        None => None,
    }
}

/// How many variants the enum of that qualified name has; none if there is no
/// such enum.
pub open spec fn variants_of(ms: Seq<Module>, qual: Seq<char>) -> nat {
    match last_item(is_sum_qualified(ms, qual), item_count(ms), ms.len() as int) {
        Some((m, i)) => variant_total(ms[m].items@[i]),
        None => 0,
    }
}

fn sum_name_of(it: &Item) -> (r: Option<String>)
    ensures
        match sum_name(*it) {
            Some(n) => r is Some && r->0@ == n,
            None => r is None,
        },
{
    match it {
        Item::Enum(e) => Some(e.name.clone()),
        Item::Error(e) => Some(e.name.clone()),
        _ => None,
    }
}

/// The qualified name that an enum's bare or qualified name denotes.
pub fn enum_qualified(ms: &Vec<&Module>, name: &str) -> (r: Option<String>)
    ensures
        match enum_qualified_view(modules_of(ms@), name@) {
            Some(s) => r is Some && r->0@ == s,
            None => r is None,
        },
{
    let ghost all = modules_of(ms@);
    let ghost p = is_sum_called(all, name@);
    let ghost count = item_count(all);
    let mut m: usize = ms.len();
    while m > 0
        invariant
            m <= ms@.len(),
            all == modules_of(ms@),
            p == is_sum_called(all, name@),
            count == item_count(all),
            last_item(p, count, all.len() as int) == last_item(p, count, m as int),
        decreases m,
    {
        let ghost q = |i: int| p(m - 1, i);
        let ghost len = count(m - 1);
        let mut i: usize = ms[m - 1].items.len();
        while i > 0
            invariant
                0 < m <= ms@.len(),
                all == modules_of(ms@),
                p == is_sum_called(all, name@),
                count == item_count(all),
                len == count(m - 1),
                i <= len,
                q == (|i: int| p(m - 1, i)),
                last_item(p, count, all.len() as int) == last_item(p, count, m as int),
                find::last_below(q, len) == find::last_below(q, i as int),
            decreases i,
        {
            if let Some(n) = sum_name_of(&ms[m - 1].items[i - 1]) {
                let full = qualify_name(path_of(ms[m - 1]).as_str(), n.as_str());
                if str_eq(n.as_str(), name) || str_eq(full.as_str(), name) {
                    assert(q(i - 1));
                    return Some(full);
                }
            }
            assert(!q(i - 1));
            i = i - 1;
        }
        m = m - 1;
    }
    None
}

fn variant_count_of(it: &Item) -> (r: usize)
    ensures
        r == variant_total(*it),
{
    match it {
        Item::Enum(e) => e.variants.len(),
        Item::Error(e) => e.variants.len(),
        _ => 0,
    }
}

/// How many variants the enum of that qualified name has.
pub fn variant_count(ms: &Vec<&Module>, qual: &str) -> (r: usize)
    ensures
        r == variants_of(modules_of(ms@), qual@),
{
    let ghost all = modules_of(ms@);
    let ghost p = is_sum_qualified(all, qual@);
    let ghost count = item_count(all);
    let mut m: usize = ms.len();
    while m > 0
        invariant
            m <= ms@.len(),
            all == modules_of(ms@),
            p == is_sum_qualified(all, qual@),
            count == item_count(all),
            last_item(p, count, all.len() as int) == last_item(p, count, m as int),
        decreases m,
    {
        let ghost q = |i: int| p(m - 1, i);
        let ghost len = count(m - 1);
        let mut i: usize = ms[m - 1].items.len();
        while i > 0
            invariant
                0 < m <= ms@.len(),
                all == modules_of(ms@),
                p == is_sum_qualified(all, qual@),
                count == item_count(all),
                len == count(m - 1),
                i <= len,
                q == (|i: int| p(m - 1, i)),
                last_item(p, count, all.len() as int) == last_item(p, count, m as int),
                find::last_below(q, len) == find::last_below(q, i as int),
            decreases i,
        {
            if let Some(n) = sum_name_of(&ms[m - 1].items[i - 1]) {
                let full = qualify_name(path_of(ms[m - 1]).as_str(), n.as_str());
                if str_eq(full.as_str(), qual) {
                    assert(q(i - 1));
                    return variant_count_of(&ms[m - 1].items[i - 1]);
                }
            }
            assert(!q(i - 1));
            i = i - 1;
        }
        m = m - 1;
    }
    0
}

// ---- constructors ---------------------------------------------------------------------------

/// A constructor: its enum or error, its tag, its number of fields, and whether
/// a reference to it raises instead of constructing.
#[derive(Debug, Clone, Copy, PartialEq, Eq, Structural)]
pub struct CtorRef {
    pub module: usize,
    pub item: usize,
    pub tag: u32,
    pub arity: usize,
    pub is_error: bool,
}

/// The constructors in scope: by `Enum.Variant`, by the qualified form, and by
/// the bare `Variant` as long as no other enum has one of that name.
pub struct EnumReg {
    pub ctors: Table<CtorRef>,
    /// Bare names of more than one enum.
    pub ambiguous: Vec<String>,
}

/// The mathematical counterpart of [`EnumReg`].
pub struct RegView {
    pub ctors: Map<Seq<char>, CtorRef>,
    pub ambiguous: Seq<Seq<char>>,
}

impl View for EnumReg {
    type V = RegView;

    open spec fn view(&self) -> RegView {
        RegView { ctors: self.ctors@, ambiguous: text::strings_view(self.ambiguous@) }
    }
}

/// The registry after one more variant.
pub open spec fn reg_variant(
    r: RegView,
    name: Seq<char>,
    qual: Seq<char>,
    label: Seq<char>,
    c: CtorRef,
) -> RegView {
    let named = r.ctors.insert(name + "."@ + label, c).insert(qual + "."@ + label, c);
    if r.ambiguous.contains(label) {
        RegView { ctors: named, ambiguous: r.ambiguous }
    } else if named.dom().contains(label) {
        RegView { ctors: named.remove(label), ambiguous: r.ambiguous.push(label) }
    } else {
        RegView { ctors: named.insert(label, c), ambiguous: r.ambiguous }
    }
}

/// The registry after the first `k` variants of an item.
pub open spec fn reg_variants(r: RegView, ms: Seq<Module>, m: int, i: int, k: nat) -> RegView
    decreases k,
{
    let it = ms[m].items@[i];
    if k == 0 || sum_name(it) is None {
        r
    } else {
        reg_variant(
            reg_variants(r, ms, m, i, (k - 1) as nat),
            sum_name(it)->0,
            sum_qual(ms[m], it),
            variant_label(it, k - 1),
            CtorRef {
                module: m as usize,
                item: i as usize,
                tag: (k - 1) as u32,
                arity: variant_arity(it, k - 1) as usize,
                is_error: it is Error,
            },
        )
    }
}

/// The registry after the first `i` items of module `m`.
pub open spec fn reg_items(r: RegView, ms: Seq<Module>, m: int, i: nat) -> RegView
    decreases i,
{
    if i == 0 {
        r
    } else {
        reg_variants(
            reg_items(r, ms, m, (i - 1) as nat),
            ms,
            m,
            i - 1,
            variant_total(ms[m].items@[i - 1]),
        )
    }
}

/// The registry of the first `n` modules.
pub open spec fn reg_modules(ms: Seq<Module>, n: nat) -> RegView
    decreases n,
{
    if n == 0 {
        RegView { ctors: Map::empty(), ambiguous: Seq::empty() }
    } else {
        reg_items(reg_modules(ms, (n - 1) as nat), ms, n - 1, ms[n - 1].items@.len())
    }
}

impl EnumReg {
    /// The registry of a set of modules.
    pub fn from_modules(ms: &Vec<&Module>) -> (r: EnumReg)
        ensures
            r@ == reg_modules(modules_of(ms@), ms@.len()),
    {
        let ghost all = modules_of(ms@);
        let mut reg = EnumReg { ctors: Table::new(), ambiguous: Vec::new() };
        assert(text::strings_view(reg.ambiguous@) =~= Seq::empty());
        let mut m: usize = 0;
        while m < ms.len()
            invariant
                m <= ms@.len(),
                all == modules_of(ms@),
                reg@ == reg_modules(all, m as nat),
            decreases ms@.len() - m,
        {
            let path = path_of(ms[m]);
            let ghost start = reg@;
            let mut i: usize = 0;
            while i < ms[m].items.len()
                invariant
                    m < ms@.len(),
                    all == modules_of(ms@),
                    path@ == path_view(all[m as int]),
                    i <= all[m as int].items@.len(),
                    reg@ == reg_items(start, all, m as int, i as nat),
                decreases all[m as int].items@.len() - i,
            {
                let it = &ms[m].items[i];
                let ghost before = reg@;
                if let Some(name) = sum_name_of(it) {
                    let qual = qualify_name(path.as_str(), name.as_str());
                    let n = variant_count_of(it);
                    let mut k: usize = 0;
                    while k < n
                        invariant
                            m < ms@.len(),
                            all == modules_of(ms@),
                            i < all[m as int].items@.len(),
                            *it == all[m as int].items@[i as int],
                            sum_name(*it) == Some(name@),
                            qual@ == sum_qual(all[m as int], *it),
                            n == variant_total(*it),
                            k <= n,
                            reg@ == reg_variants(before, all, m as int, i as int, k as nat),
                        decreases n - k,
                    {
                        let c = CtorRef {
                            module: m,
                            item: i,
                            tag: k as u32,
                            arity: variant_arity_of(it, k),
                            is_error: match it {
                                Item::Error(_) => true,
                                _ => false,
                            },
                        };
                        reg.add_variant(
                            name.as_str(),
                            qual.as_str(),
                            variant_label_of(it, k).as_str(),
                            c,
                        );
                        k = k + 1;
                    }
                }
                i = i + 1;
            }
            m = m + 1;
        }
        reg
    }

    fn add_variant(&mut self, name: &str, qual: &str, label: &str, c: CtorRef)
        ensures
            final(self)@ == reg_variant(old(self)@, name@, qual@, label@, c),
    {
        self.ctors.insert(dotted(name, label), c);
        self.ctors.insert(dotted(qual, label), c);
        if !contains_string(&self.ambiguous, label) {
            if self.ctors.get(label).is_some() {
                self.ambiguous.push(label.to_owned());
                assert(text::strings_view(self.ambiguous@) =~= text::strings_view(old(self).ambiguous@).push(
                    label@,
                ));
                self.ctors.remove(label);
            } else {
                self.ctors.insert(label.to_owned(), c);
            }
        }
    }

    /// The constructor of that spelling.
    pub fn ctor(&self, key: &str) -> (r: Option<CtorRef>)
        ensures
            r == ctor_view(self@, key@),
    {
        self.ctors.get(key)
    }
}

/// The constructor of that spelling.
pub open spec fn ctor_view(r: RegView, key: Seq<char>) -> Option<CtorRef> {
    if r.ctors.dom().contains(key) {
        Some(r.ctors[key])
    } else {
        None
    }
}

fn variant_arity_of(it: &Item, k: usize) -> (r: usize)
    requires
        k < variant_total(*it),
    ensures
        r == variant_arity(*it, k as int),
{
    match it {
        Item::Enum(e) => e.variants[k].fields.len(),
        _ => 0,
    }
}

fn variant_label_of(it: &Item, k: usize) -> (r: String)
    requires
        k < variant_total(*it),
    ensures
        r@ == variant_label(*it, k as int),
{
    match it {
        Item::Enum(e) => e.variants[k].name.clone(),
        Item::Error(e) => e.variants[k].clone(),
        _ => String::new(),
    }
}

/// The qualified name of a constructor's enum.
pub open spec fn ctor_enum(ms: Seq<Module>, c: CtorRef) -> Seq<char> {
    if c.module < ms.len() && c.item < ms[c.module as int].items@.len() {
        sum_qual(ms[c.module as int], ms[c.module as int].items@[c.item as int])
    } else {
        Seq::empty()
    }
}

/// The qualified name of a constructor's enum.
pub fn ctor_enum_name(ms: &Vec<&Module>, c: CtorRef) -> (r: String)
    ensures
        r@ == ctor_enum(modules_of(ms@), c),
{
    if c.module < ms.len() && c.item < ms[c.module].items.len() {
        match sum_name_of(&ms[c.module].items[c.item]) {
            Some(n) => qualify_name(path_of(ms[c.module]).as_str(), n.as_str()),
            None => String::new(),
        }
    } else {
        String::new()
    }
}

} // verus!
