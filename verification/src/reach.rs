//! Reachability of a module's definitions from an entry point.
//!
//! A build compiles only what its entry point reaches, so a module that mixes
//! supported functions with unsupported ones still builds when the entry never
//! refers to the latter. Where no entry can be resolved, everything is kept.
use vstd::prelude::*;
use vstd::string::*;

use crate::find;
use crate::graph;
use crate::graph::closure;
use crate::hash;
use crate::hash::symbol_hash;
use crate::ir;
use crate::ir::{Atom, AtomView, Branch, BranchView, Core, CoreView, Def, DefKind, DefView, Type, TypeView};
use crate::ops;
use crate::seqs;
use crate::text::{has_char, str_eq};

verus! {

// ---- the symbols of a definition ----------------------------------------------

/// The hashes that a type mentions, in order.
pub open spec fn type_syms(t: TypeView) -> Seq<Seq<u8>>
    decreases t, 0nat,
{
    match t {
        TypeView::Nominal { def, args } => seq![def] + list_type_syms(args, args.len()),
        TypeView::Array(inner, _) => type_syms(*inner),
        TypeView::Slice(inner) => type_syms(*inner),
        TypeView::Linear(inner) => type_syms(*inner),
        TypeView::Ref { mutable, of } => type_syms(*of),
        TypeView::Tuple(es) => list_type_syms(es, es.len()),
        TypeView::Arrow { param, ret, effects } => type_syms(*param) + type_syms(*ret),
        _ => Seq::empty(),
    }
}

/// The hashes that the first `n` types mention, in order.
pub open spec fn list_type_syms(v: Seq<TypeView>, n: nat) -> Seq<Seq<u8>>
    decreases v, n,
{
    if n == 0 || n > v.len() {
        Seq::empty()
    } else {
        list_type_syms(v, (n - 1) as nat) + type_syms(v[n - 1])
    }
}

pub open spec fn atom_syms(a: AtomView) -> Seq<Seq<u8>> {
    match a {
        AtomView::Global(h) => seq![h],
        _ => Seq::empty(),
    }
}

/// The hashes that the first `n` atoms mention, in order.
pub open spec fn list_atom_syms(v: Seq<AtomView>, n: nat) -> Seq<Seq<u8>>
    decreases n,
{
    if n == 0 || n > v.len() {
        Seq::empty()
    } else {
        list_atom_syms(v, (n - 1) as nat) + atom_syms(v[n - 1])
    }
}

/// The hashes that a term mentions, in order.
pub open spec fn core_syms(c: CoreView) -> Seq<Seq<u8>>
    decreases c, 0nat,
{
    match c {
        CoreView::Atom(a) => atom_syms(a),
        CoreView::Let { value, body } => core_syms(*value) + core_syms(*body),
        CoreView::Lam { param, effects, body } => type_syms(param) + core_syms(*body),
        CoreView::App { func, arg } => atom_syms(func) + atom_syms(arg),
        CoreView::Ctor { ty, tag, fields } => seq![ty] + list_atom_syms(fields, fields.len()),
        CoreView::Proj { base, idx } => atom_syms(base),
        CoreView::Array { elem, items } => type_syms(elem) + list_atom_syms(items, items.len()),
        CoreView::IndexSet { base, index, value } => atom_syms(base) + atom_syms(index) + atom_syms(
            value,
        ),
        CoreView::ListNew { elem, alloc, capacity } => type_syms(elem) + atom_syms(alloc)
            + atom_syms(capacity),
        CoreView::ListPush { alloc, list, value } => atom_syms(alloc) + atom_syms(list) + atom_syms(
            value,
        ),
        CoreView::ListPop { list } => atom_syms(list),
        CoreView::ListSet { list, index, value } => atom_syms(list) + atom_syms(index) + atom_syms(
            value,
        ),
        CoreView::Match { scrutinee, branches } => atom_syms(scrutinee) + branches_syms(
            branches,
            branches.len(),
        ),
        CoreView::Prim { op, args } => list_atom_syms(args, args.len()),
        CoreView::Cast { value, to } => atom_syms(value) + type_syms(to),
        CoreView::Ref { mutable, of } => atom_syms(of),
        CoreView::Perform { cap, op, args } => atom_syms(cap) + list_atom_syms(args, args.len()),
        CoreView::Raise { error, args } => seq![error] + list_atom_syms(args, args.len()),
        CoreView::Loop { state, inv, cond, body } => list_atom_syms(state, state.len()) + core_syms(
            *cond,
        ) + core_syms(*body),
        CoreView::Return { value } => atom_syms(value),
    }
}

/// The hashes that the first `n` branches mention, in order.
pub open spec fn branches_syms(v: Seq<BranchView>, n: nat) -> Seq<Seq<u8>>
    decreases v, n,
{
    if n == 0 || n > v.len() {
        Seq::empty()
    } else {
        branches_syms(v, (n - 1) as nat) + core_syms(v[n - 1].body)
    }
}

/// The hashes that a definition mentions: first those of its type, then those
/// of its body.
pub open spec fn def_syms(d: DefView) -> Seq<Seq<u8>> {
    type_syms(d.ty) + match d.body {
        Some(c) => core_syms(c),
        None => Seq::empty(),
    }
}

// ---- the module graph ------------------------------------------------------------

/// Named definitions, as mathematics.
pub open spec fn defs_view(defs: Seq<(String, Def)>) -> Seq<(Seq<char>, DefView)> {
    Seq::new(defs.len(), |i: int| (defs[i].0@, defs[i].1@))
}

/// A name under its module: unchanged in the root module, and where it is
/// already dotted.
pub open spec fn qualify_view(path: Seq<char>, name: Seq<char>) -> Seq<char> {
    if path.len() == 0 || name.contains('.') {
        name
    } else {
        path + seq!['.'] + name
    }
}

/// A function without generic variables: something that can be called.
pub open spec fn concrete_fn(d: DefView) -> bool {
    d.kind == DefKind::Fn && !ops::polymorphic(d.ty)
}

/// Whether definition `i` answers to the entry name.
pub open spec fn answers_to(
    path: Seq<char>,
    m: Seq<(Seq<char>, DefView)>,
    entry: Seq<char>,
) -> spec_fn(int) -> bool {
    |i: int|
        concrete_fn(m[i].1) && (m[i].0 == entry || qualify_view(path, m[i].0) == entry)
}

pub open spec fn is_main(m: Seq<(Seq<char>, DefView)>) -> spec_fn(int) -> bool {
    |i: int| m[i].0 == "main"@ && concrete_fn(m[i].1)
}

pub open spec fn is_callable(m: Seq<(Seq<char>, DefView)>) -> spec_fn(int) -> bool {
    |i: int| concrete_fn(m[i].1)
}

/// The only position of `[0, n)` at which `p` holds, if there is exactly one.
pub open spec fn sole(p: spec_fn(int) -> bool, n: int) -> Option<int> {
    match find::first_from(p, 0, n) {
        None => None,
        Some(i) => match find::first_from(p, i + 1, n) {
            None => Some(i),
            Some(_) => None,
        },
    }
}

/// The entry definition: the one that answers to an explicit name; without a
/// name `main`, else the only function that can be called.
pub open spec fn entry_index(
    path: Seq<char>,
    m: Seq<(Seq<char>, DefView)>,
    entry: Seq<char>,
) -> Option<int> {
    if entry.len() > 0 {
        find::first_from(answers_to(path, m, entry), 0, m.len() as int)
    } else {
        match find::first_from(is_main(m), 0, m.len() as int) {
            Some(i) => Some(i),
            None => sole(is_callable(m), m.len() as int),
        }
    }
}

/// The definition that a symbol refers to: the last one with that symbol.
pub open spec fn symbol_target(
    path: Seq<char>,
    m: Seq<(Seq<char>, DefView)>,
    h: Seq<u8>,
) -> Option<int> {
    find::last_below(|i: int| hash::symbol_id(qualify_view(path, m[i].0)) == h, m.len() as int)
}

/// Whether one of the first `n` symbols of `s` refers to definition `j`.
pub open spec fn targeted(
    path: Seq<char>,
    m: Seq<(Seq<char>, DefView)>,
    s: Seq<Seq<u8>>,
    n: int,
    j: int,
) -> bool {
    exists|k: int| 0 <= k < n && symbol_target(path, m, #[trigger] s[k]) == Some(j)
}

/// Whether definition `i` refers to definition `j`.
pub open spec fn refers_to(
    path: Seq<char>,
    m: Seq<(Seq<char>, DefView)>,
) -> spec_fn(int, int) -> bool {
    |i: int, j: int|
        0 <= i < m.len() && targeted(
            path,
            m,
            def_syms(m[i].1),
            def_syms(m[i].1).len() as int,
            j,
        )
}

/// Whether a build of `entry` needs definition `j`: it is reachable from the
/// entry, or there is no such entry.
pub open spec fn needed(
    path: Seq<char>,
    m: Seq<(Seq<char>, DefView)>,
    entry: Seq<char>,
    j: int,
) -> bool {
    match entry_index(path, m, entry) {
        None => true,
        Some(s) => graph::reachable(refers_to(path, m), s, j),
    }
}

/// Which definitions a build of `entry` needs, one mark for each.
pub fn reachable_mask(module: &str, defs: &[(String, Def)], entry: &str) -> (mask: Vec<bool>)
    ensures
        mask@.len() == defs@.len(),
        forall|j: int|
            0 <= j < defs@.len() ==> #[trigger] mask@[j] == needed(
                module@,
                defs_view(defs@),
                entry@,
                j,
            ),
{
    let ghost m = defs_view(defs@);
    let n = defs.len();
    let start = match resolve_entry(module, defs, entry) {
        Some(i) => i,
        None => {
            let mut all: Vec<bool> = Vec::new();
            let mut z: usize = 0;
            while z < n
                invariant
                    z <= n,
                    all@.len() == z,
                    forall|j: int| 0 <= j < z ==> #[trigger] all@[j],
                decreases n - z,
            {
                all.push(true);
                z = z + 1;
            }
            return all;
        },
    };
    let mut keys: Vec<crate::ir::Hash> = Vec::new();
    let mut i: usize = 0;
    while i < n
        invariant
            i <= n,
            n == defs@.len(),
            m == defs_view(defs@),
            keys@.len() == i,
            forall|k: int|
                0 <= k < i ==> #[trigger] keys@[k]@ == hash::symbol_id(qualify_view(module@, m[k].0)),
        decreases n - i,
    {
        keys.push(symbol_hash(qualify(module, defs[i].0.as_str()).as_str()));
        i = i + 1;
    }
    let mut adj: Vec<Vec<usize>> = Vec::new();
    let mut d: usize = 0;
    while d < n
        invariant
            d <= n,
            n == defs@.len(),
            m == defs_view(defs@),
            keys@.len() == n,
            forall|k: int|
                0 <= k < n ==> #[trigger] keys@[k]@ == hash::symbol_id(qualify_view(module@, m[k].0)),
            adj@.len() == d,
            forall|a: int, k: int|
                0 <= a < d && 0 <= k < adj@[a]@.len() ==> #[trigger] adj@[a]@[k] < n,
            forall|a: int, j: int|
                0 <= a < d ==> #[trigger] refers_to(module@, m)(a, j) == graph::listed(adj@[a]@, j),
        decreases n - d,
    {
        let mut syms: Vec<crate::ir::Hash> = Vec::new();
        collect_global_syms(&defs[d].1, &mut syms);
        let ghost s = def_syms(m[d as int].1);
        assert(ir::hashes_view(syms@) =~= s);
        let mut out: Vec<usize> = Vec::new();
        let mut k: usize = 0;
        while k < syms.len()
            invariant
                k <= syms@.len(),
                n == defs@.len(),
                m == defs_view(defs@),
                ir::hashes_view(syms@) == s,
                keys@.len() == n,
                forall|x: int|
                    0 <= x < n ==> #[trigger] keys@[x]@ == hash::symbol_id(
                        qualify_view(module@, m[x].0),
                    ),
                forall|x: int| 0 <= x < out@.len() ==> #[trigger] out@[x] < n,
                forall|j: int|
                    #[trigger] graph::listed(out@, j) == targeted(module@, m, s, k as int, j),
            decreases syms@.len() - k,
        {
            assert(s[k as int] == syms@[k as int]@);
            let t = last_key(&keys, &syms[k]);
            let ghost before = out@;
            proof {
                lemma_same_search(module@, m, keys@, s[k as int]);
            }
            if let Some(j) = t {
                out.push(j);
                proof {
                    assert forall|y: int| #[trigger] graph::listed(out@, y) == targeted(
                        module@,
                        m,
                        s,
                        k + 1,
                        y,
                    ) by {
                        if graph::listed(before, y) {
                            let x = choose|x: int| 0 <= x < before.len() && before[x] == y;
                            assert(out@[x] == y);
                        }
                        if y == j {
                            assert(out@[before.len() as int] == y);
                            assert(symbol_target(module@, m, s[k as int]) == Some(y));
                        }
                        if graph::listed(out@, y) && y != j {
                            let x = choose|x: int| 0 <= x < out@.len() && out@[x] == y;
                            assert(before[x] == y);
                            assert(graph::listed(before, y));
                        }
                        if targeted(module@, m, s, k + 1, y) && y != j {
                            let x = choose|x: int|
                                0 <= x < k + 1 && symbol_target(module@, m, #[trigger] s[x]) == Some(y);
                            assert(x < k);
                            assert(targeted(module@, m, s, k as int, y));
                            assert(graph::listed(before, y));
                        }
                    }
                }
            } else {
                proof {
                    assert forall|y: int| #[trigger] graph::listed(out@, y) == targeted(
                        module@,
                        m,
                        s,
                        k + 1,
                        y,
                    ) by {
                        if targeted(module@, m, s, k + 1, y) {
                            let x = choose|x: int|
                                0 <= x < k + 1 && symbol_target(module@, m, #[trigger] s[x]) == Some(y);
                            assert(x < k);
                            assert(targeted(module@, m, s, k as int, y));
                        }
                    }
                }
            }
            k = k + 1;
        }
        adj.push(out);
        proof {
            assert forall|a: int, j: int| 0 <= a < d + 1 implies #[trigger] refers_to(module@, m)(
                a,
                j,
            ) == graph::listed(adj@[a]@, j) by {
                if a == d {
                    assert(adj@[a]@ == out@);
                    assert(graph::listed(out@, j) == targeted(module@, m, s, s.len() as int, j));
                }
            }
        }
        d = d + 1;
    }
    let mask = closure(&adj, start);
    proof {
        assert forall|a: int, b: int| #[trigger] graph::list_edge(adj@)(a, b) == refers_to(module@, m)(
            a,
            b,
        ) by {}
        assert(graph::list_edge(adj@) =~= refers_to(module@, m));
    }
    mask
}

/// Whether a key is the hash `h`.
spec fn key_is(keys: Seq<crate::ir::Hash>, h: Seq<u8>) -> spec_fn(int) -> bool {
    |i: int| keys[i]@ == h
}

/// The last key equal to `h`.
fn last_key(keys: &Vec<crate::ir::Hash>, h: &crate::ir::Hash) -> (r: Option<usize>)
    ensures
        match find::last_below(key_is(keys@, h@), keys@.len() as int) {
            Some(i) => r is Some && r->0 == i && 0 <= i < keys@.len(),
            None => r is None,
        },
{
    let ghost p = key_is(keys@, h@);
    let mut i: usize = keys.len();
    while i > 0
        invariant
            i <= keys@.len(),
            p == key_is(keys@, h@),
            find::last_below(p, keys@.len() as int) == find::last_below(p, i as int),
        decreases i,
    {
        if keys[i - 1].same(h) {
            assert(p(i - 1));
            return Some(i - 1);
        }
        assert(!p(i - 1));
        i = i - 1;
    }
    None
}

proof fn lemma_same_search(
    path: Seq<char>,
    m: Seq<(Seq<char>, DefView)>,
    keys: Seq<crate::ir::Hash>,
    h: Seq<u8>,
)
    requires
        keys.len() == m.len(),
        forall|k: int|
            0 <= k < keys.len() ==> #[trigger] keys[k]@ == hash::symbol_id(qualify_view(path, m[k].0)),
    ensures
        find::last_below(key_is(keys, h), keys.len() as int) == symbol_target(path, m, h),
{
    find::lemma_last_below_same(
        key_is(keys, h),
        |i: int| hash::symbol_id(qualify_view(path, m[i].0)) == h,
        keys.len() as int,
    );
}

/// The entry definition: the one that answers to an explicit name (bare or
/// qualified); without a name `main`, else the only function that can be
/// called. A generic template is never an entry.
pub fn resolve_entry(module: &str, defs: &[(String, Def)], entry: &str) -> (r: Option<usize>)
    ensures
        match entry_index(module@, defs_view(defs@), entry@) {
            Some(i) => r is Some && r->0 == i && 0 <= i < defs@.len(),
            None => r is None,
        },
{
    let ghost m = defs_view(defs@);
    let n = defs.len();
    if entry.unicode_len() > 0 {
        let ghost p = answers_to(module@, m, entry@);
        let mut i: usize = 0;
        while i < n
            invariant
                i <= n,
                n == defs@.len(),
                m == defs_view(defs@),
                p == answers_to(module@, m, entry@),
                entry@.len() > 0,
                find::first_from(p, 0, n as int) == find::first_from(p, i as int, n as int),
            decreases n - i,
        {
            let hit = callable(&defs[i].1) && (str_eq(defs[i].0.as_str(), entry) || str_eq(
                qualify(module, defs[i].0.as_str()).as_str(),
                entry,
            ));
            assert(hit == p(i as int));
            if hit {
                return Some(i);
            }
            i = i + 1;
        }
        return None;
    }
    let ghost p = is_main(m);
    let mut i: usize = 0;
    while i < n
        invariant
            i <= n,
            n == defs@.len(),
            m == defs_view(defs@),
            p == is_main(m),
            entry@.len() == 0,
            find::first_from(p, 0, n as int) == find::first_from(p, i as int, n as int),
        decreases n - i,
    {
        let hit = str_eq(defs[i].0.as_str(), "main") && callable(&defs[i].1);
        assert(hit == p(i as int));
        if hit {
            return Some(i);
        }
        i = i + 1;
    }
    match next_callable(defs, 0) {
        None => None,
        Some(first) => match next_callable(defs, first + 1) {
            None => Some(first),
            Some(_) => None,
        },
    }
}

fn callable(d: &Def) -> (r: bool)
    ensures
        r == concrete_fn(d@),
{
    d.kind == DefKind::Fn && !d.ty.is_polymorphic()
}

/// The first function from position `from` on that can be called.
fn next_callable(defs: &[(String, Def)], from: usize) -> (r: Option<usize>)
    ensures
        match find::first_from(is_callable(defs_view(defs@)), from as int, defs@.len() as int) {
            Some(i) => r is Some && r->0 == i && from <= i < defs@.len(),
            None => r is None,
        },
{
    let ghost p = is_callable(defs_view(defs@));
    let mut i: usize = from;
    while i < defs.len()
        invariant
            from <= i,
            p == is_callable(defs_view(defs@)),
            find::first_from(p, from as int, defs@.len() as int) == find::first_from(
                p,
                i as int,
                defs@.len() as int,
            ),
        decreases defs@.len() - i,
    {
        let hit = callable(&defs[i].1);
        assert(hit == p(i as int));
        if hit {
            return Some(i);
        }
        i = i + 1;
    }
    None
}

/// A name under its module: unchanged in the root module, and where it is
/// already dotted.
pub fn qualify(module: &str, name: &str) -> (r: String)
    ensures
        r@ == qualify_view(module@, name@),
{
    if module.unicode_len() == 0 || has_char(name, '.') {
        name.to_owned()
    } else {
        let mut s = module.to_owned();
        s.push('.');
        s.append(name);
        assert(s@ =~= qualify_view(module@, name@));
        s
    }
}

/// Append every symbol that a definition mentions, in its type and its body.
pub fn collect_global_syms(def: &Def, out: &mut Vec<crate::ir::Hash>)
    ensures
        ir::hashes_view(final(out)@) == ir::hashes_view(old(out)@) + def_syms(def@),
{
    collect_type_syms(&def.ty, out);
    if let Some(body) = &def.body {
        collect_core_syms(body, out);
    }
    assert(ir::hashes_view(out@) =~= ir::hashes_view(old(out)@) + def_syms(def@));
}

fn push_sym(out: &mut Vec<crate::ir::Hash>, h: &crate::ir::Hash)
    ensures
        ir::hashes_view(final(out)@) == ir::hashes_view(old(out)@) + seq![h@],
{
    out.push(*h);
    assert(ir::hashes_view(out@) =~= ir::hashes_view(old(out)@) + seq![h@]);
}

fn collect_list_syms(v: &Vec<Type>, out: &mut Vec<crate::ir::Hash>)
    ensures
        ir::hashes_view(final(out)@) == ir::hashes_view(old(out)@) + list_type_syms(
            ir::types_view(v@),
            v@.len(),
        ),
    decreases v@,
{
    broadcast use ir::lemma_types_view;

    let mut i: usize = 0;
    assert(ir::hashes_view(out@) + list_type_syms(ir::types_view(v@), 0) =~= ir::hashes_view(out@));
    while i < v.len()
        invariant
            i <= v@.len(),
            ir::hashes_view(out@) == ir::hashes_view(old(out)@) + list_type_syms(ir::types_view(v@), i as nat),
        decreases v@.len() - i,
    {
        collect_type_syms(&v[i], out);
        assert(ir::types_view(v@)[i as int] == v@[i as int]@);
        assert(ir::hashes_view(out@) =~= ir::hashes_view(old(out)@) + list_type_syms(
            ir::types_view(v@),
            (i + 1) as nat,
        ));
        i = i + 1;
    }
}

pub fn collect_type_syms(t: &Type, out: &mut Vec<crate::ir::Hash>)
    ensures
        ir::hashes_view(final(out)@) == ir::hashes_view(old(out)@) + type_syms(t@),
    decreases t,
{
    broadcast use ir::lemma_types_view;

    match t {
        Type::Nominal { def, args } => {
            push_sym(out, def);
            collect_list_syms(args, out);
        },
        Type::Array(inner, _) => collect_type_syms(inner, out),
        Type::Slice(inner) => collect_type_syms(inner, out),
        Type::Linear(inner) => collect_type_syms(inner, out),
        Type::Ref { mutable: _, of } => collect_type_syms(of, out),
        Type::Tuple(es) => collect_list_syms(es, out),
        Type::Arrow { param, ret, effects: _ } => {
            collect_type_syms(param, out);
            collect_type_syms(ret, out);
        },
        _ => {},
    }
    assert(ir::hashes_view(out@) =~= ir::hashes_view(old(out)@) + type_syms(t@));
}

fn collect_atom_syms(a: &Atom, out: &mut Vec<crate::ir::Hash>)
    ensures
        ir::hashes_view(final(out)@) == ir::hashes_view(old(out)@) + atom_syms(a@),
{
    if let Atom::Global(h) = a {
        push_sym(out, h);
    }
    assert(ir::hashes_view(out@) =~= ir::hashes_view(old(out)@) + atom_syms(a@));
}

fn collect_atoms_syms(v: &Vec<Atom>, out: &mut Vec<crate::ir::Hash>)
    ensures
        ir::hashes_view(final(out)@) == ir::hashes_view(old(out)@) + list_atom_syms(
            ir::atoms_view(v@),
            v@.len(),
        ),
{
    let mut i: usize = 0;
    assert(ir::hashes_view(out@) + list_atom_syms(ir::atoms_view(v@), 0) =~= ir::hashes_view(out@));
    while i < v.len()
        invariant
            i <= v@.len(),
            ir::hashes_view(out@) == ir::hashes_view(old(out)@) + list_atom_syms(ir::atoms_view(v@), i as nat),
        decreases v@.len() - i,
    {
        collect_atom_syms(&v[i], out);
        assert(ir::hashes_view(out@) =~= ir::hashes_view(old(out)@) + list_atom_syms(
            ir::atoms_view(v@),
            (i + 1) as nat,
        ));
        i = i + 1;
    }
}

fn collect_branches_syms(v: &Vec<Branch>, out: &mut Vec<crate::ir::Hash>)
    ensures
        ir::hashes_view(final(out)@) == ir::hashes_view(old(out)@) + branches_syms(
            ir::branches_view(v@),
            v@.len(),
        ),
    decreases v@,
{
    broadcast use ir::lemma_branches_view;

    let mut i: usize = 0;
    assert(ir::hashes_view(out@) + branches_syms(ir::branches_view(v@), 0) =~= ir::hashes_view(out@));
    while i < v.len()
        invariant
            i <= v@.len(),
            ir::hashes_view(out@) == ir::hashes_view(old(out)@) + branches_syms(
                ir::branches_view(v@),
                i as nat,
            ),
        decreases v@.len() - i,
    {
        collect_core_syms(&v[i].body, out);
        assert(ir::branches_view(v@)[i as int] == v@[i as int]@);
        assert(v@[i as int]@.body == v@[i as int].body@);
        assert(ir::hashes_view(out@) =~= ir::hashes_view(old(out)@) + branches_syms(
            ir::branches_view(v@),
            (i + 1) as nat,
        ));
        i = i + 1;
    }
}

pub fn collect_core_syms(c: &Core, out: &mut Vec<crate::ir::Hash>)
    ensures
        ir::hashes_view(final(out)@) == ir::hashes_view(old(out)@) + core_syms(c@),
    decreases c,
{
    broadcast use ir::lemma_branches_view;

    let ghost o = ir::hashes_view(out@);
    match c {
        Core::Atom(a) => collect_atom_syms(a, out),
        Core::Let { value, body } => {
            collect_core_syms(value, out);
            collect_core_syms(body, out);
            proof {
                seqs::cat2(o, core_syms(value@), core_syms(body@));
            }
        },
        Core::Lam { param, effects: _, body } => {
            collect_type_syms(param, out);
            collect_core_syms(body, out);
            proof {
                seqs::cat2(o, type_syms(param@), core_syms(body@));
            }
        },
        Core::App { func, arg } => {
            collect_atom_syms(func, out);
            collect_atom_syms(arg, out);
            proof {
                seqs::cat2(o, atom_syms(func@), atom_syms(arg@));
            }
        },
        Core::Ctor { ty, tag: _, fields } => {
            push_sym(out, ty);
            collect_atoms_syms(fields, out);
            proof {
                seqs::cat2(o, seq![ty@], list_atom_syms(ir::atoms_view(fields@), fields@.len()));
            }
        },
        Core::Proj { base, idx: _ } => collect_atom_syms(base, out),
        Core::Array { elem, items } => {
            collect_type_syms(elem, out);
            collect_atoms_syms(items, out);
            proof {
                seqs::cat2(o, type_syms(elem@), list_atom_syms(ir::atoms_view(items@), items@.len()));
            }
        },
        Core::IndexSet { base, index, value } => {
            collect_atom_syms(base, out);
            collect_atom_syms(index, out);
            collect_atom_syms(value, out);
            proof {
                seqs::cat3(o, atom_syms(base@), atom_syms(index@), atom_syms(value@));
            }
        },
        Core::ListNew { elem, alloc, capacity } => {
            collect_type_syms(elem, out);
            collect_atom_syms(alloc, out);
            collect_atom_syms(capacity, out);
            proof {
                seqs::cat3(o, type_syms(elem@), atom_syms(alloc@), atom_syms(capacity@));
            }
        },
        Core::ListPush { alloc, list, value } => {
            collect_atom_syms(alloc, out);
            collect_atom_syms(list, out);
            collect_atom_syms(value, out);
            proof {
                seqs::cat3(o, atom_syms(alloc@), atom_syms(list@), atom_syms(value@));
            }
        },
        Core::ListPop { list } => collect_atom_syms(list, out),
        Core::ListSet { list, index, value } => {
            collect_atom_syms(list, out);
            collect_atom_syms(index, out);
            collect_atom_syms(value, out);
            proof {
                seqs::cat3(o, atom_syms(list@), atom_syms(index@), atom_syms(value@));
            }
        },
        Core::Match { scrutinee, branches } => {
            collect_atom_syms(scrutinee, out);
            collect_branches_syms(branches, out);
            proof {
                seqs::cat2(
                    o,
                    atom_syms(scrutinee@),
                    branches_syms(ir::branches_view(branches@), branches@.len()),
                );
            }
        },
        Core::Prim { op: _, args } => collect_atoms_syms(args, out),
        Core::Cast { value, to } => {
            collect_atom_syms(value, out);
            collect_type_syms(to, out);
            proof {
                seqs::cat2(o, atom_syms(value@), type_syms(to@));
            }
        },
        Core::Ref { mutable: _, of } => collect_atom_syms(of, out),
        Core::Perform { cap, op: _, args } => {
            collect_atom_syms(cap, out);
            collect_atoms_syms(args, out);
            proof {
                seqs::cat2(o, atom_syms(cap@), list_atom_syms(ir::atoms_view(args@), args@.len()));
            }
        },
        Core::Raise { error, args } => {
            push_sym(out, error);
            collect_atoms_syms(args, out);
            proof {
                seqs::cat2(o, seq![error@], list_atom_syms(ir::atoms_view(args@), args@.len()));
            }
        },
        Core::Loop { state, inv: _, cond, body } => {
            collect_atoms_syms(state, out);
            collect_core_syms(cond, out);
            collect_core_syms(body, out);
            proof {
                seqs::cat3(
                    o,
                    list_atom_syms(ir::atoms_view(state@), state@.len()),
                    core_syms(cond@),
                    core_syms(body@),
                );
            }
        },
        Core::Return { value } => collect_atom_syms(value, out),
    }
}

// ---- laws --------------------------------------------------------------------------

/// The qualified spelling of an entry resolves as the bare one does, in a
/// module whose definitions have bare names.
pub proof fn lemma_qualified_entry_agrees(
    path: Seq<char>,
    m: Seq<(Seq<char>, DefView)>,
    entry: Seq<char>,
)
    requires
        path.len() > 0,
        entry.len() > 0,
        !entry.contains('.'),
        forall|i: int| 0 <= i < m.len() ==> !(#[trigger] m[i]).0.contains('.'),
    ensures
        entry_index(path, m, path + seq!['.'] + entry) == entry_index(path, m, entry),
{
    let long = path + seq!['.'] + entry;
    let p = answers_to(path, m, entry);
    let q = answers_to(path, m, long);
    assert(long[path.len() as int] == '.');
    assert forall|i: int| 0 <= i < m.len() implies #[trigger] p(i) == q(i) by {
        let name = m[i].0;
        let qn = path + seq!['.'] + name;
        assert(qn[path.len() as int] == '.');
        if qn == long {
            assert(name =~= qn.skip(path.len() as int + 1));
            assert(entry =~= long.skip(path.len() as int + 1));
        }
    }
    find::lemma_first_from_same(p, q, 0, m.len() as int);
}

/// A build that needs a definition needs what that definition refers to.
pub proof fn lemma_needed_is_closed(
    path: Seq<char>,
    m: Seq<(Seq<char>, DefView)>,
    entry: Seq<char>,
    i: int,
    j: int,
)
    requires
        needed(path, m, entry, i),
        refers_to(path, m)(i, j),
    ensures
        needed(path, m, entry, j),
{
    if let Some(s) = entry_index(path, m, entry) {
        graph::lemma_reach_step(refers_to(path, m), s, i, j);
    }
}

/// A build needs its entry.
pub proof fn lemma_entry_is_needed(
    path: Seq<char>,
    m: Seq<(Seq<char>, DefView)>,
    entry: Seq<char>,
)
    ensures
        entry_index(path, m, entry) matches Some(s) ==> needed(path, m, entry, s),
{
    if let Some(s) = entry_index(path, m, entry) {
        graph::lemma_reach_self(refers_to(path, m), s);
    }
}

} // verus!
