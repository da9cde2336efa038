//! Programs whose definitions are referred to by hash, and what of them an entry
//! point needs.
use vstd::prelude::*;
use vstd::string::*;

use crate::find;
use crate::graph;
use crate::graph::closure;
use crate::ir;
use crate::ir::{Def, DefKind, DefView};
use crate::reach;
use crate::reach::collect_global_syms;
use crate::text::str_eq;

verus! {

/// The counterpart of a program, member by member.
pub open spec fn hashed_view(v: Seq<(crate::ir::Hash, String, Def)>) -> Seq<
    (Seq<u8>, Seq<char>, DefView),
> {
    Seq::new(v.len(), |i: int| (v[i].0@, v[i].1@, v[i].2@))
}

/// The counterpart of a list of names, member by member.
pub open spec fn aliases_view(v: Seq<(String, crate::ir::Hash)>) -> Seq<(Seq<char>, Seq<u8>)> {
    Seq::new(v.len(), |i: int| (v[i].0@, v[i].1@))
}

pub open spec fn named_alias(a: Seq<(Seq<char>, Seq<u8>)>, name: Seq<char>) -> spec_fn(int) -> bool {
    |i: int| a[i].0 == name
}

pub open spec fn hash_alias(a: Seq<(Seq<char>, Seq<u8>)>, h: Seq<u8>) -> spec_fn(int) -> bool {
    |i: int| a[i].1 == h
}

pub open spec fn named_fn(m: Seq<(Seq<u8>, Seq<char>, DefView)>, name: Seq<char>) -> spec_fn(
    int,
) -> bool {
    |i: int| m[i].1 == name && reach::concrete_fn(m[i].2)
}

pub open spec fn callable(m: Seq<(Seq<u8>, Seq<char>, DefView)>) -> spec_fn(int) -> bool {
    |i: int| reach::concrete_fn(m[i].2)
}

/// The hash that a name stands for: an alias first, then a function's own name.
pub open spec fn named_hash(
    m: Seq<(Seq<u8>, Seq<char>, DefView)>,
    a: Seq<(Seq<char>, Seq<u8>)>,
    name: Seq<char>,
) -> Option<Seq<u8>> {
    match find::first_from(named_alias(a, name), 0, a.len() as int) {
        Some(i) => Some(a[i].1),
        None => match find::first_from(named_fn(m, name), 0, m.len() as int) {
            Some(i) => Some(m[i].0),
            None => None,
        },
    }
}

/// The hash of the entry: that of an explicit name; without a name that of
/// `main`, else that of the only function that can be called.
pub open spec fn entry_hash(
    m: Seq<(Seq<u8>, Seq<char>, DefView)>,
    a: Seq<(Seq<char>, Seq<u8>)>,
    entry: Seq<char>,
) -> Option<Seq<u8>> {
    if entry.len() > 0 {
        named_hash(m, a, entry)
    } else {
        match named_hash(m, a, "main"@) {
            Some(h) => Some(h),
            None => match reach::sole(callable(m), m.len() as int) {
                Some(i) => Some(m[i].0),
                None => None,
            },
        }
    }
}

pub open spec fn has_key(m: Seq<(Seq<u8>, Seq<char>, DefView)>, h: Seq<u8>) -> spec_fn(int) -> bool {
    |i: int| m[i].0 == h
}

/// The definition of a hash: the last one counts.
pub open spec fn key_target(m: Seq<(Seq<u8>, Seq<char>, DefView)>, h: Seq<u8>) -> Option<int> {
    find::last_below(has_key(m, h), m.len() as int)
}

/// Whether one of the first `n` symbols of `s` refers to definition `j`.
pub open spec fn hits(m: Seq<(Seq<u8>, Seq<char>, DefView)>, s: Seq<Seq<u8>>, n: int, j: int) -> bool {
    exists|k: int| 0 <= k < n && key_target(m, #[trigger] s[k]) == Some(j)
}

/// Whether definition `i` refers to definition `j`.
pub open spec fn links(m: Seq<(Seq<u8>, Seq<char>, DefView)>) -> spec_fn(int, int) -> bool {
    |i: int, j: int|
        0 <= i < m.len() && hits(m, reach::def_syms(m[i].2), reach::def_syms(m[i].2).len() as int, j)
}

/// Whether a build of `entry` needs definition `j`: it is reachable from the
/// entry, or there is no such entry.
pub open spec fn hashed_needed(
    m: Seq<(Seq<u8>, Seq<char>, DefView)>,
    a: Seq<(Seq<char>, Seq<u8>)>,
    entry: Seq<char>,
    j: int,
) -> bool {
    match entry_hash(m, a, entry) {
        None => true,
        Some(h) => match key_target(m, h) {
            None => true,
            Some(s) => graph::reachable(links(m), s, j),
        },
    }
}

/// The first alias of that name.
fn find_alias(aliases: &[(String, crate::ir::Hash)], name: &str) -> (r: Option<usize>)
    ensures
        match find::first_from(named_alias(aliases_view(aliases@), name@), 0, aliases@.len() as int) {
            Some(i) => r is Some && r->0 == i && 0 <= i < aliases@.len(),
            None => r is None,
        },
{
    let ghost p = named_alias(aliases_view(aliases@), name@);
    let ghost n = aliases@.len() as int;
    let mut i: usize = 0;
    while i < aliases.len()
        invariant
            i <= n,
            n == aliases@.len(),
            p == named_alias(aliases_view(aliases@), name@),
            find::first_from(p, 0, n) == find::first_from(p, i as int, n),
        decreases n - i,
    {
        let hit = str_eq(aliases[i].0.as_str(), name);
        assert(hit == p(i as int));
        if hit {
            return Some(i);
        }
        i = i + 1;
    }
    None
}

/// The first alias of that hash.
pub fn alias_of(aliases: &[(String, crate::ir::Hash)], h: &crate::ir::Hash) -> (r: Option<usize>)
    ensures
        match find::first_from(hash_alias(aliases_view(aliases@), h@), 0, aliases@.len() as int) {
            Some(i) => r is Some && r->0 == i && 0 <= i < aliases@.len(),
            None => r is None,
        },
{
    let ghost p = hash_alias(aliases_view(aliases@), h@);
    let ghost n = aliases@.len() as int;
    let mut i: usize = 0;
    while i < aliases.len()
        invariant
            i <= n,
            n == aliases@.len(),
            p == hash_alias(aliases_view(aliases@), h@),
            find::first_from(p, 0, n) == find::first_from(p, i as int, n),
        decreases n - i,
    {
        let hit = aliases[i].1.same(h);
        assert(hit == p(i as int));
        if hit {
            return Some(i);
        }
        i = i + 1;
    }
    None
}

/// Whether a definition is a function without generic variables.
pub fn is_concrete(d: &Def) -> (r: bool)
    ensures
        r == reach::concrete_fn(d@),
{
    d.kind == DefKind::Fn && !d.ty.is_polymorphic()
}

/// The first function of that name.
fn find_named(defs: &[(crate::ir::Hash, String, Def)], name: &str) -> (r: Option<usize>)
    ensures
        match find::first_from(named_fn(hashed_view(defs@), name@), 0, defs@.len() as int) {
            Some(i) => r is Some && r->0 == i && 0 <= i < defs@.len(),
            None => r is None,
        },
{
    let ghost p = named_fn(hashed_view(defs@), name@);
    let ghost n = defs@.len() as int;
    let mut i: usize = 0;
    while i < defs.len()
        invariant
            i <= n,
            n == defs@.len(),
            p == named_fn(hashed_view(defs@), name@),
            find::first_from(p, 0, n) == find::first_from(p, i as int, n),
        decreases n - i,
    {
        let hit = str_eq(defs[i].1.as_str(), name) && is_concrete(&defs[i].2);
        assert(hit == p(i as int));
        if hit {
            return Some(i);
        }
        i = i + 1;
    }
    None
}

/// The first function from position `from` on that can be called.
fn find_callable(defs: &[(crate::ir::Hash, String, Def)], from: usize) -> (r: Option<usize>)
    ensures
        match find::first_from(callable(hashed_view(defs@)), from as int, defs@.len() as int) {
            Some(i) => r is Some && r->0 == i && from <= i < defs@.len(),
            None => r is None,
        },
{
    let ghost p = callable(hashed_view(defs@));
    let ghost n = defs@.len() as int;
    let mut i: usize = from;
    while i < defs.len()
        invariant
            from <= i,
            n == defs@.len(),
            p == callable(hashed_view(defs@)),
            find::first_from(p, from as int, n) == find::first_from(p, i as int, n),
        decreases n - i,
    {
        let hit = is_concrete(&defs[i].2);
        assert(hit == p(i as int));
        if hit {
            return Some(i);
        }
        i = i + 1;
    }
    None
}

/// The hash that a name stands for.
pub fn resolve_name(
    defs: &[(crate::ir::Hash, String, Def)],
    aliases: &[(String, crate::ir::Hash)],
    name: &str,
) -> (r: Option<crate::ir::Hash>)
    ensures
        match named_hash(hashed_view(defs@), aliases_view(aliases@), name@) {
            Some(h) => r is Some && r->0@ == h,
            None => r is None,
        },
{
    match find_alias(aliases, name) {
        Some(i) => Some(aliases[i].1),
        None => match find_named(defs, name) {
            Some(i) => Some(defs[i].0),
            None => None,
        },
    }
}

/// The hash of the entry.
pub fn resolve_hashed_entry(
    defs: &[(crate::ir::Hash, String, Def)],
    aliases: &[(String, crate::ir::Hash)],
    entry: &str,
) -> (r: Option<crate::ir::Hash>)
    ensures
        match entry_hash(hashed_view(defs@), aliases_view(aliases@), entry@) {
            Some(h) => r is Some && r->0@ == h,
            None => r is None,
        },
{
    if entry.unicode_len() > 0 {
        return resolve_name(defs, aliases, entry);
    }
    match resolve_name(defs, aliases, "main") {
        Some(h) => Some(h),
        None => match find_callable(defs, 0) {
            Some(i) => {
                let n = defs.len();
                assert(i < n);
                match find_callable(defs, i + 1) {
                    Some(_) => None,
                    None => Some(defs[i].0),
                }
            },
            None => None,
        },
    }
}

/// The definition of a hash.
pub fn find_key(defs: &[(crate::ir::Hash, String, Def)], h: &crate::ir::Hash) -> (r: Option<usize>)
    ensures
        match key_target(hashed_view(defs@), h@) {
            Some(i) => r is Some && r->0 == i && 0 <= i < defs@.len(),
            None => r is None,
        },
{
    let ghost p = has_key(hashed_view(defs@), h@);
    let mut i: usize = defs.len();
    while i > 0
        invariant
            i <= defs@.len(),
            p == has_key(hashed_view(defs@), h@),
            find::last_below(p, defs@.len() as int) == find::last_below(p, i as int),
        decreases i,
    {
        let hit = defs[i - 1].0.same(h);
        assert(hit == p(i - 1));
        if hit {
            return Some(i - 1);
        }
        i = i - 1;
    }
    None
}

/// The definitions that the symbols of definition `d` refer to.
fn targets(defs: &[(crate::ir::Hash, String, Def)], d: usize) -> (out: Vec<usize>)
    requires
        d < defs@.len(),
    ensures
        forall|x: int| 0 <= x < out@.len() ==> #[trigger] out@[x] < defs@.len(),
        forall|j: int| #[trigger] links(hashed_view(defs@))(d as int, j) == graph::listed(out@, j),
{
    let ghost m = hashed_view(defs@);
    let mut syms: Vec<crate::ir::Hash> = Vec::new();
    collect_global_syms(&defs[d].2, &mut syms);
    let ghost s = reach::def_syms(m[d as int].2);
    assert(ir::hashes_view(syms@) =~= s);
    let mut out: Vec<usize> = Vec::new();
    let mut k: usize = 0;
    while k < syms.len()
        invariant
            k <= syms@.len(),
            m == hashed_view(defs@),
            ir::hashes_view(syms@) == s,
            forall|x: int| 0 <= x < out@.len() ==> #[trigger] out@[x] < defs@.len(),
            forall|j: int| #[trigger] graph::listed(out@, j) == hits(m, s, k as int, j),
        decreases syms@.len() - k,
    {
        assert(s[k as int] == syms@[k as int]@);
        let t = find_key(defs, &syms[k]);
        let ghost before = out@;
        if let Some(j) = t {
            out.push(j);
        }
        proof {
            assert forall|y: int| #[trigger] graph::listed(out@, y) == hits(m, s, k + 1, y) by {
                let here = key_target(m, s[k as int]) == Some(y);
                if graph::listed(before, y) {
                    let x = choose|x: int| 0 <= x < before.len() && before[x] == y;
                    assert(out@[x] == y);
                }
                if here {
                    assert(out@[before.len() as int] == y);
                }
                if graph::listed(out@, y) && !here {
                    let x = choose|x: int| 0 <= x < out@.len() && out@[x] == y;
                    assert(before[x] == y);
                    assert(graph::listed(before, y));
                }
                if hits(m, s, k + 1, y) && !here {
                    let x = choose|x: int| 0 <= x < k + 1 && key_target(m, #[trigger] s[x]) == Some(y);
                    assert(x < k);
                    assert(hits(m, s, k as int, y));
                }
            }
        }
        k = k + 1;
    }
    out
}

/// Which definitions a build of `entry` needs, one mark for each.
pub fn hashed_reachable_mask(
    defs: &[(crate::ir::Hash, String, Def)],
    aliases: &[(String, crate::ir::Hash)],
    entry: &str,
) -> (mask: Vec<bool>)
    ensures
        mask@.len() == defs@.len(),
        forall|j: int|
            0 <= j < defs@.len() ==> #[trigger] mask@[j] == hashed_needed(
                hashed_view(defs@),
                aliases_view(aliases@),
                entry@,
                j,
            ),
{
    let ghost m = hashed_view(defs@);
    let n = defs.len();
    let start = match resolve_hashed_entry(defs, aliases, entry) {
        Some(h) => find_key(defs, &h),
        None => None,
    };
    match start {
        None => {
            let mut all: Vec<bool> = Vec::new();
            let mut z: usize = 0;
            while z < n
                invariant
                    z <= n,
                    all@.len() == z,
                    forall|j: int| 0 <= j < z ==> #[trigger] all@[j],
                decreases n - z,
            {
                all.push(true);
                z = z + 1;
            }
            all
        },
        Some(s) => {
            let mut adj: Vec<Vec<usize>> = Vec::new();
            let mut d: usize = 0;
            while d < n
                invariant
                    d <= n,
                    n == defs@.len(),
                    m == hashed_view(defs@),
                    adj@.len() == d,
                    forall|a: int, k: int|
                        0 <= a < d && 0 <= k < adj@[a]@.len() ==> #[trigger] adj@[a]@[k] < n,
                    forall|a: int, j: int|
                        0 <= a < d ==> #[trigger] links(m)(a, j) == graph::listed(adj@[a]@, j),
                decreases n - d,
            {
                let out = targets(defs, d);
                adj.push(out);
                d = d + 1;
            }
            proof {
                assert forall|a: int, b: int| #[trigger] graph::list_edge(adj@)(a, b) == links(m)(a, b) by {}
                assert(graph::list_edge(adj@) =~= links(m));
            }
            closure(&adj, s)
        },
    }
}

/// A build needs whatever the definitions that it needs refer to.
pub proof fn lemma_hashed_needed_is_closed(
    m: Seq<(Seq<u8>, Seq<char>, DefView)>,
    a: Seq<(Seq<char>, Seq<u8>)>,
    entry: Seq<char>,
    i: int,
    j: int,
)
    requires
        hashed_needed(m, a, entry, i),
        links(m)(i, j),
    ensures
        hashed_needed(m, a, entry, j),
{
    if let Some(h) = entry_hash(m, a, entry) {
        if let Some(s) = key_target(m, h) {
            graph::lemma_reach_step(links(m), s, i, j);
        }
    }
}

/// A build needs its entry.
pub proof fn lemma_hashed_entry_is_needed(
    m: Seq<(Seq<u8>, Seq<char>, DefView)>,
    a: Seq<(Seq<char>, Seq<u8>)>,
    entry: Seq<char>,
)
    ensures
        match entry_hash(m, a, entry) {
            Some(h) => match key_target(m, h) {
                Some(s) => hashed_needed(m, a, entry, s),
                None => true,
            },
            None => true,
        },
{
    if let Some(h) = entry_hash(m, a, entry) {
        if let Some(s) = key_target(m, h) {
            graph::lemma_reach_self(links(m), s);
        }
    }
}

} // verus!
