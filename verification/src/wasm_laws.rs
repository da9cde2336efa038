//! What a WebAssembly module asks of its host: the operations that its functions
//! perform, each once.
use vstd::prelude::*;

use crate::find;
use crate::ir::{BranchView, CoreView, TypeView};
use crate::wasm;
use crate::wasm::PickView;
use crate::wasm_ops;
use crate::wasm_trans::{CapImportView, WasmErrorView};
use crate::world;
use crate::world::WorldView;

verus! {

/// Whether a term performs no operation.
pub open spec fn pure_term(c: CoreView) -> bool
    decreases c, 0nat,
{
    match c {
        CoreView::Lam { param, effects, body } => pure_term(*body),
        CoreView::Let { value, body } => pure_term(*value) && pure_term(*body),
        CoreView::Match { scrutinee, branches } => pure_branches(branches, branches.len()),
        CoreView::Loop { state, inv, cond, body } => pure_term(*cond) && pure_term(*body),
        CoreView::Perform { cap, op, args } => false,
        _ => true,
    }
}

/// As [`pure_term`], for the first `n` branches.
pub open spec fn pure_branches(v: Seq<BranchView>, n: nat) -> bool
    decreases v, n,
{
    n == 0 || n > v.len() || (pure_branches(v, (n - 1) as nat) && pure_term(v[n - 1].body))
}

/// As [`pure_term`], for the body of a function.
pub open spec fn pure_pick(p: PickView) -> bool {
    match p.def.body {
        Some(c) => pure_term(c),
        None => true,
    }
}

proof fn lemma_pure_walk(
    w: WorldView,
    c: CoreView,
    tys: Seq<Option<TypeView>>,
    out: Seq<CapImportView>,
)
    requires
        pure_term(c),
    ensures
        wasm::walk_s(w, c, tys, out) == Ok::<Seq<CapImportView>, WasmErrorView>(out),
    decreases c, 0nat,
{
    match c {
        CoreView::Lam { param, effects, body } => lemma_pure_walk(
            w,
            *body,
            tys.push(Some(param)),
            out,
        ),
        CoreView::Let { value, body } => {
            lemma_pure_walk(w, *value, tys, out);
            lemma_pure_walk(w, *body, tys.push(world::type_of_s(w, *value, tys)), out);
        },
        CoreView::Match { scrutinee, branches } => lemma_pure_branches(
            w,
            branches,
            branches.len(),
            tys,
            out,
        ),
        CoreView::Loop { state, inv, cond, body } => {
            let inner = wasm::unknown(tys, ((state.len() as usize) as u32) as nat);
            lemma_pure_walk(w, *cond, inner, out);
            lemma_pure_walk(w, *body, inner, out);
        },
        _ => {},
    }
}

proof fn lemma_pure_branches(
    w: WorldView,
    v: Seq<BranchView>,
    n: nat,
    tys: Seq<Option<TypeView>>,
    out: Seq<CapImportView>,
)
    requires
        n <= v.len(),
        pure_branches(v, n),
    ensures
        wasm::walk_branches(w, v, n, tys, out) == Ok::<Seq<CapImportView>, WasmErrorView>(out),
    decreases v, n,
{
    if n > 0 {
        lemma_pure_branches(w, v, (n - 1) as nat, tys, out);
        lemma_pure_walk(w, v[n - 1].body, wasm::unknown(tys, v[n - 1].binds as nat), out);
    }
}

proof fn lemma_pure_imports(w: WorldView, v: Seq<PickView>, n: nat)
    requires
        n <= v.len(),
        forall|i: int| 0 <= i < v.len() ==> pure_pick(#[trigger] v[i]),
    ensures
        wasm::imports_of(w, v, n) == Ok::<Seq<CapImportView>, WasmErrorView>(Seq::empty()),
    decreases n,
{
    if n > 0 {
        lemma_pure_imports(w, v, (n - 1) as nat);
        assert(pure_pick(v[n - 1]));
        match v[n - 1].def.body {
            Some(c) => lemma_pure_walk(w, c, Seq::empty(), Seq::empty()),
            None => {},
        }
    }
}

/// A module whose functions perform no operation imports nothing.
pub proof fn lemma_a_pure_module_imports_nothing(
    w: WorldView,
    v: Seq<PickView>,
    checks: bool,
    whole: bool,
)
    requires
        forall|i: int| 0 <= i < v.len() ==> pure_pick(#[trigger] v[i]),
    ensures
        match wasm::plan_s(w, v, checks, whole) {
            Ok(p) => p.imports.len() == 0 && p.desc.imports.len() == 0,
            Err(_) => true,
        },
        match wasm::built_s(wasm::plan_s(w, v, checks, whole)) {
            Ok(a) => a.imports.len() == 0,
            Err(_) => true,
        },
{
    lemma_pure_imports(w, v, v.len());
}

/// The operations that a term performs, each with the name of its capability.
pub open spec fn performed(w: WorldView, c: CoreView, tys: Seq<Option<TypeView>>) -> Set<
    (Seq<char>, u32),
>
    decreases c, 0nat,
{
    match c {
        CoreView::Lam { param, effects, body } => performed(w, *body, tys.push(Some(param))),
        CoreView::Let { value, body } => performed(w, *value, tys).union(
            performed(w, *body, tys.push(world::type_of_s(w, *value, tys))),
        ),
        CoreView::Match { scrutinee, branches } => performed_branches(
            w,
            branches,
            branches.len(),
            tys,
        ),
        CoreView::Loop { state, inv, cond, body } => {
            let inner = wasm::unknown(tys, ((state.len() as usize) as u32) as nat);
            performed(w, *cond, inner).union(performed(w, *body, inner))
        },
        CoreView::Perform { cap, op, args } => match world::cap_def(w, cap, tys) {
            Some(h) => set![(wasm_ops::cap_name_of(w, h), op)],
            None => Set::empty(),
        },
        _ => Set::empty(),
    }
}

/// As [`performed`], for the first `n` branches.
pub open spec fn performed_branches(
    w: WorldView,
    v: Seq<BranchView>,
    n: nat,
    tys: Seq<Option<TypeView>>,
) -> Set<(Seq<char>, u32)>
    decreases v, n,
{
    if n == 0 || n > v.len() {
        Set::empty()
    } else {
        performed_branches(w, v, (n - 1) as nat, tys).union(
            performed(w, v[n - 1].body, wasm::unknown(tys, v[n - 1].binds as nat)),
        )
    }
}

/// As [`performed`], for the first `n` functions.
pub open spec fn performed_picks(w: WorldView, v: Seq<PickView>, n: nat) -> Set<(Seq<char>, u32)>
    decreases n,
{
    if n == 0 {
        Set::empty()
    } else {
        performed_picks(w, v, (n - 1) as nat).union(
            match v[n - 1].def.body {
                Some(c) => performed(w, c, Seq::empty()),
                None => Set::empty(),
            },
        )
    }
}

/// The operations that are listed.
pub open spec fn listed(v: Seq<CapImportView>) -> Set<(Seq<char>, u32)> {
    Set::new(|p: (Seq<char>, u32)| exists|i: int| 0 <= i < v.len() && is_listed(v, i, p))
}

pub open spec fn is_listed(v: Seq<CapImportView>, i: int, p: (Seq<char>, u32)) -> bool {
    v[i].cap == p.0 && v[i].op == p.1
}

/// Whether no operation is listed twice.
pub open spec fn once(v: Seq<CapImportView>) -> bool {
    forall|i: int, j: int|
        0 <= i < j < v.len() ==> !((#[trigger] v[i]).cap == (#[trigger] v[j]).cap && v[i].op == v[j].op)
}

proof fn lemma_import(w: WorldView, h: Seq<u8>, op: u32, out: Seq<CapImportView>)
    requires
        once(out),
    ensures
        match wasm::import_s(w, h, op, out) {
            Ok(o) => once(o) && listed(o) =~= listed(out).insert((wasm_ops::cap_name_of(w, h), op)),
            Err(_) => true,
        },
{
    let cap = wasm_ops::cap_name_of(w, h);
    let p = wasm::same_op(out, cap, op);
    find::lemma_first_from(p, 0, out.len() as int);
    match wasm::import_s(w, h, op, out) {
        Ok(o) => {
            match find::first_from(p, 0, out.len() as int) {
                Some(k) => {
                    assert(is_listed(out, k, (cap, op)));
                    assert(listed(out).contains((cap, op)));
                    assert(listed(o) =~= listed(out).insert((cap, op)));
                },
                None => {
                    assert forall|i: int, j: int| 0 <= i < j < o.len() implies !((
                    #[trigger] o[i]).cap == (#[trigger] o[j]).cap && o[i].op == o[j].op) by {
                        if j == out.len() {
                            assert(!p(i));
                        }
                    }
                    assert forall|q: (Seq<char>, u32)| listed(o).contains(q) <==> #[trigger] listed(
                        out,
                    ).insert((cap, op)).contains(q) by {
                        if listed(o).contains(q) {
                            let i = choose|i: int| 0 <= i < o.len() && is_listed(o, i, q);
                            if i < out.len() {
                                assert(is_listed(out, i, q));
                            }
                        }
                        if listed(out).contains(q) {
                            let i = choose|i: int| 0 <= i < out.len() && is_listed(out, i, q);
                            assert(is_listed(o, i, q));
                        }
                        assert(is_listed(o, out.len() as int, (cap, op)));
                    }
                    assert(listed(o) =~= listed(out).insert((cap, op)));
                },
            }
        },
        Err(_) => {},
    }
}

proof fn lemma_walk(
    w: WorldView,
    c: CoreView,
    tys: Seq<Option<TypeView>>,
    out: Seq<CapImportView>,
)
    requires
        once(out),
    ensures
        match wasm::walk_s(w, c, tys, out) {
            Ok(o) => once(o) && listed(o) =~= listed(out).union(performed(w, c, tys)),
            Err(_) => true,
        },
    decreases c, 0nat,
{
    match c {
        CoreView::Lam { param, effects, body } => lemma_walk(w, *body, tys.push(Some(param)), out),
        CoreView::Let { value, body } => {
            lemma_walk(w, *value, tys, out);
            match wasm::walk_s(w, *value, tys, out) {
                Ok(out1) => lemma_walk(
                    w,
                    *body,
                    tys.push(world::type_of_s(w, *value, tys)),
                    out1,
                ),
                Err(_) => {},
            }
        },
        CoreView::Match { scrutinee, branches } => lemma_walk_branches(
            w,
            branches,
            branches.len(),
            tys,
            out,
        ),
        CoreView::Loop { state, inv, cond, body } => {
            let inner = wasm::unknown(tys, ((state.len() as usize) as u32) as nat);
            lemma_walk(w, *cond, inner, out);
            match wasm::walk_s(w, *cond, inner, out) {
                Ok(out1) => lemma_walk(w, *body, inner, out1),
                Err(_) => {},
            }
        },
        CoreView::Perform { cap, op, args } => match world::cap_def(w, cap, tys) {
            Some(h) => lemma_import(w, h, op, out),
            None => {},
        },
        _ => {},
    }
}

proof fn lemma_walk_branches(
    w: WorldView,
    v: Seq<BranchView>,
    n: nat,
    tys: Seq<Option<TypeView>>,
    out: Seq<CapImportView>,
)
    requires
        once(out),
        n <= v.len(),
    ensures
        match wasm::walk_branches(w, v, n, tys, out) {
            Ok(o) => once(o) && listed(o) =~= listed(out).union(performed_branches(w, v, n, tys)),
            Err(_) => true,
        },
    decreases v, n,
{
    if n > 0 {
        lemma_walk_branches(w, v, (n - 1) as nat, tys, out);
        match wasm::walk_branches(w, v, (n - 1) as nat, tys, out) {
            Ok(out1) => lemma_walk(
                w,
                v[n - 1].body,
                wasm::unknown(tys, v[n - 1].binds as nat),
                out1,
            ),
            Err(_) => {},
        }
    }
}

proof fn lemma_imports(w: WorldView, v: Seq<PickView>, n: nat)
    requires
        n <= v.len(),
    ensures
        match wasm::imports_of(w, v, n) {
            Ok(o) => once(o) && listed(o) =~= performed_picks(w, v, n),
            Err(_) => true,
        },
    decreases n,
{
    if n > 0 {
        lemma_imports(w, v, (n - 1) as nat);
        match (wasm::imports_of(w, v, (n - 1) as nat), v[n - 1].def.body) {
            (Ok(out), Some(c)) => lemma_walk(w, c, Seq::empty(), out),
            _ => {},
        }
    } else {
        assert(listed(Seq::empty()) =~= Set::empty());
    }
}

/// A module imports exactly the operations that its functions perform, each once.
pub proof fn lemma_a_module_imports_what_it_performs(
    w: WorldView,
    v: Seq<PickView>,
    checks: bool,
    whole: bool,
)
    ensures
        match wasm::built_s(wasm::plan_s(w, v, checks, whole)) {
            Ok(a) => once(a.imports) && listed(a.imports) == performed_picks(w, v, v.len()),
            Err(_) => true,
        },
{
    lemma_imports(w, v, v.len());
}

} // verus!
