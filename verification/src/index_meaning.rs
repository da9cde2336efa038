//! A term means the same with its variables counted from the last binder as it does with
//! them counted from the first one.
use vstd::prelude::*;

use crate::core_meaning;
use crate::core_meaning::{Outcome, Outside, Value};
use crate::indices;
use crate::ir::{AtomView, BranchView, CoreView};

verus! {

/// How many binders stand round the innermost part of a term.
pub open spec fn depth(c: CoreView) -> nat
    decreases c, 0nat,
{
    match c {
        CoreView::Let { value, body } => larger(depth(*value), 1 + depth(*body)),
        CoreView::Match { scrutinee, branches } => depths(branches, branches.len()),
        CoreView::Loop { state, inv, cond, body } => state.len() + larger(
            depth(*cond),
            depth(*body),
        ),
        _ => 0,
    }
}

/// As [`depth`], for the first `n` branches.
pub open spec fn depths(v: Seq<BranchView>, n: nat) -> nat
    decreases v, n,
{
    if n == 0 || n > v.len() {
        0
    } else {
        larger(depths(v, (n - 1) as nat), v[n - 1].binds as nat + depth(v[n - 1].body))
    }
}

pub open spec fn larger(a: nat, b: nat) -> nat {
    if a < b {
        b
    } else {
        a
    }
}

proof fn lemma_depth_of_a_branch(v: Seq<BranchView>, n: nat, i: int)
    requires
        0 <= i < n <= v.len(),
    ensures
        v[i].binds + depth(v[i].body) <= depths(v, n),
    decreases n,
{
    if i < n - 1 {
        lemma_depth_of_a_branch(v, (n - 1) as nat, i);
    }
}

proof fn lemma_branch(v: Seq<BranchView>, n: nat, d: u32, i: int)
    requires
        n <= v.len(),
    ensures
        indices::branches_index(v, n, d).len() == n,
        0 <= i < n ==> indices::branches_index(v, n, d)[i] == (BranchView {
            binds: v[i].binds,
            body: indices::core_index(v[i].body, indices::add32(d, v[i].binds)),
        }),
    decreases n,
{
    if n > 0 {
        lemma_branch(v, (n - 1) as nat, d, i);
    }
}

/// An atom.
pub proof fn lemma_an_atom_by_its_index(a: AtomView, env: Seq<Value>)
    requires
        env.len() <= u32::MAX,
    ensures
        core_meaning::atom_value(indices::atom_index(a, env.len() as u32), env, false)
            == core_meaning::atom_value(a, env, true),
{
}

proof fn lemma_atoms_by_their_indices(v: Seq<AtomView>, n: nat, env: Seq<Value>)
    requires
        env.len() <= u32::MAX,
        n <= v.len(),
    ensures
        core_meaning::atom_values(indices::atoms_index(v, env.len() as u32), n, env, false)
            == core_meaning::atom_values(v, n, env, true),
    decreases n,
{
    if n > 0 {
        lemma_atoms_by_their_indices(v, (n - 1) as nat, env);
        lemma_an_atom_by_its_index(v[n - 1], env);
    }
}

/// A term that computes one thing from atoms.
proof fn lemma_a_step_by_its_indices(w: Outside, c: CoreView, env: Seq<Value>)
    requires
        env.len() <= u32::MAX,
    ensures
        core_meaning::simple_outcome(w, indices::core_index(c, env.len() as u32), env, false)
            == core_meaning::simple_outcome(w, c, env, true),
{
    assert forall|a: AtomView|
        core_meaning::atom_value(#[trigger] indices::atom_index(a, env.len() as u32), env, false)
            == core_meaning::atom_value(a, env, true) by {
        lemma_an_atom_by_its_index(a, env);
    }
    match c {
        CoreView::Ctor { ty, tag, fields } => {
            lemma_atoms_by_their_indices(fields, fields.len(), env);
        },
        CoreView::Array { elem, items } => {
            lemma_atoms_by_their_indices(items, items.len(), env);
        },
        CoreView::Prim { op, args } => lemma_atoms_by_their_indices(args, args.len(), env),
        CoreView::Perform { cap, op, args } => lemma_atoms_by_their_indices(args, args.len(), env),
        CoreView::Raise { error, args } => lemma_atoms_by_their_indices(args, args.len(), env),
        _ => {},
    }
}

/// Rewriting the levels of a term into indices changes nothing of what comes of it.
pub proof fn lemma_a_term_by_its_indices(w: Outside, c: CoreView, env: Seq<Value>, fuel: nat)
    requires
        env.len() + depth(c) <= u32::MAX,
    ensures
        core_meaning::eval(w, indices::core_index(c, env.len() as u32), env, false, fuel)
            == core_meaning::eval(w, c, env, true, fuel),
    decreases fuel, c, 1nat,
{
    let d = env.len() as u32;
    match c {
        CoreView::Let { value, body } => {
            lemma_a_term_by_its_indices(w, *value, env, fuel);
            match core_meaning::eval(w, *value, env, true, fuel) {
                Outcome::Value(v) => lemma_a_term_by_its_indices(w, *body, env.push(v), fuel),
                _ => {},
            }
        },
        CoreView::Match { scrutinee, branches } => {
            lemma_an_atom_by_its_index(scrutinee, env);
            lemma_branch(branches, branches.len(), d, 0);
            match core_meaning::atom_value(scrutinee, env, true) {
                Some(v) => match core_meaning::chosen(v) {
                    Some((i, bound)) => if i < branches.len() && bound.len() == branches[i].binds {
                        lemma_branch(branches, branches.len(), d, i);
                        lemma_depth_of_a_branch(branches, branches.len(), i);
                        lemma_a_term_by_its_indices(w, branches[i].body, env + bound, fuel);
                    } else if i < branches.len() {
                        lemma_branch(branches, branches.len(), d, i);
                    },
                    None => {},
                },
                None => {},
            }
        },
        CoreView::Loop { state, inv, cond, body } => {
            lemma_atoms_by_their_indices(state, state.len(), env);
            match core_meaning::atom_values(state, state.len(), env, true) {
                Some(v) => {
                    lemma_atom_count(state, state.len(), env);
                    lemma_a_loop_by_its_indices(w, c, env, v, fuel);
                },
                None => {},
            }
        },
        _ => lemma_a_step_by_its_indices(w, c, env),
    }
}

proof fn lemma_atom_count(v: Seq<AtomView>, n: nat, env: Seq<Value>)
    ensures
        core_meaning::atom_values(v, n, env, true) matches Some(out) ==> out.len() == n,
    decreases n,
{
    if n > 0 {
        lemma_atom_count(v, (n - 1) as nat, env);
    }
}

proof fn lemma_a_loop_by_its_indices(w: Outside, c: CoreView, env: Seq<Value>, held: Seq<Value>, fuel: nat)
    requires
        env.len() + depth(c) <= u32::MAX,
        c matches CoreView::Loop { state, inv, cond, body } && state.len() == held.len(),
    ensures
        core_meaning::turns(w, indices::core_index(c, env.len() as u32), env, held, false, fuel)
            == core_meaning::turns(w, c, env, held, true, fuel),
    decreases fuel, c, 0nat,
{
    match c {
        CoreView::Loop { state, inv, cond, body } => {
            lemma_a_term_by_its_indices(w, *cond, env + held, fuel);
            lemma_a_term_by_its_indices(w, *body, env + held, fuel);
            match core_meaning::eval(w, *body, env + held, true, fuel) {
                Outcome::Value(Value::Data { ty, tag, fields }) => if fields.len() == held.len()
                    && fuel > 0 {
                    lemma_a_loop_by_its_indices(w, c, env, fields, (fuel - 1) as nat);
                },
                _ => {},
            }
        },
        _ => {},
    }
}

} // verus!
