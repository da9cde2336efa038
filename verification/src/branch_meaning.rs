//! A conditional comes to what the arm comes to that its condition picks.
use vstd::prelude::*;

use crate::blocks;
use crate::blocks::GoalView;
use crate::core_meaning;
use crate::core_meaning::{Outcome, Outside, Value};
use crate::emit;
use crate::ir::{AtomView, CoreView};
use crate::lower_sound;
use crate::scope;
use crate::scope::{LowererView, ScopeView, St};
use crate::source_meaning;
use crate::source_meaning::Names;
use crate::syntax::IfExpr;

verus! {

/// A choice between two terms comes to the first of them where its condition is true, and
/// to the second where it is false.
pub proof fn lemma_a_choice(
    w: Outside,
    cond: AtomView,
    no: CoreView,
    yes: CoreView,
    env: Seq<Value>,
    levels: bool,
    fuel: nat,
    b: bool,
)
    requires
        core_meaning::atom_value(cond, env, levels) == Some(Value::Bool(b)),
    ensures
        core_meaning::eval(w, blocks::two_way(cond, no, yes), env, levels, fuel) == if b {
            core_meaning::eval(w, yes, env, levels, fuel)
        } else {
            core_meaning::eval(w, no, env, levels, fuel)
        },
{
    let none = Seq::<Value>::empty();
    assert(env + none =~= env);
    let i = if b {
        1int
    } else {
        0int
    };
    assert(core_meaning::chosen(Value::Bool(b)) == Some((i, none)));
}

/// A conditional of the source comes to what its first block comes to where the condition
/// is true, and else to what stands behind `else`.
pub proof fn lemma_a_conditional_follows_its_condition(
    w: Outside,
    lw: LowererView,
    i: IfExpr,
    goal: GoalView,
    sc: ScopeView,
    st: St,
    env: Seq<Value>,
    names: Names,
    fuel: nat,
    b: bool,
)
    requires
        lower_sound::ready(w, sc, st, env, names, fuel),
        lower_sound::ran(w, st, env, fuel) is Ok,
        source_meaning::expr_value(w, lw, i.cond, sc, names) == Outcome::Value(Value::Bool(b)),
        blocks::if_s(lw, i, goal, sc, st) is Ok,
        lower_sound::fits(blocks::if_s(lw, i, goal, sc, st)->Ok_0.1),
    ensures
        ({
            let (c, t) = blocks::if_s(lw, i, goal, sc, st)->Ok_0;
            let st1 = emit::atom_s(lw, i.cond, sc, st)->Ok_0.1;
            let first = blocks::block_s(lw, i.yes, goal, sc, scope::depth_s(st1), st1.pend);
            let second = blocks::else_s(lw, i, goal, sc, scope::depth_s(st1), first->Ok_0.1);
            &&& lower_sound::ran(w, t, env, fuel) is Ok
            &&& core_meaning::eval(w, c, lower_sound::ran(w, t, env, fuel)->Ok_0, true, fuel) == if b {
                core_meaning::eval(
                    w,
                    first->Ok_0.0,
                    lower_sound::ran(w, t, env, fuel)->Ok_0,
                    true,
                    fuel,
                )
            } else {
                core_meaning::eval(
                    w,
                    second->Ok_0.0,
                    lower_sound::ran(w, t, env, fuel)->Ok_0,
                    true,
                    fuel,
                )
            }
        }),
{
    reveal(lower_sound::atom_means);
    lower_sound::lemma_an_atom_has_the_value_of_its_expression(
        w,
        lw,
        i.cond,
        sc,
        st,
        env,
        names,
        fuel,
    );
    let (c, t) = blocks::if_s(lw, i, goal, sc, st)->Ok_0;
    let (cond, st1) = emit::atom_s(lw, i.cond, sc, st)->Ok_0;
    let first = blocks::block_s(lw, i.yes, goal, sc, scope::depth_s(st1), st1.pend);
    let second = blocks::else_s(lw, i, goal, sc, scope::depth_s(st1), first->Ok_0.1);
    assert(t.lets == st1.lets);
    let e = lower_sound::ran(w, t, env, fuel)->Ok_0;
    lemma_a_choice(w, cond, second->Ok_0.0, first->Ok_0.0, e, true, fuel, b);
}

} // verus!
