//! The parts of a loop over members: its test, the member of a turn, and the step to the
//! next one.
use vstd::prelude::*;

use crate::assign_meaning;
use crate::assign_meaning::{holds, renamed};
use crate::blocks;
use crate::core_meaning;
use crate::core_meaning::{Outcome, Outside, Value};
use crate::emit;
use crate::ir::{AtomView, CoreView, LiteralView, PrimOp};
use crate::lower_sound;
use crate::lower_sound::{extends, fits, grows, links, ran, ready};
use crate::scope;
use crate::scope::{BindView, LowererView, ScopeView, St};
use crate::source_meaning;
use crate::source_meaning::Names;
use crate::syntax::Expr;

verus! {

/// A variable: its atom has the value of its name.
proof fn lemma_name_holds(
    w: Outside,
    lw: LowererView,
    name: Seq<char>,
    sc: ScopeView,
    st: St,
    env: Seq<Value>,
    names: Names,
    fuel: nat,
    v: Value,
)
    requires
        ready(w, sc, st, env, names, fuel),
        ran(w, st, env, fuel) is Ok,
        emit::var_s(lw, name, sc, st) is Ok,
        names(name) == Some(v),
    ensures
        grows(st, emit::var_s(lw, name, sc, st)->Ok_0.1),
        fits(emit::var_s(lw, name, sc, st)->Ok_0.1) ==> holds(
            w,
            emit::var_s(lw, name, sc, st)->Ok_0.1,
            env,
            fuel,
            emit::var_s(lw, name, sc, st)->Ok_0.0,
            v,
        ) && extends(
            ran(w, st, env, fuel)->Ok_0,
            ran(w, emit::var_s(lw, name, sc, st)->Ok_0.1, env, fuel)->Ok_0,
        ),
{
    reveal(lower_sound::atom_means);
    lower_sound::lemma_var(w, lw, name, sc, st, env, names, fuel);
}

/// The step of a loop: the index that counts the turns is one more, and every other name
/// has the value that it had.
pub proof fn lemma_a_step_counts(
    w: Outside,
    lw: LowererView,
    index: Seq<char>,
    sc: ScopeView,
    st: St,
    env: Seq<Value>,
    names: Names,
    fuel: nat,
    k: int,
)
    requires
        ready(w, sc, st, env, names, fuel),
        ran(w, st, env, fuel) is Ok,
        names(index) == Some(Value::Int(k)),
        blocks::advance_s(lw, index, sc, st) is Ok,
        fits(blocks::advance_s(lw, index, sc, st)->Ok_0.1),
    ensures
        ({
            let (sc1, t) = blocks::advance_s(lw, index, sc, st)->Ok_0;
            ran(w, t, env, fuel) matches Ok(e) && links(
                sc1,
                e,
                renamed(names, index, Value::Int(core_meaning::wrap(k + 1))),
            )
        }),
{
    let (i, st1) = emit::var_s(lw, index, sc, st)->Ok_0;
    let one = AtomView::Lit(LiteralView::Int(1));
    let c = CoreView::Prim { op: PrimOp::Add, args: seq![i, one] };
    let (a, st2) = scope::push_s(st1, c);
    lemma_name_holds(w, lw, index, sc, st, env, names, fuel, Value::Int(k));
    lower_sound::lemma_on(w, sc, st, st1, env, names, fuel);
    lower_sound::lemma_push(w, st1, c, env, fuel);
    let e1 = ran(w, st1, env, fuel)->Ok_0;
    lower_sound::lemma_two(i, one, e1, true);
    let p = seq![Value::Int(k), Value::Int(1)];
    assert(p.len() == 2 && p[0] == Value::Int(k) && p[1] == Value::Int(1));
    let v = Value::Int(core_meaning::wrap(k + 1));
    assign_meaning::lemma_bound(w, st1, c, env, fuel, e1, v);
    lower_sound::lemma_on(w, sc, st1, st2, env, names, fuel);
    assign_meaning::lemma_name_of_a_binding(sc, index);
    assign_meaning::lemma_one_more_binding(
        sc,
        BindView { atom: a, ..scope::local(sc, index)->0 },
        e1.push(v),
        names,
        v,
    );
}

/// The member of a turn: over what is not an iterator of its own, the loop's variable is
/// the member at the index, and every other name has the value that it had.
pub proof fn lemma_a_turn_has_its_member(
    w: Outside,
    lw: LowererView,
    binder: Seq<char>,
    iter: Expr,
    index: Seq<char>,
    sc: ScopeView,
    st: St,
    env: Seq<Value>,
    names: Names,
    fuel: nat,
    x: Value,
    k: int,
    v: Value,
)
    requires
        ready(w, sc, st, env, names, fuel),
        ran(w, st, env, fuel) is Ok,
        blocks::protocol(lw, "iter_get"@, iter, sc, st.pend) is None,
        source_meaning::expr_value(w, lw, iter, sc, names) == Outcome::Value(x),
        names(index) == Some(Value::Int(k)),
        source_meaning::member_value(x, Value::Int(k)) == Outcome::Value(v),
        blocks::item_s(lw, binder, iter, index, sc, st) is Ok,
        fits(blocks::item_s(lw, binder, iter, index, sc, st)->Ok_0.1),
    ensures
        ({
            let (sc1, t) = blocks::item_s(lw, binder, iter, index, sc, st)->Ok_0;
            ran(w, t, env, fuel) matches Ok(e) && links(sc1, e, renamed(names, binder, v))
        }),
{
    let (a, st1) = emit::atom_s(lw, iter, sc, st)->Ok_0;
    assign_meaning::lemma_index_grows(w, lw, iter, sc, st, env, names, fuel);
    lower_sound::lemma_on(w, sc, st, st1, env, names, fuel);
    let (i, st2) = emit::var_s(lw, index, sc, st1)->Ok_0;
    lemma_var_grows(w, lw, index, sc, st1, env, names, fuel);
    let c = CoreView::Prim { op: PrimOp::Index, args: seq![a, i] };
    let (m, st3) = scope::push_s(st2, c);
    lower_sound::lemma_on(w, sc, st1, st2, env, names, fuel);
    lower_sound::lemma_push(w, st2, c, env, fuel);
    assign_meaning::lemma_index_holds(w, lw, iter, sc, st, env, names, fuel, x);
    lemma_name_holds(w, lw, index, sc, st1, env, names, fuel, Value::Int(k));
    let e1 = ran(w, st1, env, fuel)->Ok_0;
    let e2 = ran(w, st2, env, fuel)->Ok_0;
    lower_sound::lemma_atom_kept(a, e1, e2);
    lower_sound::lemma_two(a, i, e2, true);
    let p = seq![x, Value::Int(k)];
    assert(p.len() == 2 && p[0] == x && p[1] == Value::Int(k));
    assign_meaning::lemma_bound(w, st2, c, env, fuel, e2, v);
    lower_sound::lemma_on(w, sc, st2, st3, env, names, fuel);
    let b = BindView {
        name: binder,
        atom: m,
        ty: blocks::item_type(lw, iter, sc),
        mutable: false,
        decl: sc.binds.len(),
    };
    assign_meaning::lemma_one_more_binding(sc, b, e2.push(v), names, v);
}

proof fn lemma_var_grows(
    w: Outside,
    lw: LowererView,
    name: Seq<char>,
    sc: ScopeView,
    st: St,
    env: Seq<Value>,
    names: Names,
    fuel: nat,
)
    requires
        ready(w, sc, st, env, names, fuel),
    ensures
        emit::var_s(lw, name, sc, st) matches Ok((a, t)) ==> grows(st, t),
{
    reveal(lower_sound::atom_means);
    lower_sound::lemma_var(w, lw, name, sc, st, env, names, fuel);
}

/// The test of a loop: over what is not an iterator of its own, and where no function of
/// the program is named `len`, it says whether the index is below the number of members.
pub proof fn lemma_a_test_bounds_the_index(
    w: Outside,
    lw: LowererView,
    iter: Expr,
    index: Seq<char>,
    sc: ScopeView,
    st: St,
    env: Seq<Value>,
    names: Names,
    fuel: nat,
    x: Value,
    k: int,
    members: Seq<Value>,
)
    requires
        ready(w, sc, st, env, names, fuel),
        ran(w, st, env, fuel) is Ok,
        blocks::below_s(lw, iter, index, sc, st) is Ok,
        fits(blocks::below_s(lw, iter, index, sc, st)->Ok_0.1),
        blocks::protocol(
            lw,
            "iter_len"@,
            iter,
            sc,
            (emit::var_s(lw, index, sc, st)->Ok_0.1).pend,
        ) is None,
        scope::local(sc, "len"@) is None,
        source_meaning::expr_value(w, lw, iter, sc, names) == Outcome::Value(x),
        names(index) == Some(Value::Int(k)),
        core_meaning::members(x) == Some(members),
    ensures
        ({
            let (c, t) = blocks::below_s(lw, iter, index, sc, st)->Ok_0;
            ran(w, t, env, fuel) matches Ok(e) && core_meaning::eval(w, c, e, true, fuel)
                == Outcome::Value(Value::Bool(k < members.len()))
        }),
{
    let (i, st1) = emit::var_s(lw, index, sc, st)->Ok_0;
    lemma_var_grows(w, lw, index, sc, st, env, names, fuel);
    lower_sound::lemma_on(w, sc, st, st1, env, names, fuel);
    let (a, st2) = emit::atom_s(lw, iter, sc, st1)->Ok_0;
    assign_meaning::lemma_index_grows(w, lw, iter, sc, st1, env, names, fuel);
    lower_sound::lemma_on(w, sc, st1, st2, env, names, fuel);
    let c1 = CoreView::Prim { op: PrimOp::Len, args: seq![a] };
    let (n, st3) = scope::push_s(st2, c1);
    lower_sound::lemma_push(w, st2, c1, env, fuel);
    lemma_name_holds(w, lw, index, sc, st, env, names, fuel, Value::Int(k));
    assign_meaning::lemma_index_holds(w, lw, iter, sc, st1, env, names, fuel, x);
    let e1 = ran(w, st1, env, fuel)->Ok_0;
    let e2 = ran(w, st2, env, fuel)->Ok_0;
    lower_sound::lemma_atom_kept(i, e1, e2);
    lower_sound::lemma_one(a, e2, true);
    let p = seq![x];
    assert(p.len() == 1 && p[0] == x);
    let len = Value::Int(members.len() as int);
    assign_meaning::lemma_bound(w, st2, c1, env, fuel, e2, len);
    let e3 = e2.push(len);
    lower_sound::lemma_atom_kept(i, e2, e3);
    lower_sound::lemma_two(i, n, e3, true);
    let q = seq![Value::Int(k), len];
    assert(q.len() == 2 && q[0] == Value::Int(k) && q[1] == len);
}

} // verus!
