//! An assignment gives the variable that it changes its old value with the one place
//! changed, and leaves every other variable as it is.
use vstd::prelude::*;

use crate::assign;
use crate::blocks;
use crate::branch_meaning;
use crate::core_meaning;
use crate::core_meaning::{Outcome, Outside, Value};
use crate::decls;
use crate::emit;
use crate::find;
use crate::hash;
use crate::ir::{AtomView, CoreView, PrimOp};
use crate::lower_sound;
use crate::lower_sound::{extends, fits, grows, links, ran, ready};
use crate::resolve;
use crate::scope;
use crate::scope::{BindView, LowererView, ScopeView, St};
use crate::source_meaning;
use crate::source_meaning::Names;
use crate::syntax::{Expr, LValue, STypeView};

verus! {

/// Whether an atom has a value once the terms bound so far have run.
pub open spec fn holds(w: Outside, st: St, env: Seq<Value>, fuel: nat, a: AtomView, v: Value) -> bool {
    ran(w, st, env, fuel) matches Ok(e) && core_meaning::atom_value(a, e, true) == Some(v)
}

/// A term that is bound, and has a value.
pub proof fn lemma_bound(w: Outside, st: St, c: CoreView, env: Seq<Value>, fuel: nat, e: Seq<Value>, v: Value)
    requires
        env.len() == st.base,
        fits(scope::push_s(st, c).1),
        ran(w, st, env, fuel) == Ok::<Seq<Value>, Outcome>(e),
        core_meaning::eval(w, c, e, true, fuel) == Outcome::Value(v),
    ensures
        ({
            let (a, t) = scope::push_s(st, c);
            &&& grows(st, t)
            &&& fits(st)
            &&& ran(w, t, env, fuel) == Ok::<Seq<Value>, Outcome>(e.push(v))
            &&& extends(e, e.push(v))
            &&& core_meaning::atom_value(a, e.push(v), true) == Some(v)
        }),
{
    lower_sound::lemma_push(w, st, c, env, fuel);
}

// ---- fields -----------------------------------------------------------------------------------------

/// The fields of a struct with one of them changed: the atoms stand for the old fields but
/// for the one, which stands for the new value.
pub proof fn lemma_rebuilt(
    w: Outside,
    base: AtomView,
    at: int,
    new: AtomView,
    n: nat,
    st: St,
    env: Seq<Value>,
    fuel: nat,
    e: Seq<Value>,
    ty: Seq<u8>,
    tag: u32,
    fields: Seq<Value>,
    x: Value,
) -> (r: (Seq<Value>, Seq<Value>))
    requires
        env.len() == st.base,
        ran(w, st, env, fuel) == Ok::<Seq<Value>, Outcome>(e),
        fits(assign::rebuilt_s(base, at, new, n, st).1),
        n <= fields.len(),
        n <= u32::MAX,
        core_meaning::atom_value(base, e, true) == Some(Value::Data { ty, tag, fields }),
        core_meaning::atom_value(new, e, true) == Some(x),
    ensures
        ({
            let (out, t) = assign::rebuilt_s(base, at, new, n, st);
            &&& grows(st, t)
            &&& ran(w, t, env, fuel) == Ok::<Seq<Value>, Outcome>(r.0)
            &&& extends(e, r.0)
            &&& out.len() == n
            &&& core_meaning::atom_values(out, n, r.0, true) == Some(r.1)
            &&& r.1.len() == n
            &&& forall|i: int|
                0 <= i < n ==> #[trigger] r.1[i] == if i == at {
                    x
                } else {
                    fields[i]
                }
        }),
    decreases n,
{
    if n == 0 {
        (e, Seq::empty())
    } else {
        let k = (n - 1) as nat;
        let (out, st1) = assign::rebuilt_s(base, at, new, k, st);
        lemma_rebuilt_grows(base, at, new, k, st);
        let c = CoreView::Proj { base, idx: (k as usize) as u32 };
        lower_sound::lemma_push(w, st1, c, env, fuel);
        let (e1, v1) = lemma_rebuilt(
            w,
            base,
            at,
            new,
            k,
            st,
            env,
            fuel,
            e,
            ty,
            tag,
            fields,
            x,
        );
        lower_sound::lemma_atom_kept(base, e, e1);
        lower_sound::lemma_atom_kept(new, e, e1);
        let a = if k == at {
            new
        } else {
            scope::push_s(st1, c).0
        };
        let all = out.push(a);
        lower_sound::lemma_atoms_prefix(out, all, k, e1);
        assert(all[k as int] == a);
        if k == at {
            (e1, v1.push(x))
        } else {
            let v = fields[k as int];
            lemma_bound(w, st1, c, env, fuel, e1, v);
            lower_sound::lemma_chain(st, st1, scope::push_s(st1, c).1);
            lower_sound::lemma_extends(e, e1, e1.push(v));
            lower_sound::lemma_atoms_kept(all, k, e1, e1.push(v));
            (e1.push(v), v1.push(v))
        }
    }
}

proof fn lemma_rebuilt_grows(base: AtomView, at: int, new: AtomView, n: nat, st: St)
    ensures
        grows(st, assign::rebuilt_s(base, at, new, n, st).1),
    decreases n,
{
    if n > 0 {
        lemma_rebuilt_grows(base, at, new, (n - 1) as nat, st);
    }
}

// ---- members ----------------------------------------------------------------------------------------

proof fn lemma_stored_grows(base: AtomView, index: AtomView, new: AtomView, n: nat, st: St)
    ensures
        grows(st, assign::stored_s(base, index, new, n, st).1),
    decreases n,
{
    if n > 0 {
        lemma_stored_grows(base, index, new, (n - 1) as nat, st);
    }
}

/// One member of an array as it is kept or changed: the terms that decide it.
proof fn lemma_one_stored(
    w: Outside,
    base: AtomView,
    index: AtomView,
    new: AtomView,
    k: nat,
    st: St,
    env: Seq<Value>,
    fuel: nat,
    e: Seq<Value>,
    items: Seq<Value>,
    i: int,
    x: Value,
) -> (e2: Seq<Value>)
    requires
        env.len() == st.base,
        ran(w, st, env, fuel) == Ok::<Seq<Value>, Outcome>(e),
        k < items.len(),
        k < 0x7fff_ffff_ffff_ffff,
        core_meaning::atom_value(base, e, true) == Some(Value::Array(items)),
        core_meaning::atom_value(index, e, true) == Some(Value::Int(i)),
        core_meaning::atom_value(new, e, true) == Some(x),
        ({
            let here = assign::place(k);
            let (hit, st1) = scope::push_s(
                st,
                CoreView::Prim { op: PrimOp::Eq, args: seq![index, here] },
            );
            let (kept, st2) = scope::push_s(
                st1,
                CoreView::Prim { op: PrimOp::Index, args: seq![base, here] },
            );
            fits(scope::push_s(st2, assign::choice(hit, kept, new)).1)
        }),
    ensures
        ({
            let here = assign::place(k);
            let (hit, st1) = scope::push_s(
                st,
                CoreView::Prim { op: PrimOp::Eq, args: seq![index, here] },
            );
            let (kept, st2) = scope::push_s(
                st1,
                CoreView::Prim { op: PrimOp::Index, args: seq![base, here] },
            );
            let (a, st3) = scope::push_s(st2, assign::choice(hit, kept, new));
            &&& grows(st, st3)
            &&& ran(w, st3, env, fuel) == Ok::<Seq<Value>, Outcome>(e2)
            &&& extends(e, e2)
            &&& core_meaning::atom_value(a, e2, true) == Some(
                if k == i {
                    x
                } else {
                    items[k as int]
                },
            )
        }),
{
    let here = assign::place(k);
    let c1 = CoreView::Prim { op: PrimOp::Eq, args: seq![index, here] };
    let (hit, st1) = scope::push_s(st, c1);
    let c2 = CoreView::Prim { op: PrimOp::Index, args: seq![base, here] };
    let (kept, st2) = scope::push_s(st1, c2);
    let c3 = assign::choice(hit, kept, new);
    lower_sound::lemma_push(w, st2, c3, env, fuel);
    lower_sound::lemma_push(w, st1, c2, env, fuel);
    lower_sound::lemma_two(index, here, e, true);
    let p1 = seq![Value::Int(i), Value::Int(k as int)];
    assert(p1.len() == 2 && p1[0] == Value::Int(i) && p1[1] == Value::Int(k as int));
    let b = i == k;
    lemma_bound(w, st, c1, env, fuel, e, Value::Bool(b));
    let e1 = e.push(Value::Bool(b));
    lower_sound::lemma_atom_kept(base, e, e1);
    lower_sound::lemma_two(base, here, e1, true);
    let p2 = seq![Value::Array(items), Value::Int(k as int)];
    assert(p2.len() == 2 && p2[0] == Value::Array(items) && p2[1] == Value::Int(k as int));
    let old = items[k as int];
    lemma_bound(w, st1, c2, env, fuel, e1, old);
    let e2 = e1.push(old);
    lower_sound::lemma_atom_kept(hit, e1, e2);
    lower_sound::lemma_extends(e, e1, e2);
    lower_sound::lemma_atom_kept(new, e, e2);
    branch_meaning::lemma_a_choice(
        w,
        hit,
        CoreView::Atom(kept),
        CoreView::Atom(new),
        e2,
        true,
        fuel,
        b,
    );
    assert(c3 == blocks::two_way(hit, CoreView::Atom(kept), CoreView::Atom(new)));
    let v = if b {
        x
    } else {
        old
    };
    assert(core_meaning::eval(w, c3, e2, true, fuel) == Outcome::Value(v));
    lemma_bound(w, st2, c3, env, fuel, e2, v);
    let st3 = scope::push_s(st2, c3).1;
    lower_sound::lemma_chain(st, st1, st2);
    lower_sound::lemma_chain(st, st2, st3);
    lower_sound::lemma_extends(e, e2, e2.push(v));
    e2.push(v)
}

/// The members of an array with one of them changed.
pub proof fn lemma_stored(
    w: Outside,
    base: AtomView,
    index: AtomView,
    new: AtomView,
    n: nat,
    st: St,
    env: Seq<Value>,
    fuel: nat,
    e: Seq<Value>,
    items: Seq<Value>,
    i: int,
    x: Value,
) -> (r: (Seq<Value>, Seq<Value>))
    requires
        env.len() == st.base,
        ran(w, st, env, fuel) == Ok::<Seq<Value>, Outcome>(e),
        fits(assign::stored_s(base, index, new, n, st).1),
        n <= items.len(),
        n <= 0x7fff_ffff_ffff_ffff,
        core_meaning::atom_value(base, e, true) == Some(Value::Array(items)),
        core_meaning::atom_value(index, e, true) == Some(Value::Int(i)),
        core_meaning::atom_value(new, e, true) == Some(x),
    ensures
        ({
            let (out, t) = assign::stored_s(base, index, new, n, st);
            &&& grows(st, t)
            &&& ran(w, t, env, fuel) == Ok::<Seq<Value>, Outcome>(r.0)
            &&& extends(e, r.0)
            &&& out.len() == n
            &&& core_meaning::atom_values(out, n, r.0, true) == Some(r.1)
            &&& r.1.len() == n
            &&& forall|k: int|
                0 <= k < n ==> #[trigger] r.1[k] == if k == i {
                    x
                } else {
                    items[k]
                }
        }),
    decreases n,
{
    if n == 0 {
        (e, Seq::empty())
    } else {
        let k = (n - 1) as nat;
        let (out, st1) = assign::stored_s(base, index, new, k, st);
        lemma_stored_grows(base, index, new, k, st);
        lemma_stored_grows(base, index, new, n, st);
        let (all, t) = assign::stored_s(base, index, new, n, st);
        assert(grows(st1, t));
        lower_sound::lemma_grown(w, st1, t, env, fuel);
        let (e1, v1) = lemma_stored(w, base, index, new, k, st, env, fuel, e, items, i, x);
        lower_sound::lemma_atom_kept(base, e, e1);
        lower_sound::lemma_atom_kept(index, e, e1);
        lower_sound::lemma_atom_kept(new, e, e1);
        let e2 = lemma_one_stored(w, base, index, new, k, st1, env, fuel, e1, items, i, x);
        lower_sound::lemma_chain(st, st1, t);
        lower_sound::lemma_extends(e, e1, e2);
        lower_sound::lemma_atoms_prefix(out, all, k, e1);
        lower_sound::lemma_atoms_kept(all, k, e1, e2);
        let v = if k == i {
            x
        } else {
            items[k as int]
        };
        (e2, v1.push(v))
    }
}

/// Assigning to a member makes an array that is the old one with that member changed.
pub proof fn lemma_an_assigned_member(
    w: Outside,
    lw: LowererView,
    t: STypeView,
    base: AtomView,
    index: AtomView,
    new: AtomView,
    st: St,
    env: Seq<Value>,
    fuel: nat,
    items: Seq<Value>,
    i: int,
    x: Value,
)
    requires
        env.len() == st.base,
        assign::element_s(lw, t, base, index, new, st) matches Some((a, st1)) && fits(st1),
        t matches STypeView::Array { len, elem } ==> len == items.len() && len
            <= 0x7fff_ffff_ffff_ffff,
        0 <= i < items.len(),
        holds(w, st, env, fuel, base, Value::Array(items)),
        holds(w, st, env, fuel, index, Value::Int(i)),
        holds(w, st, env, fuel, new, x),
    ensures
        assign::element_s(lw, t, base, index, new, st) matches Some((a, st1)) && grows(st, st1)
            && holds(w, st1, env, fuel, a, Value::Array(items.update(i, x))),
{
    let e = ran(w, st, env, fuel)->Ok_0;
    let (a, last) = assign::element_s(lw, t, base, index, new, st)->0;
    match t {
        STypeView::Slice(_) => {
            let c = CoreView::IndexSet { base, index, value: new };
            lemma_bound(w, st, c, env, fuel, e, Value::Array(items.update(i, x)));
        },
        STypeView::Array { len, elem } => {
            let c1 = CoreView::Prim { op: PrimOp::Index, args: seq![base, index] };
            let st1 = scope::push_s(st, c1).1;
            let (out, st2) = assign::stored_s(base, index, new, len as nat, st1);
            lemma_stored_grows(base, index, new, len as nat, st1);
            let c2 = CoreView::Array { elem: resolve::ty_s(lw, *elem, Seq::empty()), items: out };
            lower_sound::lemma_push(w, st2, c2, env, fuel);
            lower_sound::lemma_grown(w, st1, st2, env, fuel);
            lower_sound::lemma_two(base, index, e, true);
            let p = seq![Value::Array(items), Value::Int(i)];
            assert(p.len() == 2 && p[0] == Value::Array(items) && p[1] == Value::Int(i));
            lemma_bound(w, st, c1, env, fuel, e, items[i]);
            let e1 = e.push(items[i]);
            lower_sound::lemma_atom_kept(base, e, e1);
            lower_sound::lemma_atom_kept(index, e, e1);
            lower_sound::lemma_atom_kept(new, e, e1);
            let (e2, v) = lemma_stored(
                w,
                base,
                index,
                new,
                len as nat,
                st1,
                env,
                fuel,
                e1,
                items,
                i,
                x,
            );
            assert(v =~= items.update(i, x));
            lemma_bound(w, st2, c2, env, fuel, e2, Value::Array(v));
            lower_sound::lemma_chain(st, st1, st2);
            lower_sound::lemma_chain(st, st2, last);
        },
        _ => {},
    }
}

// ---- assignments ------------------------------------------------------------------------------------

/// What stands in a place that can be assigned to.
pub open spec fn place_value(w: Outside, lw: LowererView, lv: LValue, sc: ScopeView, names: Names) -> Outcome
    decreases lv,
{
    match lv {
        LValue::Var(name) => source_meaning::name_value(lw, name@, sc, names),
        LValue::Field(base, field) => match place_value(w, lw, *base, sc, names) {
            Outcome::Value(x) => match (
                resolve::projection(lw, assign::target_type(lw, *base, sc), field@),
                x,
            ) {
                (Ok((_, i)), Value::Data { ty, tag, fields }) => if ((i as usize) as u32)
                    < fields.len() {
                    Outcome::Value(fields[((i as usize) as u32) as int])
                } else {
                    Outcome::Stop
                },
                _ => Outcome::Stop,
            },
            other => other,
        },
        LValue::Index(base, index) => match (
            place_value(w, lw, *base, sc, names),
            source_meaning::expr_value(w, lw, *index, sc, names),
        ) {
            (Outcome::Value(Value::Array(v)), Outcome::Value(Value::Int(i))) => if 0 <= i < v.len() {
                Outcome::Value(v[i])
            } else {
                Outcome::Stop
            },
            _ => Outcome::Stop,
        },
    }
}

/// The variable that an assignment changes, and its new value: the old one with the place
/// changed. There is none where what stands there is not of the declared shape.
pub open spec fn assigned(
    w: Outside,
    lw: LowererView,
    lv: LValue,
    sc: ScopeView,
    names: Names,
    x: Value,
) -> Option<(Seq<char>, Value)>
    decreases lv,
{
    match lv {
        LValue::Var(name) => Some((name@, x)),
        LValue::Field(base, field) => match (
            place_value(w, lw, *base, sc, names),
            resolve::projection(lw, assign::target_type(lw, *base, sc), field@),
        ) {
            (Outcome::Value(Value::Data { ty, tag, fields }), Ok((s, at))) => if 0 <= at
                < fields.len() <= u32::MAX && tag == 0 && ty == hash::symbol_id(
                resolve::struct_qual(lw, s),
            ) && (decls::struct_named(lw.m, s) matches Some(d) && d.fields@.len() == fields.len()) {
                assigned(
                    w,
                    lw,
                    *base,
                    sc,
                    names,
                    Value::Data { ty, tag, fields: fields.update(at, x) },
                )
            } else {
                None
            },
            _ => None,
        },
        LValue::Index(base, index) => match (
            place_value(w, lw, *base, sc, names),
            source_meaning::expr_value(w, lw, *index, sc, names),
        ) {
            (Outcome::Value(Value::Array(items)), Outcome::Value(Value::Int(i))) => if 0 <= i
                < items.len() && (assign::peeled(assign::target_type(lw, *base, sc)) matches Some(
                STypeView::Array { len, elem },
            ) ==> len == items.len() && len <= 0x7fff_ffff_ffff_ffff) {
                assigned(w, lw, *base, sc, names, Value::Array(items.update(i, x)))
            } else {
                None
            },
            _ => None,
        },
    }
}

/// The names with one of them given another value.
pub open spec fn renamed(names: Names, root: Seq<char>, v: Value) -> Names {
    |y: Seq<char>|
        if y == root {
            Some(v)
        } else {
            names(y)
        }
}

proof fn lemma_target_grows(
    w: Outside,
    lw: LowererView,
    lv: LValue,
    sc: ScopeView,
    st: St,
    env: Seq<Value>,
    names: Names,
    fuel: nat,
)
    requires
        ready(w, sc, st, env, names, fuel),
    ensures
        assign::target_s(lw, lv, sc, st) matches Ok((a, t)) ==> grows(st, t),
    decreases lv,
{
    match lv {
        LValue::Var(name) => {
            reveal(lower_sound::atom_means);
            lower_sound::lemma_var(w, lw, name@, sc, st, env, names, fuel);
        },
        LValue::Field(base, field) => {
            lemma_target_grows(w, lw, *base, sc, st, env, names, fuel);
        },
        LValue::Index(base, index) => {
            lemma_target_grows(w, lw, *base, sc, st, env, names, fuel);
            if assign::target_s(lw, *base, sc, st) is Ok {
                let st1 = assign::target_s(lw, *base, sc, st)->Ok_0.1;
                lower_sound::lemma_on(w, sc, st, st1, env, names, fuel);
                lemma_index_grows(w, lw, *index, sc, st1, env, names, fuel);
                if emit::atom_s(lw, *index, sc, st1) is Ok {
                    lower_sound::lemma_chain(st, st1, emit::atom_s(lw, *index, sc, st1)->Ok_0.1);
                }
            }
        },
    }
}

/// The lowering of an expression binds further terms.
pub proof fn lemma_index_grows(
    w: Outside,
    lw: LowererView,
    index: Expr,
    sc: ScopeView,
    st: St,
    env: Seq<Value>,
    names: Names,
    fuel: nat,
)
    requires
        ready(w, sc, st, env, names, fuel),
    ensures
        emit::atom_s(lw, index, sc, st) matches Ok((a, t)) ==> grows(st, t),
{
    reveal(lower_sound::atom_means);
    lower_sound::lemma_an_atom_has_the_value_of_its_expression(w, lw, index, sc, st, env, names, fuel);
}

/// An index: its atom has the value of its expression.
pub proof fn lemma_index_holds(
    w: Outside,
    lw: LowererView,
    index: Expr,
    sc: ScopeView,
    st: St,
    env: Seq<Value>,
    names: Names,
    fuel: nat,
    v: Value,
)
    requires
        ready(w, sc, st, env, names, fuel),
        ran(w, st, env, fuel) is Ok,
        emit::atom_s(lw, index, sc, st) is Ok,
        fits(emit::atom_s(lw, index, sc, st)->Ok_0.1),
        source_meaning::expr_value(w, lw, index, sc, names) == Outcome::Value(v),
    ensures
        emit::atom_s(lw, index, sc, st) matches Ok((a, t)) && grows(st, t) && holds(
            w,
            t,
            env,
            fuel,
            a,
            v,
        ) && extends(ran(w, st, env, fuel)->Ok_0, ran(w, t, env, fuel)->Ok_0),
{
    reveal(lower_sound::atom_means);
    lower_sound::lemma_an_atom_has_the_value_of_its_expression(w, lw, index, sc, st, env, names, fuel);
}

/// The atom of a place that can be assigned to has the value that stands there.
#[verifier::rlimit(40)]
pub proof fn lemma_a_target_has_its_value(
    w: Outside,
    lw: LowererView,
    lv: LValue,
    sc: ScopeView,
    st: St,
    env: Seq<Value>,
    names: Names,
    fuel: nat,
    v: Value,
)
    requires
        ready(w, sc, st, env, names, fuel),
        ran(w, st, env, fuel) is Ok,
        assign::target_s(lw, lv, sc, st) is Ok,
        fits(assign::target_s(lw, lv, sc, st)->Ok_0.1),
        place_value(w, lw, lv, sc, names) == Outcome::Value(v),
    ensures
        assign::target_s(lw, lv, sc, st) matches Ok((a, t)) && grows(st, t) && holds(
            w,
            t,
            env,
            fuel,
            a,
            v,
        ) && extends(ran(w, st, env, fuel)->Ok_0, ran(w, t, env, fuel)->Ok_0),
    decreases lv,
{
    let e = ran(w, st, env, fuel)->Ok_0;
    match lv {
        LValue::Var(name) => {
            reveal(lower_sound::atom_means);
            lower_sound::lemma_var(w, lw, name@, sc, st, env, names, fuel);
        },
        LValue::Field(base, field) => {
            let x = place_value(w, lw, *base, sc, names)->Value_0;
            let (b, st1) = assign::target_s(lw, *base, sc, st)->Ok_0;
            let i = resolve::projection(lw, assign::target_type(lw, *base, sc), field@)->Ok_0.1;
            let c = CoreView::Proj { base: b, idx: (i as usize) as u32 };
            lemma_target_grows(w, lw, *base, sc, st, env, names, fuel);
            lower_sound::lemma_push(w, st1, c, env, fuel);
            lemma_a_target_has_its_value(w, lw, *base, sc, st, env, names, fuel, x);
            let e1 = ran(w, st1, env, fuel)->Ok_0;
            lemma_bound(w, st1, c, env, fuel, e1, v);
            lower_sound::lemma_chain(st, st1, scope::push_s(st1, c).1);
            lower_sound::lemma_extends(e, e1, e1.push(v));
        },
        LValue::Index(base, index) => {
            let x = place_value(w, lw, *base, sc, names)->Value_0;
            let y = source_meaning::expr_value(w, lw, *index, sc, names)->Value_0;
            let (b, st1) = assign::target_s(lw, *base, sc, st)->Ok_0;
            let (i, st2) = emit::atom_s(lw, *index, sc, st1)->Ok_0;
            let c = CoreView::Prim { op: PrimOp::Index, args: seq![b, i] };
            lemma_target_grows(w, lw, *base, sc, st, env, names, fuel);
            lower_sound::lemma_on(w, sc, st, st1, env, names, fuel);
            lemma_index_grows(w, lw, *index, sc, st1, env, names, fuel);
            lower_sound::lemma_push(w, st2, c, env, fuel);
            lower_sound::lemma_grown(w, st1, st2, env, fuel);
            lemma_a_target_has_its_value(w, lw, *base, sc, st, env, names, fuel, x);
            lemma_index_holds(w, lw, *index, sc, st1, env, names, fuel, y);
            let e1 = ran(w, st1, env, fuel)->Ok_0;
            let e2 = ran(w, st2, env, fuel)->Ok_0;
            lower_sound::lemma_atom_kept(b, e1, e2);
            lower_sound::lemma_two(b, i, e2, true);
            let p = seq![x, y];
            assert(p.len() == 2 && p[0] == x && p[1] == y);
            lemma_bound(w, st2, c, env, fuel, e2, v);
            lower_sound::lemma_chain(st, st1, st2);
            lower_sound::lemma_chain(st, st2, scope::push_s(st2, c).1);
            lower_sound::lemma_extends(e, e1, e2);
            lower_sound::lemma_extends(e, e2, e2.push(v));
        },
    }
}

/// A scope with one more binding gives its name the value of its atom, and every other
/// name the value that it had.
pub proof fn lemma_one_more_binding(sc: ScopeView, b: BindView, e: Seq<Value>, names: Names, x: Value)
    requires
        links(sc, e, names),
        core_meaning::atom_value(b.atom, e, true) == Some(x),
    ensures
        links(scope::bind(sc, b), e, renamed(names, b.name, x)),
{
    let more = scope::bind(sc, b);
    let other = renamed(names, b.name, x);
    assert forall|y: Seq<char>|
        #![trigger other(y)]
        #![trigger scope::local(more, y)]
        match scope::local(more, y) {
            Some(d) => other(y) is Some && core_meaning::atom_value(d.atom, e, true) == other(y),
            None => other(y) is None,
        } by {
        let p = scope::binds_name(more, y);
        let q = scope::binds_name(sc, y);
        assert(p(sc.binds.len() as int) == (b.name == y));
        assert forall|k: int| 0 <= k < sc.binds.len() implies #[trigger] p(k) == q(k) by {}
        find::lemma_last_below_same(p, q, sc.binds.len() as int);
        find::lemma_last_below(q, sc.binds.len() as int);
        if y == b.name {
            assert(scope::local(more, y) == Some(b));
        } else {
            assert(scope::local(more, y) == scope::local(sc, y));
            assert(names(y) == other(y));
        }
    }
}

/// The binding of a name is one of that name.
pub proof fn lemma_name_of_a_binding(sc: ScopeView, name: Seq<char>)
    requires
        scope::local(sc, name) is Some,
    ensures
        scope::local(sc, name)->0.name == name,
{
    find::lemma_last_below(scope::binds_name(sc, name), sc.binds.len() as int);
}

proof fn lemma_element_grows(lw: LowererView, t: STypeView, base: AtomView, index: AtomView, new: AtomView, st: St)
    ensures
        assign::element_s(lw, t, base, index, new, st) matches Some((a, st1)) ==> grows(st, st1),
{
    match t {
        STypeView::Array { len, elem } => {
            let c = CoreView::Prim { op: PrimOp::Index, args: seq![base, index] };
            let st1 = scope::push_s(st, c).1;
            lemma_stored_grows(base, index, new, len as nat, st1);
            lower_sound::lemma_chain(st, st1, assign::stored_s(base, index, new, len as nat, st1).1);
        },
        _ => {},
    }
}

proof fn lemma_assignment_grows(
    w: Outside,
    lw: LowererView,
    lv: LValue,
    new: AtomView,
    sc: ScopeView,
    st: St,
    env: Seq<Value>,
    names: Names,
    fuel: nat,
)
    requires
        ready(w, sc, st, env, names, fuel),
    ensures
        assign::assign_s(lw, lv, new, sc, st) matches Ok((sc1, t)) ==> grows(st, t),
    decreases lv,
{
    if assign::assign_s(lw, lv, new, sc, st) is Ok {
        match lv {
            LValue::Var(name) => {},
            LValue::Field(base, field) => {
                let (s, at) = resolve::projection(
                    lw,
                    assign::target_type(lw, *base, sc),
                    field@,
                )->Ok_0;
                let (a, st1) = assign::target_s(lw, *base, sc, st)->Ok_0;
                lemma_target_grows(w, lw, *base, sc, st, env, names, fuel);
                let n = match decls::struct_named(lw.m, s) {
                    Some(d) => d.fields@.len(),
                    None => 0,
                };
                let (fields, st2) = assign::rebuilt_s(a, at, new, n, st1);
                lemma_rebuilt_grows(a, at, new, n, st1);
                let c = CoreView::Ctor {
                    ty: hash::symbol_id(resolve::struct_qual(lw, s)),
                    tag: 0,
                    fields,
                };
                let (whole, st3) = scope::push_s(st2, c);
                lower_sound::lemma_chain(st, st1, st2);
                lower_sound::lemma_chain(st, st2, st3);
                lower_sound::lemma_on(w, sc, st, st3, env, names, fuel);
                lemma_assignment_grows(w, lw, *base, whole, sc, st3, env, names, fuel);
                lower_sound::lemma_chain(st, st3, assign::assign_s(lw, lv, new, sc, st)->Ok_0.1);
            },
            LValue::Index(base, index) => {
                let t = assign::peeled(assign::target_type(lw, *base, sc))->0;
                let (a, st1) = assign::target_s(lw, *base, sc, st)->Ok_0;
                lemma_target_grows(w, lw, *base, sc, st, env, names, fuel);
                lower_sound::lemma_on(w, sc, st, st1, env, names, fuel);
                let (i, st2) = emit::atom_s(lw, *index, sc, st1)->Ok_0;
                lemma_index_grows(w, lw, *index, sc, st1, env, names, fuel);
                let (whole, st3) = assign::element_s(lw, t, a, i, new, st2)->0;
                lemma_element_grows(lw, t, a, i, new, st2);
                lower_sound::lemma_chain(st, st1, st2);
                lower_sound::lemma_chain(st, st2, st3);
                lower_sound::lemma_on(w, sc, st, st3, env, names, fuel);
                lemma_assignment_grows(w, lw, *base, whole, sc, st3, env, names, fuel);
                lower_sound::lemma_chain(st, st3, assign::assign_s(lw, lv, new, sc, st)->Ok_0.1);
            },
        }
    }
}

/// The struct that stands for a base with one field changed.
proof fn lemma_an_assigned_field(
    w: Outside,
    base: AtomView,
    at: int,
    new: AtomView,
    st: St,
    env: Seq<Value>,
    fuel: nat,
    ty: Seq<u8>,
    fields: Seq<Value>,
    x: Value,
)
    requires
        env.len() == st.base,
        0 <= at < fields.len() <= u32::MAX,
        ({
            let (out, st1) = assign::rebuilt_s(base, at, new, fields.len(), st);
            fits(scope::push_s(st1, CoreView::Ctor { ty, tag: 0, fields: out }).1)
        }),
        holds(w, st, env, fuel, base, Value::Data { ty, tag: 0, fields }),
        holds(w, st, env, fuel, new, x),
    ensures
        ({
            let (out, st1) = assign::rebuilt_s(base, at, new, fields.len(), st);
            let (a, t) = scope::push_s(st1, CoreView::Ctor { ty, tag: 0, fields: out });
            &&& grows(st, t)
            &&& holds(w, t, env, fuel, a, Value::Data { ty, tag: 0, fields: fields.update(at, x) })
        }),
{
    let e = ran(w, st, env, fuel)->Ok_0;
    let n = fields.len();
    let (out, st1) = assign::rebuilt_s(base, at, new, n, st);
    let c = CoreView::Ctor { ty, tag: 0, fields: out };
    lemma_rebuilt_grows(base, at, new, n, st);
    lower_sound::lemma_push(w, st1, c, env, fuel);
    let (e1, v) = lemma_rebuilt(w, base, at, new, n, st, env, fuel, e, ty, 0, fields, x);
    assert(v =~= fields.update(at, x));
    lemma_bound(w, st1, c, env, fuel, e1, Value::Data { ty, tag: 0, fields: v });
    lower_sound::lemma_chain(st, st1, scope::push_s(st1, c).1);
}

/// An assignment changes the one place: after it the variable at the root has its old
/// value with that place changed, and every other name has the value that it had.
#[verifier::rlimit(40)]
pub proof fn lemma_an_assignment_changes_its_place(
    w: Outside,
    lw: LowererView,
    lv: LValue,
    new: AtomView,
    sc: ScopeView,
    st: St,
    env: Seq<Value>,
    names: Names,
    fuel: nat,
    x: Value,
)
    requires
        ready(w, sc, st, env, names, fuel),
        holds(w, st, env, fuel, new, x),
        assign::assign_s(lw, lv, new, sc, st) is Ok,
        fits(assign::assign_s(lw, lv, new, sc, st)->Ok_0.1),
        assigned(w, lw, lv, sc, names, x) is Some,
    ensures
        ({
            let (sc1, t) = assign::assign_s(lw, lv, new, sc, st)->Ok_0;
            let (root, v) = assigned(w, lw, lv, sc, names, x)->0;
            ran(w, t, env, fuel) matches Ok(e) && links(sc1, e, renamed(names, root, v))
        }),
    decreases lv,
{
    let e = ran(w, st, env, fuel)->Ok_0;
    let last = assign::assign_s(lw, lv, new, sc, st)->Ok_0.1;
    match lv {
        LValue::Var(name) => {
            lemma_name_of_a_binding(sc, name@);
            lemma_one_more_binding(
                sc,
                BindView { atom: new, ..scope::local(sc, name@)->0 },
                e,
                names,
                x,
            );
        },
        LValue::Field(base, field) => {
            let (s, at) = resolve::projection(lw, assign::target_type(lw, *base, sc), field@)->Ok_0;
            let old = place_value(w, lw, *base, sc, names)->Value_0;
            let ty = old->ty;
            let fields = old->fields;
            let (a, st1) = assign::target_s(lw, *base, sc, st)->Ok_0;
            let (out, st2) = assign::rebuilt_s(a, at, new, fields.len(), st1);
            let c = CoreView::Ctor { ty, tag: 0, fields: out };
            let (whole, st3) = scope::push_s(st2, c);
            lemma_target_grows(w, lw, *base, sc, st, env, names, fuel);
            lemma_rebuilt_grows(a, at, new, fields.len(), st1);
            lower_sound::lemma_chain(st, st1, st2);
            lower_sound::lemma_chain(st, st2, st3);
            lower_sound::lemma_on(w, sc, st, st3, env, names, fuel);
            lemma_assignment_grows(w, lw, *base, whole, sc, st3, env, names, fuel);
            lower_sound::lemma_grown(w, st3, last, env, fuel);
            lower_sound::lemma_chain(st1, st2, st3);
            lower_sound::lemma_grown(w, st1, st3, env, fuel);
            lemma_a_target_has_its_value(w, lw, *base, sc, st, env, names, fuel, old);
            lower_sound::lemma_atom_kept(new, e, ran(w, st1, env, fuel)->Ok_0);
            lemma_an_assigned_field(w, a, at, new, st1, env, fuel, ty, fields, x);
            lemma_an_assignment_changes_its_place(
                w,
                lw,
                *base,
                whole,
                sc,
                st3,
                env,
                names,
                fuel,
                Value::Data { ty, tag: 0, fields: fields.update(at, x) },
            );
        },
        LValue::Index(base, index) => {
            let t = assign::peeled(assign::target_type(lw, *base, sc))->0;
            let old = place_value(w, lw, *base, sc, names)->Value_0;
            let items = old->Array_0;
            let at = source_meaning::expr_value(w, lw, *index, sc, names)->Value_0;
            let k = at->Int_0;
            let (a, st1) = assign::target_s(lw, *base, sc, st)->Ok_0;
            lemma_target_grows(w, lw, *base, sc, st, env, names, fuel);
            lower_sound::lemma_on(w, sc, st, st1, env, names, fuel);
            let (i, st2) = emit::atom_s(lw, *index, sc, st1)->Ok_0;
            lemma_index_grows(w, lw, *index, sc, st1, env, names, fuel);
            let (whole, st3) = assign::element_s(lw, t, a, i, new, st2)->0;
            lemma_element_grows(lw, t, a, i, new, st2);
            lower_sound::lemma_chain(st, st1, st2);
            lower_sound::lemma_chain(st, st2, st3);
            lower_sound::lemma_on(w, sc, st, st3, env, names, fuel);
            lemma_assignment_grows(w, lw, *base, whole, sc, st3, env, names, fuel);
            lower_sound::lemma_grown(w, st3, last, env, fuel);
            lower_sound::lemma_grown(w, st2, st3, env, fuel);
            lower_sound::lemma_grown(w, st1, st2, env, fuel);
            lemma_a_target_has_its_value(w, lw, *base, sc, st, env, names, fuel, old);
            lemma_index_holds(w, lw, *index, sc, st1, env, names, fuel, at);
            let e1 = ran(w, st1, env, fuel)->Ok_0;
            let e2 = ran(w, st2, env, fuel)->Ok_0;
            lower_sound::lemma_atom_kept(a, e1, e2);
            lower_sound::lemma_extends(e, e1, e2);
            lower_sound::lemma_atom_kept(new, e, e2);
            lemma_an_assigned_member(w, lw, t, a, i, new, st2, env, fuel, items, k, x);
            lemma_an_assignment_changes_its_place(
                w,
                lw,
                *base,
                whole,
                sc,
                st3,
                env,
                names,
                fuel,
                Value::Array(items.update(k, x)),
            );
        },
    }
}

} // verus!
