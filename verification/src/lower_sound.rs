//! Lowering keeps the meaning of expressions: the terms that an expression is lowered to
//! have the value that the expression has.
use vstd::prelude::*;

use crate::core_meaning;
use crate::core_meaning::{Outcome, Outside, Value};
use crate::decls;
use crate::emit;
use crate::find;
use crate::ir::{AtomView, CoreView, LiteralView, PrimOp, TypeView};
use crate::lower_error::LowerErrorView;
use crate::resolve;
use crate::scope;
use crate::scope::{LowererView, ScopeView, St};
use crate::source_meaning;
use crate::source_meaning::Names;
use crate::syntax::{BinOp, Expr, Field, FieldInit, UnOp};
use crate::text;

verus! {

// ---- bound terms ------------------------------------------------------------------------------------

/// The values bound after the first `n` of a list of bound terms, or what comes of the
/// first of them that has none.
pub open spec fn run_lets(
    w: Outside,
    lets: Seq<CoreView>,
    n: nat,
    env: Seq<Value>,
    fuel: nat,
) -> Result<Seq<Value>, Outcome>
    decreases n,
{
    if n == 0 {
        Ok(env)
    } else {
        match run_lets(w, lets, (n - 1) as nat, env, fuel) {
            Ok(e) => match core_meaning::eval(w, lets[n - 1], e, true, fuel) {
                Outcome::Value(v) => Ok(e.push(v)),
                other => Err(other),
            },
            Err(o) => Err(o),
        }
    }
}

/// What the terms bound so far have come to.
pub open spec fn ran(w: Outside, st: St, env: Seq<Value>, fuel: nat) -> Result<Seq<Value>, Outcome> {
    run_lets(w, st.lets, st.lets.len(), env, fuel)
}

/// Whether the bound terms can be counted.
pub open spec fn fits(st: St) -> bool {
    st.base + st.lets.len() <= u32::MAX
}

/// Further terms were bound.
pub open spec fn grows(st: St, t: St) -> bool {
    &&& t.base == st.base
    &&& st.lets.len() <= t.lets.len()
    &&& forall|i: int| 0 <= i < st.lets.len() ==> #[trigger] t.lets[i] == st.lets[i]
}

/// Whether further values were bound.
pub open spec fn extends(a: Seq<Value>, b: Seq<Value>) -> bool {
    &&& a.len() <= b.len()
    &&& forall|i: int| 0 <= i < a.len() ==> #[trigger] b[i] == a[i]
}

/// Whether the names in scope stand for the values that their atoms have.
pub open spec fn links(sc: ScopeView, env: Seq<Value>, names: Names) -> bool {
    forall|x: Seq<char>|
        #![trigger names(x)]
        #![trigger scope::local(sc, x)]
        match scope::local(sc, x) {
            Some(b) => names(x) is Some && core_meaning::atom_value(b.atom, env, true) == names(x),
            None => names(x) is None,
        }
}

/// What holds before an expression is lowered: the terms bound so far, if they have come
/// to values, give the names in scope their values.
pub open spec fn ready(
    w: Outside,
    sc: ScopeView,
    st: St,
    env: Seq<Value>,
    names: Names,
    fuel: nat,
) -> bool {
    &&& env.len() == st.base
    &&& match ran(w, st, env, fuel) {
        Ok(e) => links(sc, e, names),
        Err(_) => true,
    }
}

/// An atom that has come of an expression: it has the expression's value, once the terms
/// bound on the way have run; or these come to what the expression comes to.
#[verifier::opaque]
pub open spec fn atom_means(
    w: Outside,
    st: St,
    env: Seq<Value>,
    fuel: nat,
    r: Result<(AtomView, St), LowerErrorView>,
    o: Outcome,
) -> bool {
    r matches Ok((a, t)) ==> grows(st, t) && (fits(t) ==> match ran(w, st, env, fuel) {
        Ok(e) => match o {
            Outcome::Value(v) => match ran(w, t, env, fuel) {
                Ok(e2) => extends(e, e2) && core_meaning::atom_value(a, e2, true) == Some(v),
                Err(_) => false,
            },
            other => ran(w, t, env, fuel) == Err::<Seq<Value>, Outcome>(other),
        },
        Err(x) => ran(w, t, env, fuel) == Err::<Seq<Value>, Outcome>(x),
    })
}

/// As [`atom_means`], for a list of atoms.
pub open spec fn atoms_mean(
    w: Outside,
    st: St,
    env: Seq<Value>,
    fuel: nat,
    r: Result<(Seq<AtomView>, St), LowerErrorView>,
    o: Result<Seq<Value>, Outcome>,
) -> bool {
    r matches Ok((a, t)) ==> grows(st, t) && (fits(t) ==> match ran(w, st, env, fuel) {
        Ok(e) => match o {
            Ok(v) => match ran(w, t, env, fuel) {
                Ok(e2) => extends(e, e2) && core_meaning::atom_values(a, a.len(), e2, true) == Some(v),
                Err(_) => false,
            },
            Err(x) => ran(w, t, env, fuel) == Err::<Seq<Value>, Outcome>(x),
        },
        Err(x) => ran(w, t, env, fuel) == Err::<Seq<Value>, Outcome>(x),
    })
}

/// As [`atom_means`], for a term.
pub open spec fn core_means(
    w: Outside,
    st: St,
    env: Seq<Value>,
    fuel: nat,
    r: Result<(CoreView, St), LowerErrorView>,
    o: Outcome,
) -> bool {
    r matches Ok((c, t)) ==> grows(st, t) && (fits(t) ==> match ran(w, st, env, fuel) {
        Ok(e) => match ran(w, t, env, fuel) {
            Ok(e2) => extends(e, e2) && core_meaning::eval(w, c, e2, true, fuel) == o,
            Err(x) => x == o && !(o is Value),
        },
        Err(x) => ran(w, t, env, fuel) == Err::<Seq<Value>, Outcome>(x),
    })
}

proof fn lemma_prefix(w: Outside, a: Seq<CoreView>, b: Seq<CoreView>, n: nat, env: Seq<Value>, fuel: nat)
    requires
        n <= a.len(),
        n <= b.len(),
        forall|i: int| 0 <= i < n ==> #[trigger] a[i] == b[i],
    ensures
        run_lets(w, a, n, env, fuel) == run_lets(w, b, n, env, fuel),
    decreases n,
{
    if n > 0 {
        lemma_prefix(w, a, b, (n - 1) as nat, env, fuel);
        assert(a[n - 1] == b[n - 1]);
    }
}

proof fn lemma_more(w: Outside, lets: Seq<CoreView>, k: nat, n: nat, env: Seq<Value>, fuel: nat)
    requires
        k <= n <= lets.len(),
    ensures
        match run_lets(w, lets, k, env, fuel) {
            Ok(e) => e.len() == env.len() + k && match run_lets(w, lets, n, env, fuel) {
                Ok(e2) => extends(e, e2) && e2.len() == env.len() + n,
                Err(x) => !(x is Value),
            },
            Err(x) => !(x is Value) && run_lets(w, lets, n, env, fuel) == Err::<
                Seq<Value>,
                Outcome,
            >(x),
        },
    decreases n,
{
    if n == k {
        if k > 0 {
            lemma_more(w, lets, (k - 1) as nat, (k - 1) as nat, env, fuel);
        }
    } else {
        lemma_more(w, lets, k, (n - 1) as nat, env, fuel);
    }
}

pub proof fn lemma_grown(w: Outside, st: St, t: St, env: Seq<Value>, fuel: nat)
    requires
        grows(st, t),
    ensures
        match ran(w, st, env, fuel) {
            Ok(e) => e.len() == env.len() + st.lets.len() && match ran(w, t, env, fuel) {
                Ok(e2) => extends(e, e2) && e2.len() == env.len() + t.lets.len(),
                Err(x) => !(x is Value),
            },
            Err(x) => !(x is Value) && ran(w, t, env, fuel) == Err::<Seq<Value>, Outcome>(x),
        },
        fits(t) ==> fits(st),
{
    lemma_prefix(w, st.lets, t.lets, st.lets.len(), env, fuel);
    lemma_more(w, t.lets, st.lets.len(), t.lets.len(), env, fuel);
}

pub proof fn lemma_atom_kept(a: AtomView, e: Seq<Value>, e2: Seq<Value>)
    requires
        extends(e, e2),
    ensures
        core_meaning::atom_value(a, e, true) is Some ==> core_meaning::atom_value(a, e2, true)
            == core_meaning::atom_value(a, e, true),
{
}

/// A list that is still empty.
proof fn lemma_same(w: Outside, st: St, env: Seq<Value>, fuel: nat, a: AtomView, t: St, o: Outcome)
    requires
        atom_means(w, st, env, fuel, Ok((a, t)), o),
        o is Value ==> o == Outcome::Value(Value::List(Seq::empty())),
    ensures
        atom_means(
            w,
            st,
            env,
            fuel,
            Ok((a, t)),
            match o {
                Outcome::Value(_) => Outcome::Value(Value::List(Seq::empty())),
                other => other,
            },
        ),
        grows(t, t),
{
}

pub proof fn lemma_atoms_kept(v: Seq<AtomView>, n: nat, e: Seq<Value>, e2: Seq<Value>)
    requires
        extends(e, e2),
        n <= v.len(),
    ensures
        core_meaning::atom_values(v, n, e, true) is Some ==> core_meaning::atom_values(
            v,
            n,
            e2,
            true,
        ) == core_meaning::atom_values(v, n, e, true),
    decreases n,
{
    if n > 0 {
        lemma_atoms_kept(v, (n - 1) as nat, e, e2);
        lemma_atom_kept(v[n - 1], e, e2);
    }
}

pub proof fn lemma_atoms_prefix(a: Seq<AtomView>, b: Seq<AtomView>, n: nat, e: Seq<Value>)
    requires
        n <= a.len(),
        n <= b.len(),
        forall|i: int| 0 <= i < n ==> #[trigger] a[i] == b[i],
    ensures
        core_meaning::atom_values(a, n, e, true) == core_meaning::atom_values(b, n, e, true),
    decreases n,
{
    if n > 0 {
        lemma_atoms_prefix(a, b, (n - 1) as nat, e);
        assert(a[n - 1] == b[n - 1]);
    }
}

pub proof fn lemma_links(sc: ScopeView, e: Seq<Value>, e2: Seq<Value>, names: Names)
    requires
        links(sc, e, names),
        extends(e, e2),
    ensures
        links(sc, e2, names),
{
    assert forall|x: Seq<char>| #![trigger names(x)] #![trigger scope::local(sc, x)] match scope::local(sc, x) {
        Some(b) => names(x) is Some && core_meaning::atom_value(b.atom, e2, true) == names(x),
        None => names(x) is None,
    } by {
        match scope::local(sc, x) {
            Some(b) => {
                assert(core_meaning::atom_value(b.atom, e, true) == names(x));
                lemma_atom_kept(b.atom, e, e2);
            },
            None => {},
        }
    }
}

pub proof fn lemma_on(
    w: Outside,
    sc: ScopeView,
    st: St,
    t: St,
    env: Seq<Value>,
    names: Names,
    fuel: nat,
)
    requires
        ready(w, sc, st, env, names, fuel),
        grows(st, t),
    ensures
        ready(w, sc, t, env, names, fuel),
        fits(t) ==> fits(st),
{
    lemma_grown(w, st, t, env, fuel);
    match (ran(w, st, env, fuel), ran(w, t, env, fuel)) {
        (Ok(e), Ok(e2)) => lemma_links(sc, e, e2, names),
        _ => {},
    }
}

/// A term that is bound.
pub proof fn lemma_push(w: Outside, st: St, c: CoreView, env: Seq<Value>, fuel: nat)
    requires
        env.len() == st.base,
    ensures
        ({
            let (a, t) = scope::push_s(st, c);
            &&& grows(st, t)
            &&& fits(t) ==> fits(st) && match ran(w, st, env, fuel) {
                Ok(e) => match core_meaning::eval(w, c, e, true, fuel) {
                    Outcome::Value(v) => ran(w, t, env, fuel) == Ok::<Seq<Value>, Outcome>(e.push(v))
                        && extends(e, e.push(v)) && core_meaning::atom_value(a, e.push(v), true)
                        == Some(v),
                    other => ran(w, t, env, fuel) == Err::<Seq<Value>, Outcome>(other),
                },
                Err(x) => ran(w, t, env, fuel) == Err::<Seq<Value>, Outcome>(x),
            }
        }),
{
    let (a, t) = scope::push_s(st, c);
    lemma_prefix(w, st.lets, t.lets, st.lets.len(), env, fuel);
    lemma_more(w, st.lets, st.lets.len(), st.lets.len(), env, fuel);
    assert(t.lets[st.lets.len() as int] == c);
    assert(t.lets.len() - 1 == st.lets.len());
}

pub proof fn lemma_atom_grows(
    w: Outside,
    st: St,
    env: Seq<Value>,
    fuel: nat,
    a: AtomView,
    t: St,
    o: Outcome,
)
    requires
        atom_means(w, st, env, fuel, Ok((a, t)), o),
    ensures
        grows(st, t),
{
    reveal(atom_means);
}

/// What comes of bound terms with a term below them.
pub proof fn lemma_fold(
    w: Outside,
    lets: Seq<CoreView>,
    tail: CoreView,
    env: Seq<Value>,
    fuel: nat,
)
    ensures
        core_meaning::eval(w, scope::fold_view(lets, tail), env, true, fuel) == match run_lets(
            w,
            lets,
            lets.len(),
            env,
            fuel,
        ) {
            Ok(e) => core_meaning::eval(w, tail, e, true, fuel),
            Err(o) => o,
        },
    decreases lets.len(),
{
    if lets.len() > 0 {
        let front = lets.drop_last();
        let inner = CoreView::Let { value: Box::new(lets.last()), body: Box::new(tail) };
        lemma_fold(w, front, inner, env, fuel);
        lemma_prefix(w, front, lets, front.len(), env, fuel);
    }
}

// ---- operators --------------------------------------------------------------------------------------

/// The primitive of a binary operator has the operator's value.
pub proof fn lemma_operator(op: BinOp, x: Value, y: Value)
    ensures
        core_meaning::prim_value(emit::prim_view(op), seq![x, y]) == source_meaning::op_value(
            op,
            x,
            y,
        ),
{
    let v = seq![x, y];
    assert(v.len() == 2 && v[0] == x && v[1] == y);
}

/// The values of two atoms.
pub proof fn lemma_two(a: AtomView, b: AtomView, e: Seq<Value>, levels: bool)
    ensures
        core_meaning::atom_values(seq![a, b], 2, e, levels) == match (
            core_meaning::atom_value(a, e, levels),
            core_meaning::atom_value(b, e, levels),
        ) {
            (Some(x), Some(y)) => Some(seq![x, y]),
            _ => None::<Seq<Value>>,
        },
{
    let v = seq![a, b];
    reveal_with_fuel(core_meaning::atom_values, 3);
    assert(v[0] == a && v[1] == b);
    match (core_meaning::atom_value(a, e, levels), core_meaning::atom_value(b, e, levels)) {
        (Some(x), Some(y)) => {
            assert(Seq::<Value>::empty().push(x).push(y) =~= seq![x, y]);
        },
        _ => {},
    }
}

/// The value of one atom.
pub proof fn lemma_one(a: AtomView, e: Seq<Value>, levels: bool)
    ensures
        core_meaning::atom_values(seq![a], 1, e, levels) == match core_meaning::atom_value(
            a,
            e,
            levels,
        ) {
            Some(x) => Some(seq![x]),
            None => None::<Seq<Value>>,
        },
{
    let v = seq![a];
    reveal_with_fuel(core_meaning::atom_values, 2);
    assert(v[0] == a);
    match core_meaning::atom_value(a, e, levels) {
        Some(x) => {
            assert(Seq::<Value>::empty().push(x) =~= seq![x]);
        },
        _ => {},
    }
}

// ---- expressions ------------------------------------------------------------------------------------

proof fn lemma_bound(
    w: Outside,
    st: St,
    env: Seq<Value>,
    fuel: nat,
    r: Result<(CoreView, St), LowerErrorView>,
    o: Outcome,
)
    requires
        env.len() == st.base,
        core_means(w, st, env, fuel, r, o),
    ensures
        atom_means(w, st, env, fuel, emit::bound_s(r), o),
{
    reveal(atom_means);
    match r {
        Ok((c, t)) => {
            lemma_grown(w, st, t, env, fuel);
            lemma_push(w, t, c, env, fuel);
            let t2 = scope::push_s(t, c).1;
            assert(grows(st, t2)) by {
                assert forall|i: int| 0 <= i < st.lets.len() implies #[trigger] t2.lets[i]
                    == st.lets[i] by {
                    assert(t2.lets[i] == t.lets[i]);
                }
            }
        },
        Err(_) => {},
    }
}

pub proof fn lemma_var(
    w: Outside,
    lw: LowererView,
    name: Seq<char>,
    sc: ScopeView,
    st: St,
    env: Seq<Value>,
    names: Names,
    fuel: nat,
)
    requires
        ready(w, sc, st, env, names, fuel),
    ensures
        atom_means(
            w,
            st,
            env,
            fuel,
            emit::var_s(lw, name, sc, st),
            source_meaning::name_value(lw, name, sc, names),
        ),
{
    reveal(atom_means);
    match ran(w, st, env, fuel) {
        Ok(e) => {
            assert(links(sc, e, names));
            let v = names(name);
        },
        Err(_) => {},
    }
    match scope::local(sc, name) {
        Some(b) => {},
        None => match emit::nullary(decls::ctor_view(lw.reg, name)) {
            Some(c) => {
                lemma_ctor(w, lw, st, env, fuel, c, Seq::empty(), Seq::empty());
                lemma_bound(
                    w,
                    st,
                    env,
                    fuel,
                    Ok((emit::ctor_node_view(lw.ms, c, Seq::empty()), st)),
                    source_meaning::made(lw, c, Seq::empty()),
                );
            },
            None => {},
        },
    }
}

/// The term of a constructor.
proof fn lemma_ctor(
    w: Outside,
    lw: LowererView,
    st: St,
    env: Seq<Value>,
    fuel: nat,
    c: decls::CtorRef,
    fields: Seq<AtomView>,
    v: Seq<Value>,
)
    ensures
        ran(w, st, env, fuel) matches Ok(e) ==> (core_meaning::atom_values(
            fields,
            fields.len(),
            e,
            true,
        ) == Some(v) ==> core_meaning::eval(
            w,
            emit::ctor_node_view(lw.ms, c, fields),
            e,
            true,
            fuel,
        ) == source_meaning::made(lw, c, v)),
        fields.len() == 0 && v.len() == 0 ==> (ran(w, st, env, fuel) matches Ok(e)
            ==> core_meaning::eval(w, emit::ctor_node_view(lw.ms, c, fields), e, true, fuel)
            == source_meaning::made(lw, c, v)),
{
    if v.len() == 0 {
        assert(v =~= Seq::empty());
    }
}

proof fn lemma_atom(
    w: Outside,
    lw: LowererView,
    e: Expr,
    sc: ScopeView,
    st: St,
    env: Seq<Value>,
    names: Names,
    fuel: nat,
)
    requires
        ready(w, sc, st, env, names, fuel),
    ensures
        atom_means(
            w,
            st,
            env,
            fuel,
            emit::atom_s(lw, e, sc, st),
            source_meaning::expr_value(w, lw, e, sc, names),
        ),
    decreases e, 3nat, 0nat,
{
    reveal(atom_means);
    match e {
        Expr::Unit | Expr::Int(_) | Expr::Bool(_) | Expr::Str(_) | Expr::Char(_) => {},
        Expr::Try(inner) => lemma_atom(w, lw, *inner, sc, st, env, names, fuel),
        Expr::Var(name) => lemma_var(w, lw, name@, sc, st, env, names, fuel),
        Expr::Struct { path, fields } => if emit::is_collection(lw, text::strings_view(path@)) {
            lemma_collection(w, lw, path@[0]@, fields@, sc, st, env, names, fuel);
        } else {
            lemma_node(w, lw, e, sc, st, env, names, fuel);
            lemma_bound(
                w,
                st,
                env,
                fuel,
                emit::node_s(lw, e, sc, st),
                source_meaning::expr_value(w, lw, e, sc, names),
            );
        },
        _ => {
            lemma_node(w, lw, e, sc, st, env, names, fuel);
            lemma_bound(
                w,
                st,
                env,
                fuel,
                emit::node_s(lw, e, sc, st),
                source_meaning::expr_value(w, lw, e, sc, names),
            );
        },
    }
}

/// An expression is lowered to an atom that has its value.
pub proof fn lemma_an_atom_has_the_value_of_its_expression(
    w: Outside,
    lw: LowererView,
    e: Expr,
    sc: ScopeView,
    st: St,
    env: Seq<Value>,
    names: Names,
    fuel: nat,
)
    requires
        ready(w, sc, st, env, names, fuel),
    ensures
        atom_means(
            w,
            st,
            env,
            fuel,
            emit::atom_s(lw, e, sc, st),
            source_meaning::expr_value(w, lw, e, sc, names),
        ),
{
    reveal(atom_means);
    lemma_atom(w, lw, e, sc, st, env, names, fuel);
}

/// An expression is lowered to a term that has its value.
pub proof fn lemma_a_term_has_the_value_of_its_expression(
    w: Outside,
    lw: LowererView,
    e: Expr,
    sc: ScopeView,
    st: St,
    env: Seq<Value>,
    names: Names,
    fuel: nat,
)
    requires
        ready(w, sc, st, env, names, fuel),
    ensures
        core_means(
            w,
            st,
            env,
            fuel,
            emit::tail_s(lw, e, sc, st),
            source_meaning::expr_value(w, lw, e, sc, names),
        ),
    decreases e,
{
    reveal(atom_means);
    lemma_grown(w, st, st, env, fuel);
    match e {
        Expr::Unit | Expr::Int(_) | Expr::Bool(_) | Expr::Str(_) | Expr::Char(_) | Expr::Var(
            _,
        ) => lemma_atom(w, lw, e, sc, st, env, names, fuel),
        Expr::Try(inner) => lemma_a_term_has_the_value_of_its_expression(
            w,
            lw,
            *inner,
            sc,
            st,
            env,
            names,
            fuel,
        ),
        Expr::Struct { path, fields } => if emit::is_collection(lw, text::strings_view(path@)) {
            lemma_atom(w, lw, e, sc, st, env, names, fuel);
        } else {
            lemma_node(w, lw, e, sc, st, env, names, fuel);
        },
        _ => lemma_node(w, lw, e, sc, st, env, names, fuel),
    }
    match emit::atom_s(lw, e, sc, st) {
        Ok((a, t)) => if grows(st, t) {
            lemma_grown(w, st, t, env, fuel);
        },
        Err(_) => {},
    }
}

proof fn lemma_node(
    w: Outside,
    lw: LowererView,
    e: Expr,
    sc: ScopeView,
    st: St,
    env: Seq<Value>,
    names: Names,
    fuel: nat,
)
    requires
        ready(w, sc, st, env, names, fuel),
        !(e is Unit || e is Int || e is Bool || e is Str || e is Char || e is Try || e is Var),
        e matches Expr::Struct { path, fields } ==> !emit::is_collection(
            lw,
            text::strings_view(path@),
        ),
    ensures
        core_means(
            w,
            st,
            env,
            fuel,
            emit::node_s(lw, e, sc, st),
            source_meaning::expr_value(w, lw, e, sc, names),
        ),
    decreases e, 2nat, 0nat,
{
    if e is Cast {
        lemma_cast(w, lw, e, sc, st, env, names, fuel);
    } else if e is Binary {
        lemma_binary(w, lw, e, sc, st, env, names, fuel);
    } else if e is Unary {
        lemma_prefix_op(w, lw, e, sc, st, env, names, fuel);
    } else if e is Index {
        lemma_index(w, lw, e, sc, st, env, names, fuel);
    } else if e is Field {
        lemma_field(w, lw, e, sc, st, env, names, fuel);
    } else if e is Struct {
        lemma_struct_node(w, lw, e, sc, st, env, names, fuel);
    } else if e is Array {
        lemma_array(w, lw, e, sc, st, env, names, fuel);
    } else {
        lemma_call(w, lw, e, sc, st, env, names, fuel);
    }
}

proof fn lemma_cast(
    w: Outside,
    lw: LowererView,
    e: Expr,
    sc: ScopeView,
    st: St,
    env: Seq<Value>,
    names: Names,
    fuel: nat,
)
    requires
        ready(w, sc, st, env, names, fuel),
        e is Cast,
    ensures
        core_means(
            w,
            st,
            env,
            fuel,
            emit::node_s(lw, e, sc, st),
            source_meaning::expr_value(w, lw, e, sc, names),
        ),
    decreases e, 1nat, 1nat,
{
    reveal(atom_means);
    match e {
        Expr::Cast(inner, ty) => {
            lemma_atom(w, lw, *inner, sc, st, env, names, fuel);
            match emit::atom_s(lw, *inner, sc, st) {
                Ok((a, t)) => lemma_cast_leaf(
                    w,
                    st,
                    env,
                    fuel,
                    a,
                    t,
                    source_meaning::expr_value(w, lw, *inner, sc, names),
                    resolve::ty_s(lw, ty@, Seq::empty()),
                ),
                Err(_) => {},
            }
        },
        _ => {},
    }
}

proof fn lemma_binary(
    w: Outside,
    lw: LowererView,
    e: Expr,
    sc: ScopeView,
    st: St,
    env: Seq<Value>,
    names: Names,
    fuel: nat,
)
    requires
        ready(w, sc, st, env, names, fuel),
        e is Binary,
    ensures
        core_means(
            w,
            st,
            env,
            fuel,
            emit::node_s(lw, e, sc, st),
            source_meaning::expr_value(w, lw, e, sc, names),
        ),
    decreases e, 1nat, 1nat,
{
    reveal(atom_means);
    match e {
        Expr::Binary(l, op, r) => {
            let ox = source_meaning::expr_value(w, lw, *l, sc, names);
            let oy = source_meaning::expr_value(w, lw, *r, sc, names);
            lemma_atom(w, lw, *l, sc, st, env, names, fuel);
            match emit::atom_s(lw, *l, sc, st) {
                Ok((a, st1)) => {
                    lemma_on(w, sc, st, st1, env, names, fuel);
                    lemma_atom(w, lw, *r, sc, st1, env, names, fuel);
                    match emit::atom_s(lw, *r, sc, st1) {
                        Ok((b, st2)) => {
                            lemma_then(w, st, env, fuel, a, st1, ox, b, st2, oy);
                            lemma_binary_leaf(w, st, env, fuel, op, a, ox, b, st2, oy);
                        },
                        Err(_) => {},
                    }
                },
                Err(_) => {},
            }
        },
        _ => {},
    }
}

proof fn lemma_prefix_op(
    w: Outside,
    lw: LowererView,
    e: Expr,
    sc: ScopeView,
    st: St,
    env: Seq<Value>,
    names: Names,
    fuel: nat,
)
    requires
        ready(w, sc, st, env, names, fuel),
        e is Unary,
    ensures
        core_means(
            w,
            st,
            env,
            fuel,
            emit::node_s(lw, e, sc, st),
            source_meaning::expr_value(w, lw, e, sc, names),
        ),
    decreases e, 1nat, 1nat,
{
    reveal(atom_means);
    match e {
        Expr::Unary(op, operand) => {
            lemma_atom(w, lw, *operand, sc, st, env, names, fuel);
            match emit::atom_s(lw, *operand, sc, st) {
                Ok((a, t)) => lemma_unary(
                    w,
                    st,
                    env,
                    fuel,
                    op,
                    a,
                    t,
                    source_meaning::expr_value(w, lw, *operand, sc, names),
                ),
                Err(_) => {},
            }
        },
        _ => {},
    }
}

proof fn lemma_index(
    w: Outside,
    lw: LowererView,
    e: Expr,
    sc: ScopeView,
    st: St,
    env: Seq<Value>,
    names: Names,
    fuel: nat,
)
    requires
        ready(w, sc, st, env, names, fuel),
        e is Index,
    ensures
        core_means(
            w,
            st,
            env,
            fuel,
            emit::node_s(lw, e, sc, st),
            source_meaning::expr_value(w, lw, e, sc, names),
        ),
    decreases e, 1nat, 1nat,
{
    reveal(atom_means);
    match e {
        Expr::Index(base, index) => {
            let ox = source_meaning::expr_value(w, lw, *base, sc, names);
            let oy = source_meaning::expr_value(w, lw, *index, sc, names);
            lemma_atom(w, lw, *base, sc, st, env, names, fuel);
            match emit::atom_s(lw, *base, sc, st) {
                Ok((a, st1)) => {
                    lemma_on(w, sc, st, st1, env, names, fuel);
                    lemma_atom(w, lw, *index, sc, st1, env, names, fuel);
                    match emit::atom_s(lw, *index, sc, st1) {
                        Ok((b, st2)) => {
                            lemma_then(w, st, env, fuel, a, st1, ox, b, st2, oy);
                            lemma_index_leaf(w, st, env, fuel, a, ox, b, st2, oy);
                        },
                        Err(_) => {},
                    }
                },
                Err(_) => {},
            }
        },
        _ => {},
    }
}

proof fn lemma_struct_node(
    w: Outside,
    lw: LowererView,
    e: Expr,
    sc: ScopeView,
    st: St,
    env: Seq<Value>,
    names: Names,
    fuel: nat,
)
    requires
        ready(w, sc, st, env, names, fuel),
        e matches Expr::Struct { path, fields } && !emit::is_collection(lw, text::strings_view(path@)),
    ensures
        core_means(
            w,
            st,
            env,
            fuel,
            emit::node_s(lw, e, sc, st),
            source_meaning::expr_value(w, lw, e, sc, names),
        ),
    decreases e, 1nat, 1nat,
{
    match e {
        Expr::Struct { path, fields } => lemma_struct(
            w,
            lw,
            text::strings_view(path@),
            fields@,
            sc,
            st,
            env,
            names,
            fuel,
        ),
        _ => {},
    }
}

proof fn lemma_array(
    w: Outside,
    lw: LowererView,
    e: Expr,
    sc: ScopeView,
    st: St,
    env: Seq<Value>,
    names: Names,
    fuel: nat,
)
    requires
        ready(w, sc, st, env, names, fuel),
        e is Array,
    ensures
        core_means(
            w,
            st,
            env,
            fuel,
            emit::node_s(lw, e, sc, st),
            source_meaning::expr_value(w, lw, e, sc, names),
        ),
    decreases e, 1nat, 1nat,
{
    match e {
        Expr::Array(items) => {
            lemma_atoms(w, lw, items@, items@.len(), sc, st, env, names, fuel);
            match emit::atoms_s(lw, items@, items@.len(), sc, st) {
                Ok((v, t)) => lemma_array_leaf(
                    w,
                    st,
                    env,
                    fuel,
                    emit::elem_view(lw, items@, sc),
                    v,
                    t,
                    source_meaning::values_of(w, lw, items@, items@.len(), sc, names),
                ),
                Err(_) => {},
            }
        },
        _ => {},
    }
}

proof fn lemma_cast_leaf(
    w: Outside,
    st: St,
    env: Seq<Value>,
    fuel: nat,
    a: AtomView,
    t: St,
    o: Outcome,
    to: TypeView,
)
    requires
        atom_means(w, st, env, fuel, Ok((a, t)), o),
    ensures
        core_means(
            w,
            st,
            env,
            fuel,
            Ok((CoreView::Cast { value: a, to }, t)),
            match o {
                Outcome::Value(v) => core_meaning::cast_value(v, to),
                other => other,
            },
        ),
{
    reveal(atom_means);
    lemma_grown(w, st, t, env, fuel);
}

proof fn lemma_binary_leaf(
    w: Outside,
    st: St,
    env: Seq<Value>,
    fuel: nat,
    op: BinOp,
    a: AtomView,
    ox: Outcome,
    b: AtomView,
    t: St,
    oy: Outcome,
)
    requires
        both_mean(w, st, env, fuel, a, ox, b, t, oy),
    ensures
        core_means(
            w,
            st,
            env,
            fuel,
            Ok((CoreView::Prim { op: emit::prim_view(op), args: seq![a, b] }, t)),
            match (ox, oy) {
                (Outcome::Value(x), Outcome::Value(y)) => source_meaning::op_value(op, x, y),
                (Outcome::Value(_), other) => other,
                (other, _) => other,
            },
        ),
{
    lemma_grown(w, st, t, env, fuel);
    match ran(w, t, env, fuel) {
        Ok(e2) => lemma_two(a, b, e2, true),
        Err(_) => {},
    }
    match (ox, oy) {
        (Outcome::Value(x), Outcome::Value(y)) => lemma_operator(op, x, y),
        _ => {},
    }
}

proof fn lemma_index_leaf(
    w: Outside,
    st: St,
    env: Seq<Value>,
    fuel: nat,
    a: AtomView,
    ox: Outcome,
    b: AtomView,
    t: St,
    oy: Outcome,
)
    requires
        both_mean(w, st, env, fuel, a, ox, b, t, oy),
    ensures
        core_means(
            w,
            st,
            env,
            fuel,
            Ok((CoreView::Prim { op: PrimOp::Index, args: seq![a, b] }, t)),
            match (ox, oy) {
                (Outcome::Value(x), Outcome::Value(y)) => source_meaning::member_value(x, y),
                (Outcome::Value(_), other) => other,
                (other, _) => other,
            },
        ),
{
    lemma_grown(w, st, t, env, fuel);
    match ran(w, t, env, fuel) {
        Ok(e2) => lemma_two(a, b, e2, true),
        Err(_) => {},
    }
    match (ox, oy) {
        (Outcome::Value(x), Outcome::Value(y)) => {
            let v = seq![x, y];
            assert(v.len() == 2 && v[0] == x && v[1] == y);
            assert(core_meaning::prim_value(PrimOp::Index, v) == core_meaning::binary_value(PrimOp::Index, x, y));
        },
        _ => {},
    }
}

proof fn lemma_array_leaf(
    w: Outside,
    st: St,
    env: Seq<Value>,
    fuel: nat,
    elem: TypeView,
    v: Seq<AtomView>,
    t: St,
    o: Result<Seq<Value>, Outcome>,
)
    requires
        atoms_mean(w, st, env, fuel, Ok((v, t)), o),
    ensures
        core_means(
            w,
            st,
            env,
            fuel,
            Ok((CoreView::Array { elem, items: v }, t)),
            match o {
                Ok(x) => Outcome::Value(Value::Array(x)),
                Err(x) => x,
            },
        ),
{
    lemma_grown(w, st, t, env, fuel);
}

proof fn lemma_proj_leaf(
    w: Outside,
    st: St,
    env: Seq<Value>,
    fuel: nat,
    lw: LowererView,
    base: Expr,
    field: Seq<char>,
    sc: ScopeView,
    a: AtomView,
    t: St,
    o: Outcome,
    name: Seq<char>,
    i: int,
)
    requires
        atom_means(w, st, env, fuel, Ok((a, t)), o),
        resolve::projection(lw, resolve::expr_type(lw, base, sc), field) == Ok::<
            (Seq<char>, int),
            LowerErrorView,
        >((name, i)),
    ensures
        core_means(
            w,
            st,
            env,
            fuel,
            Ok((CoreView::Proj { base: a, idx: (i as usize) as u32 }, t)),
            match o {
                Outcome::Value(x) => source_meaning::field_value(lw, base, field, sc, x),
                other => other,
            },
        ),
{
    reveal(atom_means);
    lemma_grown(w, st, t, env, fuel);
}

proof fn lemma_append_leaf(
    w: Outside,
    st: St,
    env: Seq<Value>,
    fuel: nat,
    alloc: AtomView,
    l: AtomView,
    ov: Outcome,
    value: AtomView,
    t: St,
    ox: Outcome,
)
    requires
        both_mean(w, st, env, fuel, l, ov, value, t, ox),
        ov is Value ==> ov->Value_0 is List,
        st.base == env.len(),
    ensures
        atom_means(
            w,
            st,
            env,
            fuel,
            Ok(scope::push_s(t, CoreView::ListPush { alloc, list: l, value })),
            match (ov, ox) {
                (Outcome::Value(Value::List(v)), Outcome::Value(x)) => Outcome::Value(
                    Value::List(v.push(x)),
                ),
                (Outcome::Value(_), other) => other,
                (other, _) => other,
            },
        ),
{
    reveal(atom_means);
    let c = CoreView::ListPush { alloc, list: l, value };
    let o = match (ov, ox) {
        (Outcome::Value(Value::List(v)), Outcome::Value(x)) => Outcome::Value(
            Value::List(v.push(x)),
        ),
        (Outcome::Value(_), other) => other,
        (other, _) => other,
    };
    lemma_grown(w, st, t, env, fuel);
    assert(core_means(w, st, env, fuel, Ok((c, t)), o));
    lemma_bound(w, st, env, fuel, Ok((c, t)), o);
}

proof fn lemma_new_list(
    w: Outside,
    st: St,
    env: Seq<Value>,
    fuel: nat,
    alloc: AtomView,
    t: St,
    oa: Outcome,
    c: CoreView,
)
    requires
        atom_means(w, st, env, fuel, Ok((alloc, t)), oa),
        c is ListNew,
        st.base == env.len(),
    ensures
        atom_means(
            w,
            st,
            env,
            fuel,
            Ok(scope::push_s(t, c)),
            match oa {
                Outcome::Value(_) => Outcome::Value(Value::List(Seq::empty())),
                other => other,
            },
        ),
{
    reveal(atom_means);
    lemma_grown(w, st, t, env, fuel);
    lemma_bound(
        w,
        st,
        env,
        fuel,
        Ok((c, t)),
        match oa {
            Outcome::Value(_) => Outcome::Value(Value::List(Seq::empty())),
            other => other,
        },
    );
}

proof fn lemma_whole_leaf(
    w: Outside,
    st: St,
    env: Seq<Value>,
    fuel: nat,
    ty: Seq<u8>,
    l: AtomView,
    t: St,
    o: Outcome,
)
    requires
        atom_means(w, st, env, fuel, Ok((l, t)), o),
        st.base == env.len(),
    ensures
        atom_means(
            w,
            st,
            env,
            fuel,
            Ok(scope::push_s(t, CoreView::Ctor { ty, tag: 0, fields: seq![l] })),
            match o {
                Outcome::Value(v) => Outcome::Value(Value::Data { ty, tag: 0, fields: seq![v] }),
                other => other,
            },
        ),
{
    reveal(atom_means);
    let c = CoreView::Ctor { ty, tag: 0, fields: seq![l] };
    let o2 = match o {
        Outcome::Value(v) => Outcome::Value(Value::Data { ty, tag: 0, fields: seq![v] }),
        other => other,
    };
    lemma_grown(w, st, t, env, fuel);
    match ran(w, t, env, fuel) {
        Ok(e2) => lemma_one(l, e2, true),
        Err(_) => {},
    }
    assert(core_means(w, st, env, fuel, Ok((c, t)), o2));
    lemma_bound(w, st, env, fuel, Ok((c, t)), o2);
}

proof fn lemma_unary(
    w: Outside,
    st: St,
    env: Seq<Value>,
    fuel: nat,
    op: UnOp,
    a: AtomView,
    t: St,
    o: Outcome,
)
    requires
        atom_means(w, st, env, fuel, Ok((a, t)), o),
    ensures
        core_means(
            w,
            st,
            env,
            fuel,
            Ok((emit::unary_view(op, a), t)),
            match o {
                Outcome::Value(x) => source_meaning::prefix_value(op, x),
                other => other,
            },
        ),
{
    reveal(atom_means);
    lemma_grown(w, st, t, env, fuel);
    match ran(w, t, env, fuel) {
        Ok(e2) => lemma_one(a, e2, true),
        Err(_) => {},
    }
}

/// Two expressions, one after the other.
pub open spec fn both_mean(
    w: Outside,
    st: St,
    env: Seq<Value>,
    fuel: nat,
    a: AtomView,
    ox: Outcome,
    b: AtomView,
    t: St,
    oy: Outcome,
) -> bool {
    &&& grows(st, t)
    &&& fits(t) ==> match ran(w, st, env, fuel) {
        Ok(e) => match (ox, oy) {
            (Outcome::Value(x), Outcome::Value(y)) => match ran(w, t, env, fuel) {
                Ok(e2) => extends(e, e2) && core_meaning::atom_value(a, e2, true) == Some(x)
                    && core_meaning::atom_value(b, e2, true) == Some(y),
                Err(_) => false,
            },
            (Outcome::Value(_), other) => ran(w, t, env, fuel) == Err::<Seq<Value>, Outcome>(other),
            (other, _) => ran(w, t, env, fuel) == Err::<Seq<Value>, Outcome>(other),
        },
        Err(x) => ran(w, t, env, fuel) == Err::<Seq<Value>, Outcome>(x),
    }
}

proof fn lemma_then(
    w: Outside,
    st: St,
    env: Seq<Value>,
    fuel: nat,
    a: AtomView,
    st1: St,
    ox: Outcome,
    b: AtomView,
    st2: St,
    oy: Outcome,
)
    requires
        atom_means(w, st, env, fuel, Ok((a, st1)), ox),
        atom_means(w, st1, env, fuel, Ok((b, st2)), oy),
    ensures
        both_mean(w, st, env, fuel, a, ox, b, st2, oy),
{
    reveal(atom_means);
    lemma_chain(st, st1, st2);
    lemma_grown(w, st, st1, env, fuel);
    lemma_grown(w, st1, st2, env, fuel);
    match (ran(w, st1, env, fuel), ran(w, st2, env, fuel)) {
        (Ok(e1), Ok(e2)) => {
            lemma_atom_kept(a, e1, e2);
            match ran(w, st, env, fuel) {
                Ok(e) => lemma_extends(e, e1, e2),
                Err(_) => {},
            }
        },
        _ => {},
    }
}

pub proof fn lemma_extends(a: Seq<Value>, b: Seq<Value>, c: Seq<Value>)
    requires
        extends(a, b),
        extends(b, c),
    ensures
        extends(a, c),
{
    assert forall|i: int| 0 <= i < a.len() implies #[trigger] c[i] == a[i] by {
        assert(b[i] == a[i]);
    }
}

pub proof fn lemma_chain(a: St, b: St, c: St)
    requires
        grows(a, b),
        grows(b, c),
    ensures
        grows(a, c),
{
    assert forall|i: int| 0 <= i < a.lets.len() implies #[trigger] c.lets[i] == a.lets[i] by {
        assert(b.lets[i] == a.lets[i]);
    }
}

proof fn lemma_list_then(
    w: Outside,
    st: St,
    env: Seq<Value>,
    fuel: nat,
    v: Seq<AtomView>,
    st1: St,
    o: Result<Seq<Value>, Outcome>,
    b: AtomView,
    st2: St,
    oy: Outcome,
)
    requires
        atoms_mean(w, st, env, fuel, Ok((v, st1)), o),
        atom_means(w, st1, env, fuel, Ok((b, st2)), oy),
    ensures
        atoms_mean(
            w,
            st,
            env,
            fuel,
            Ok((v.push(b), st2)),
            match o {
                Ok(x) => match oy {
                    Outcome::Value(y) => Ok(x.push(y)),
                    other => Err(other),
                },
                Err(x) => Err(x),
            },
        ),
{
    reveal(atom_means);
    lemma_chain(st, st1, st2);
    lemma_grown(w, st, st1, env, fuel);
    lemma_grown(w, st1, st2, env, fuel);
    match (ran(w, st1, env, fuel), ran(w, st2, env, fuel)) {
        (Ok(e1), Ok(e2)) => {
            lemma_atoms_kept(v, v.len(), e1, e2);
            lemma_atoms_prefix(v, v.push(b), v.len(), e2);
            assert(v.push(b)[v.len() as int] == b);
            match ran(w, st, env, fuel) {
                Ok(e) => lemma_extends(e, e1, e2),
                Err(_) => {},
            }
        },
        _ => {},
    }
}

proof fn lemma_field(
    w: Outside,
    lw: LowererView,
    e: Expr,
    sc: ScopeView,
    st: St,
    env: Seq<Value>,
    names: Names,
    fuel: nat,
)
    requires
        ready(w, sc, st, env, names, fuel),
        e is Field,
    ensures
        core_means(
            w,
            st,
            env,
            fuel,
            emit::field_s(lw, e, sc, st),
            source_meaning::expr_value(w, lw, e, sc, names),
        ),
    decreases e, 1nat, 0nat,
{
    reveal(atom_means);
    match e {
        Expr::Field(base, field) => match emit::nullary(emit::path_ctor(lw, *base, field@, sc)) {
            Some(c) => {
                lemma_grown(w, st, st, env, fuel);
                lemma_ctor(w, lw, st, env, fuel, c, Seq::empty(), Seq::empty());
            },
            None => {
                lemma_atom(w, lw, *base, sc, st, env, names, fuel);
                let o = source_meaning::expr_value(w, lw, *base, sc, names);
                match (
                    emit::atom_s(lw, *base, sc, st),
                    resolve::projection(lw, resolve::expr_type(lw, *base, sc), field@),
                ) {
                    (Ok((a, t)), Ok((name, i))) => lemma_proj_leaf(
                        w,
                        st,
                        env,
                        fuel,
                        lw,
                        *base,
                        field@,
                        sc,
                        a,
                        t,
                        o,
                        name,
                        i,
                    ),
                    _ => {},
                }
            },
        },
        _ => {},
    }
}

proof fn lemma_atoms(
    w: Outside,
    lw: LowererView,
    v: Seq<Expr>,
    n: nat,
    sc: ScopeView,
    st: St,
    env: Seq<Value>,
    names: Names,
    fuel: nat,
)
    requires
        ready(w, sc, st, env, names, fuel),
    ensures
        atoms_mean(
            w,
            st,
            env,
            fuel,
            emit::atoms_s(lw, v, n, sc, st),
            source_meaning::values_of(w, lw, v, n, sc, names),
        ),
    decreases v, 0nat, n,
{
    reveal(atom_means);
    if n == 0 || n > v.len() {
    } else {
        lemma_atoms(w, lw, v, (n - 1) as nat, sc, st, env, names, fuel);
        match emit::atoms_s(lw, v, (n - 1) as nat, sc, st) {
            Ok((out, st1)) => {
                lemma_on(w, sc, st, st1, env, names, fuel);
                lemma_atom(w, lw, v[n - 1], sc, st1, env, names, fuel);
                match emit::atom_s(lw, v[n - 1], sc, st1) {
                    Ok((a, st2)) => lemma_list_then(
                        w,
                        st,
                        env,
                        fuel,
                        out,
                        st1,
                        source_meaning::values_of(w, lw, v, (n - 1) as nat, sc, names),
                        a,
                        st2,
                        source_meaning::expr_value(w, lw, v[n - 1], sc, names),
                    ),
                    Err(_) => {},
                }
            },
            Err(_) => {},
        }
    }
}

proof fn lemma_struct(
    w: Outside,
    lw: LowererView,
    path: Seq<Seq<char>>,
    inits: Seq<FieldInit>,
    sc: ScopeView,
    st: St,
    env: Seq<Value>,
    names: Names,
    fuel: nat,
)
    requires
        ready(w, sc, st, env, names, fuel),
    ensures
        core_means(
            w,
            st,
            env,
            fuel,
            emit::struct_s(lw, path, inits, sc, st),
            source_meaning::struct_value(w, lw, text::join_view(path, "."@), inits, sc, names),
        ),
    decreases inits, 1nat, 0nat,
{
    let name = text::join_view(path, "."@);
    match decls::struct_named(lw.m, name) {
        None => {},
        Some(d) => {
            lemma_inits(w, lw, name, d.fields@, d.fields@.len(), inits, sc, st, env, names, fuel);
            match emit::inits_s(lw, name, d.fields@, d.fields@.len(), inits, sc, st) {
                Ok((v, t)) => lemma_grown(w, st, t, env, fuel),
                Err(_) => {},
            }
        },
    }
}

proof fn lemma_inits(
    w: Outside,
    lw: LowererView,
    name: Seq<char>,
    fields: Seq<Field>,
    n: nat,
    inits: Seq<FieldInit>,
    sc: ScopeView,
    st: St,
    env: Seq<Value>,
    names: Names,
    fuel: nat,
)
    requires
        ready(w, sc, st, env, names, fuel),
    ensures
        atoms_mean(
            w,
            st,
            env,
            fuel,
            emit::inits_s(lw, name, fields, n, inits, sc, st),
            source_meaning::fields_of(w, lw, fields, n, inits, sc, names),
        ),
    decreases inits, 0nat, n,
{
    reveal(atom_means);
    if n == 0 || n > fields.len() {
    } else {
        lemma_inits(w, lw, name, fields, (n - 1) as nat, inits, sc, st, env, names, fuel);
        match emit::inits_s(lw, name, fields, (n - 1) as nat, inits, sc, st) {
            Ok((out, st1)) => {
                lemma_on(w, sc, st, st1, env, names, fuel);
                match emit::init_index(inits, fields[n - 1].name@) {
                    Some(i) => if 0 <= i < inits.len() {
                        lemma_atom(w, lw, inits[i].value, sc, st1, env, names, fuel);
                        match emit::atom_s(lw, inits[i].value, sc, st1) {
                            Ok((a, st2)) => lemma_list_then(
                                w,
                                st,
                                env,
                                fuel,
                                out,
                                st1,
                                source_meaning::fields_of(w, lw, fields, (n - 1) as nat, inits, sc, names),
                                a,
                                st2,
                                source_meaning::expr_value(w, lw, inits[i].value, sc, names),
                            ),
                            Err(_) => {},
                        }
                    },
                    None => {},
                }
            },
            Err(_) => {},
        }
    }
}

/// A function that is applied.
proof fn lemma_app(
    w: Outside,
    st: St,
    env: Seq<Value>,
    fuel: nat,
    f: AtomView,
    of: Outcome,
    a: AtomView,
    t: St,
    oa: Outcome,
)
    requires
        both_mean(w, st, env, fuel, f, of, a, t, oa),
    ensures
        core_means(
            w,
            st,
            env,
            fuel,
            Ok((CoreView::App { func: f, arg: a }, t)),
            match (of, oa) {
                (Outcome::Value(g), Outcome::Value(x)) => (w.apply)(g, x),
                (Outcome::Value(_), other) => other,
                (other, _) => other,
            },
        ),
{
    lemma_grown(w, st, t, env, fuel);
}

/// A definition, which is the same whatever was bound.
proof fn lemma_denoted(w: Outside, st: St, env: Seq<Value>, fuel: nat, a: AtomView, t: St)
    requires
        a is Global,
        t.base == st.base,
        t.lets == st.lets,
    ensures
        atom_means(w, st, env, fuel, Ok((a, t)), source_meaning::denoted(a)),
{
    reveal(atom_means);
    lemma_grown(w, st, t, env, fuel);
}

#[verifier::rlimit(40)]
proof fn lemma_call(
    w: Outside,
    lw: LowererView,
    e: Expr,
    sc: ScopeView,
    st: St,
    env: Seq<Value>,
    names: Names,
    fuel: nat,
)
    requires
        ready(w, sc, st, env, names, fuel),
        e is Call,
    ensures
        core_means(
            w,
            st,
            env,
            fuel,
            emit::call_s(lw, e, sc, st),
            source_meaning::call_value(w, lw, e, sc, names),
        ),
    decreases e, 1nat, 0nat,
{
    reveal(atom_means);
    match e {
        Expr::Call(callee, args) => {
            if emit::is_len(*callee, args@, sc) {
                lemma_atom(w, lw, args@[0], sc, st, env, names, fuel);
                match emit::atom_s(lw, args@[0], sc, st) {
                    Ok((a, t)) => {
                        lemma_grown(w, st, t, env, fuel);
                        match ran(w, t, env, fuel) {
                            Ok(e2) => lemma_one(a, e2, true),
                            Err(_) => {},
                        }
                    },
                    Err(_) => {},
                }
            } else {
                match emit::callee_ctor_view(lw, *callee, sc) {
                    Some(c) => {
                        lemma_atoms(w, lw, args@, args@.len(), sc, st, env, names, fuel);
                        match emit::atoms_s(lw, args@, args@.len(), sc, st) {
                            Ok((fields, t)) => {
                                lemma_grown(w, st, t, env, fuel);
                                match source_meaning::values_of(w, lw, args@, args@.len(), sc, names) {
                                    Ok(v) => lemma_ctor(w, lw, t, env, fuel, c, fields, v),
                                    Err(_) => {},
                                }
                            },
                            Err(_) => {},
                        }
                    },
                    None => match *callee {
                        Expr::Field(recv, method) => match emit::method_ref(lw, sc, method@) {
                            Ok(func) => {
                                reveal(resolve::dispatch);
                                assert(func is Global);
                                lemma_denoted(w, st, env, fuel, func, st);
                                lemma_atom(w, lw, *recv, sc, st, env, names, fuel);
                                match emit::atom_s(lw, *recv, sc, st) {
                                    Ok((r, st1)) => lemma_method(
                                        w,
                                        lw,
                                        args@,
                                        func,
                                        r,
                                        sc,
                                        st,
                                        st1,
                                        env,
                                        names,
                                        fuel,
                                        source_meaning::expr_value(w, lw, *recv, sc, names),
                                    ),
                                    Err(_) => {},
                                }
                            },
                            Err(_) => {},
                        },
                        _ => {
                            lemma_callee(w, lw, e, sc, st, env, names, fuel);
                            match emit::callee_s(lw, e, sc, st) {
                                Ok((func, st1)) => {
                                    let of = source_meaning::callee_value(w, lw, e, sc, names);
                                    lemma_on(w, sc, st, st1, env, names, fuel);
                                    lemma_grown(w, st, st1, env, fuel);
                                    lemma_apply(w, lw, args@, args@.len(), func, of, sc, st, st1, env, names, fuel);
                                },
                                Err(_) => {},
                            }
                        },
                    },
                }
            }
        },
        _ => {},
    }
}

proof fn lemma_method(
    w: Outside,
    lw: LowererView,
    args: Seq<Expr>,
    func: AtomView,
    r: AtomView,
    sc: ScopeView,
    st: St,
    st1: St,
    env: Seq<Value>,
    names: Names,
    fuel: nat,
    ox: Outcome,
)
    requires
        ready(w, sc, st, env, names, fuel),
        atom_means(w, st, env, fuel, Ok((func, st)), source_meaning::denoted(func)),
        func is Global,
        atom_means(w, st, env, fuel, Ok((r, st1)), ox),
    ensures
        ({
            let first = CoreView::App { func, arg: r };
            core_means(
                w,
                st,
                env,
                fuel,
                if args.len() == 0 {
                    Ok((first, st1))
                } else {
                    emit::apply_s(
                        lw,
                        args,
                        args.len(),
                        scope::push_s(st1, first).0,
                        sc,
                        scope::push_s(st1, first).1,
                    )
                },
                match (source_meaning::denoted(func), ox) {
                    (Outcome::Value(f), Outcome::Value(x)) => match (w.apply)(f, x) {
                        Outcome::Value(g) => source_meaning::applied_value(
                            w,
                            lw,
                            args,
                            args.len(),
                            g,
                            sc,
                            names,
                        ),
                        other => other,
                    },
                    (_, other) => other,
                },
            )
        }),
    decreases args, 1nat, 0nat,
{
    reveal(atom_means);
    let first = CoreView::App { func, arg: r };
    lemma_then(w, st, env, fuel, func, st, source_meaning::denoted(func), r, st1, ox);
    lemma_app(w, st, env, fuel, func, source_meaning::denoted(func), r, st1, ox);
    let og = match ox {
        Outcome::Value(x) => (w.apply)(source_meaning::denoted(func)->Value_0, x),
        other => other,
    };
    lemma_bound(w, st, env, fuel, Ok((first, st1)), og);
    let (g, st2) = scope::push_s(st1, first);
    lemma_on(w, sc, st, st2, env, names, fuel);
    if args.len() > 0 {
        lemma_apply(w, lw, args, args.len(), g, og, sc, st, st2, env, names, fuel);
    }
}

proof fn lemma_callee(
    w: Outside,
    lw: LowererView,
    e: Expr,
    sc: ScopeView,
    st: St,
    env: Seq<Value>,
    names: Names,
    fuel: nat,
)
    requires
        ready(w, sc, st, env, names, fuel),
        e is Call,
    ensures
        atom_means(
            w,
            st,
            env,
            fuel,
            emit::callee_s(lw, e, sc, st),
            source_meaning::callee_value(w, lw, e, sc, names),
        ),
    decreases e, 0nat, 0nat,
{
    reveal(atom_means);
    reveal(resolve::dispatch);
    reveal(resolve::generic_call);
    match e {
        Expr::Call(callee, args) => {
            lemma_atom(w, lw, *callee, sc, st, env, names, fuel);
            match emit::free_name(*callee, sc) {
                Some(name) => match resolve::dispatch(lw, name) {
                    Some(a) => lemma_denoted(w, st, env, fuel, a, st),
                    None => match resolve::generic_call(lw, name, args@, sc, st.pend) {
                        Some((a, pend)) => {
                            lemma_denoted(w, st, env, fuel, a, St { pend, ..st });
                        },
                        None => {},
                    },
                },
                None => {},
            }
        },
        _ => {},
    }
}

/// A function that is given arguments, from where the function was computed.
proof fn lemma_apply(
    w: Outside,
    lw: LowererView,
    args: Seq<Expr>,
    n: nat,
    func: AtomView,
    of: Outcome,
    sc: ScopeView,
    st0: St,
    st: St,
    env: Seq<Value>,
    names: Names,
    fuel: nat,
)
    requires
        ready(w, sc, st, env, names, fuel),
        atom_means(w, st0, env, fuel, Ok((func, st)), of),
        st0.base == env.len(),
    ensures
        n > 0 && n <= args.len() ==> core_means(
            w,
            st0,
            env,
            fuel,
            emit::apply_s(lw, args, n, func, sc, st),
            match of {
                Outcome::Value(f) => source_meaning::applied_value(w, lw, args, n, f, sc, names),
                other => other,
            },
        ),
        n <= args.len() ==> atom_means(
            w,
            st0,
            env,
            fuel,
            emit::applied_s(lw, args, n, func, sc, st),
            match of {
                Outcome::Value(f) => source_meaning::applied_value(w, lw, args, n, f, sc, names),
                other => other,
            },
        ),
        n <= args.len() ==> (emit::applied_s(lw, args, n, func, sc, st) matches Ok((_, t)) ==> grows(st, t)),
    decreases args, 0nat, n,
{
    reveal(atom_means);
    if n == 0 || n > args.len() {
    } else {
        let k = (n - 1) as nat;
        let og = match of {
            Outcome::Value(f) => source_meaning::applied_value(w, lw, args, k, f, sc, names),
            other => other,
        };
        lemma_apply(w, lw, args, k, func, of, sc, st0, st, env, names, fuel);
        match emit::applied_s(lw, args, k, func, sc, st) {
            Ok((f, st1)) => {
                lemma_on(w, sc, st, st1, env, names, fuel);
                lemma_atom(w, lw, args[n - 1], sc, st1, env, names, fuel);
                match emit::atom_s(lw, args[n - 1], sc, st1) {
                    Ok((a, st2)) => {
                        let oa = source_meaning::expr_value(w, lw, args[n - 1], sc, names);
                        lemma_then(w, st0, env, fuel, f, st1, og, a, st2, oa);
                        lemma_app(w, st0, env, fuel, f, og, a, st2, oa);
                        let c = CoreView::App { func: f, arg: a };
                        lemma_push(w, st2, c, env, fuel);
                        lemma_chain(st, st1, st2);
                        lemma_chain(st, st2, scope::push_s(st2, c).1);
                    },
                    Err(_) => {},
                }
            },
            Err(_) => {},
        }
        lemma_bound(
            w,
            st0,
            env,
            fuel,
            emit::apply_s(lw, args, n, func, sc, st),
            match of {
                Outcome::Value(f) => source_meaning::applied_value(w, lw, args, n, f, sc, names),
                other => other,
            },
        );
    }
}

// ---- collections ------------------------------------------------------------------------------------

#[verifier::rlimit(80)]
proof fn lemma_collection(
    w: Outside,
    lw: LowererView,
    kind: Seq<char>,
    inits: Seq<FieldInit>,
    sc: ScopeView,
    st: St,
    env: Seq<Value>,
    names: Names,
    fuel: nat,
)
    requires
        ready(w, sc, st, env, names, fuel),
    ensures
        atom_means(
            w,
            st,
            env,
            fuel,
            emit::collection_s(lw, kind, inits, sc, st),
            source_meaning::collection_value(w, lw, kind, inits, sc, names),
        ),
    decreases inits, 2nat, 0nat,
{
    let r = emit::collection_s(lw, kind, inits, sc, st);
    let o = source_meaning::collection_value(w, lw, kind, inits, sc, names);
    if r is Err {
        lemma_refused(w, st, env, fuel, r, o);
    } else if kind == "Map"@ {
        lemma_map_form(lw, kind, inits, sc, st);
        lemma_init_value(w, lw, inits, "alloc"@, sc, names);
        let ai = emit::init_index(inits, "alloc"@)->0;
        let ki = emit::array_part(inits, "keys"@)->0;
        let vi = emit::array_part(inits, "values"@)->0;
        let ov = source_meaning::init_value(w, lw, inits, "alloc"@, sc, names);
        let n = emit::part(inits, ki).len();
        let ev = source_meaning::entries_value(w, lw, inits, ki, vi, n, sc, names);
        lemma_map_value(w, lw, kind, inits, sc, names, ai, ki, vi, ov, ev);
        lemma_map(w, lw, inits, ai, ki, vi, sc, st, env, names, fuel);
    } else if kind == "Set"@ {
        let (ai, ii) = lemma_set_form(w, lw, kind, inits, sc, st, names);
        lemma_set(w, lw, inits, ai, ii, sc, st, env, names, fuel);
    } else {
        let (ai, ii) = lemma_list_form(w, lw, kind, inits, sc, st, names);
        lemma_list(w, lw, inits, ai, ii, sc, st, env, names, fuel);
    }
}

proof fn lemma_init_index(inits: Seq<FieldInit>, name: Seq<char>)
    ensures
        emit::init_index(inits, name) matches Some(i) ==> 0 <= i < inits.len(),
{
    find::lemma_first_from(emit::is_init_named(inits, name), 0, inits.len() as int);
}

proof fn lemma_map_form(lw: LowererView, kind: Seq<char>, inits: Seq<FieldInit>, sc: ScopeView, st: St)
    requires
        kind == "Map"@,
        emit::collection_s(lw, kind, inits, sc, st) is Ok,
    ensures
        emit::init_index(inits, "alloc"@) is Some,
        emit::array_part(inits, "keys"@) is Some,
        emit::array_part(inits, "values"@) is Some,
        emit::collection_s(lw, kind, inits, sc, st) == emit::map_s(
            lw,
            inits,
            emit::init_index(inits, "alloc"@)->0,
            emit::array_part(inits, "keys"@)->0,
            emit::array_part(inits, "values"@)->0,
            sc,
            st,
        ),
{
}

#[verifier::rlimit(60)]
#[verifier::spinoff_prover]
proof fn lemma_map_value(
    w: Outside,
    lw: LowererView,
    kind: Seq<char>,
    inits: Seq<FieldInit>,
    sc: ScopeView,
    names: Names,
    ai: int,
    ki: int,
    vi: int,
    ov: Outcome,
    ev: Result<Seq<Value>, Outcome>,
)
    requires
        kind == "Map"@,
        emit::array_part(inits, "keys"@) == Some(ki),
        emit::array_part(inits, "values"@) == Some(vi),
        source_meaning::init_value(w, lw, inits, "alloc"@, sc, names) == ov,
        source_meaning::entries_value(
            w,
            lw,
            inits,
            ki,
            vi,
            emit::part(inits, ki).len(),
            sc,
            names,
        ) == ev,
    ensures
        source_meaning::collection_value(w, lw, kind, inits, sc, names) == source_meaning::map_outcome(
            source_meaning::list_outcome(ov, ev),
        ),
{
}

proof fn lemma_init_value(
    w: Outside,
    lw: LowererView,
    inits: Seq<FieldInit>,
    name: Seq<char>,
    sc: ScopeView,
    names: Names,
)
    requires
        emit::init_index(inits, name) is Some,
    ensures
        0 <= emit::init_index(inits, name)->0 < inits.len(),
        source_meaning::init_value(w, lw, inits, name, sc, names) == source_meaning::expr_value(
            w,
            lw,
            inits[emit::init_index(inits, name)->0].value,
            sc,
            names,
        ),
{
    lemma_init_index(inits, name);
}

proof fn lemma_list_form(
    w: Outside,
    lw: LowererView,
    kind: Seq<char>,
    inits: Seq<FieldInit>,
    sc: ScopeView,
    st: St,
    names: Names,
) -> (at: (int, int))
    requires
        kind != "Map"@,
        kind != "Set"@,
        emit::collection_s(lw, kind, inits, sc, st) is Ok,
    ensures
        0 <= at.0 < inits.len(),
        0 <= at.1 < inits.len(),
        emit::collection_s(lw, kind, inits, sc, st) == emit::list_s(lw, inits, at.0, at.1, sc, st),
        source_meaning::collection_value(w, lw, kind, inits, sc, names)
            == match source_meaning::expr_value(w, lw, inits[at.0].value, sc, names) {
            Outcome::Value(_) => match inits[at.1].value {
                Expr::Array(items) => match source_meaning::values_of(
                    w,
                    lw,
                    items@,
                    items@.len(),
                    sc,
                    names,
                ) {
                    Ok(v) => Outcome::Value(Value::List(v)),
                    Err(o) => o,
                },
                _ => Outcome::Stop,
            },
            other => other,
        },
{
    lemma_init_index(inits, "alloc"@);
    (emit::init_index(inits, "alloc"@)->0, emit::array_part(inits, "items"@)->0)
}

proof fn lemma_set_form(
    w: Outside,
    lw: LowererView,
    kind: Seq<char>,
    inits: Seq<FieldInit>,
    sc: ScopeView,
    st: St,
    names: Names,
) -> (at: (int, int))
    requires
        kind != "Map"@,
        kind == "Set"@,
        emit::collection_s(lw, kind, inits, sc, st) is Ok,
    ensures
        0 <= at.0 < inits.len(),
        0 <= at.1 < inits.len(),
        emit::collection_s(lw, kind, inits, sc, st) == emit::set_s(lw, inits, at.0, at.1, sc, st),
        source_meaning::collection_value(w, lw, kind, inits, sc, names)
            == match source_meaning::expr_value(w, lw, inits[at.0].value, sc, names) {
            Outcome::Value(alloc) => match inits[at.1].value {
                Expr::Array(items) => match source_meaning::apply2(
                    w,
                    source_meaning::library("std.collections.set_with_capacity"@),
                    alloc,
                    Value::Int(((items@.len() as usize) as i64) as int),
                ) {
                    Outcome::Value(set) => source_meaning::filled_value(
                        w,
                        lw,
                        items@,
                        items@.len(),
                        alloc,
                        set,
                        sc,
                        names,
                    ),
                    other => other,
                },
                _ => Outcome::Stop,
            },
            other => other,
        },
{
    lemma_init_index(inits, "alloc"@);
    (emit::init_index(inits, "alloc"@)->0, emit::array_part(inits, "items"@)->0)
}

proof fn lemma_refused(
    w: Outside,
    st: St,
    env: Seq<Value>,
    fuel: nat,
    r: Result<(AtomView, St), LowerErrorView>,
    o: Outcome,
)
    requires
        r is Err,
    ensures
        atom_means(w, st, env, fuel, r, o),
{
    reveal(atom_means);
}

proof fn lemma_list(
    w: Outside,
    lw: LowererView,
    inits: Seq<FieldInit>,
    ai: int,
    ii: int,
    sc: ScopeView,
    st: St,
    env: Seq<Value>,
    names: Names,
    fuel: nat,
)
    requires
        ready(w, sc, st, env, names, fuel),
    ensures
        0 <= ai < inits.len() && 0 <= ii < inits.len() ==> atom_means(
            w,
            st,
            env,
            fuel,
            emit::list_s(lw, inits, ai, ii, sc, st),
            match source_meaning::expr_value(w, lw, inits[ai].value, sc, names) {
                Outcome::Value(_) => match inits[ii].value {
                    Expr::Array(items) => match source_meaning::values_of(
                        w,
                        lw,
                        items@,
                        items@.len(),
                        sc,
                        names,
                    ) {
                        Ok(v) => Outcome::Value(Value::List(v)),
                        Err(o) => o,
                    },
                    _ => Outcome::Stop,
                },
                other => other,
            },
        ),
    decreases inits, 1nat, 0nat,
{
    reveal(atom_means);
    if 0 <= ai < inits.len() && 0 <= ii < inits.len() {
        match (inits[ai].value, inits[ii].value) {
            (alloc_e, Expr::Array(items)) => {
                let oa = source_meaning::expr_value(w, lw, alloc_e, sc, names);
                lemma_atom(w, lw, alloc_e, sc, st, env, names, fuel);
                match emit::atom_s(lw, alloc_e, sc, st) {
                    Ok((alloc, st1)) => {
                        lemma_on(w, sc, st, st1, env, names, fuel);
                        lemma_grown(w, st, st1, env, fuel);
                        let c = CoreView::ListNew {
                            elem: emit::elem_view(lw, items@, sc),
                            alloc,
                            capacity: emit::count_atom(items@.len()),
                        };
                        let empty = Outcome::Value(Value::List(Seq::empty()));
                        lemma_bound(
                            w,
                            st,
                            env,
                            fuel,
                            Ok((c, st1)),
                            match oa {
                                Outcome::Value(_) => empty,
                                other => other,
                            },
                        );
                        let (list, st2) = scope::push_s(st1, c);
                        lemma_on(w, sc, st, st2, env, names, fuel);
                        lemma_pushes(
                            w,
                            lw,
                            items@,
                            items@.len(),
                            alloc,
                            list,
                            match oa {
                                Outcome::Value(_) => empty,
                                other => other,
                            },
                            sc,
                            st,
                            st2,
                            env,
                            names,
                            fuel,
                        );
                    },
                    Err(_) => {},
                }
            },
            _ => {},
        }
    }
}

/// One more member behind a list.
proof fn lemma_push_step(
    w: Outside,
    st0: St,
    st: St,
    env: Seq<Value>,
    fuel: nat,
    alloc: AtomView,
    l: AtomView,
    st1: St,
    ov: Outcome,
    value: AtomView,
    st2: St,
    ox: Outcome,
)
    requires
        atom_means(w, st0, env, fuel, Ok((l, st1)), ov),
        atom_means(w, st1, env, fuel, Ok((value, st2)), ox),
        grows(st, st1),
        ov is Value ==> ov->Value_0 is List,
        st0.base == env.len(),
    ensures
        atom_means(
            w,
            st0,
            env,
            fuel,
            Ok(scope::push_s(st2, CoreView::ListPush { alloc, list: l, value })),
            joined(ov, ox),
        ),
        grows(st, scope::push_s(st2, CoreView::ListPush { alloc, list: l, value }).1),
{
    let c = CoreView::ListPush { alloc, list: l, value };
    lemma_atom_grows(w, st0, env, fuel, l, st1, ov);
    lemma_atom_grows(w, st1, env, fuel, value, st2, ox);
    lemma_then(w, st0, env, fuel, l, st1, ov, value, st2, ox);
    lemma_append_leaf(w, st0, env, fuel, alloc, l, ov, value, st2, ox);
    lemma_push(w, st2, c, env, fuel);
    lemma_chain(st, st1, st2);
    lemma_chain(st, st2, scope::push_s(st2, c).1);
}

/// A list with one more member, or what came instead of either.
pub open spec fn joined(ov: Outcome, ox: Outcome) -> Outcome {
    match (ov, ox) {
        (Outcome::Value(Value::List(v)), Outcome::Value(x)) => Outcome::Value(Value::List(v.push(x))),
        (Outcome::Value(_), other) => other,
        (other, _) => other,
    }
}

/// Members that are put behind an empty list, from where the list was made.
proof fn lemma_pushes(
    w: Outside,
    lw: LowererView,
    items: Seq<Expr>,
    n: nat,
    alloc: AtomView,
    list: AtomView,
    ol: Outcome,
    sc: ScopeView,
    st0: St,
    st: St,
    env: Seq<Value>,
    names: Names,
    fuel: nat,
)
    requires
        ready(w, sc, st, env, names, fuel),
        atom_means(w, st0, env, fuel, Ok((list, st)), ol),
        ol is Value ==> ol == Outcome::Value(Value::List(Seq::empty())),
        st0.base == env.len(),
        n <= items.len(),
    ensures
        emit::pushes_s(lw, items, n, alloc, list, sc, st) matches Ok((l, t)) ==> grows(st, t)
            && atom_means(
            w,
            st0,
            env,
            fuel,
            Ok((l, t)),
            source_meaning::list_outcome(ol, source_meaning::values_of(w, lw, items, n, sc, names)),
        ),
    decreases items, 0nat, n,
{
    if n == 0 {
        lemma_same(w, st0, env, fuel, list, st, ol);
    } else {
        let k = (n - 1) as nat;
        lemma_pushes(w, lw, items, k, alloc, list, ol, sc, st0, st, env, names, fuel);
        let before = emit::pushes_s(lw, items, k, alloc, list, sc, st);
        if before is Ok {
            let (l, st1) = before->Ok_0;
            let ov = source_meaning::list_outcome(ol, source_meaning::values_of(w, lw, items, k, sc, names));
            lemma_on(w, sc, st, st1, env, names, fuel);
            let e = items[n - 1];
            lemma_atom(w, lw, e, sc, st1, env, names, fuel);
            let next = emit::atom_s(lw, e, sc, st1);
            if next is Ok {
                let (value, st2) = next->Ok_0;
                let ox = source_meaning::expr_value(w, lw, e, sc, names);
                lemma_not_value(w, lw, items, k, sc, names);
                lemma_push_step(w, st0, st, env, fuel, alloc, l, st1, ov, value, st2, ox);
                lemma_joined(ol, source_meaning::values_of(w, lw, items, k, sc, names), ox);
            }
        }
    }
}

/// Where values lack one, what came instead is no value.
proof fn lemma_not_value(w: Outside, lw: LowererView, v: Seq<Expr>, n: nat, sc: ScopeView, names: Names)
    ensures
        source_meaning::values_of(w, lw, v, n, sc, names) matches Err(o) ==> !(o is Value),
    decreases n,
{
    if n > 0 && n <= v.len() {
        lemma_not_value(w, lw, v, (n - 1) as nat, sc, names);
    }
}

proof fn lemma_joined(ol: Outcome, v: Result<Seq<Value>, Outcome>, ox: Outcome)
    requires
        v matches Err(o) ==> !(o is Value),
    ensures
        joined(source_meaning::list_outcome(ol, v), ox) == source_meaning::list_outcome(
            ol,
            match v {
                Ok(x) => match ox {
                    Outcome::Value(y) => Ok(x.push(y)),
                    other => Err(other),
                },
                Err(o) => Err(o),
            },
        ),
        source_meaning::list_outcome(ol, v) is Value ==> source_meaning::list_outcome(ol, v)->Value_0 is List,
{
}

/// A library function that is given two atoms.
proof fn lemma_call2(
    w: Outside,
    st: St,
    env: Seq<Value>,
    fuel: nat,
    name: Seq<char>,
    a: AtomView,
    oa: Outcome,
    b: AtomView,
    t: St,
    ob: Outcome,
)
    requires
        both_mean(w, st, env, fuel, a, oa, b, t, ob),
        st.base == env.len(),
    ensures
        ({
            let (r, t2) = emit::call2_s(name, a, b, t);
            &&& grows(t, t2)
            &&& atom_means(
                w,
                st,
                env,
                fuel,
                Ok((r, t2)),
                match (oa, ob) {
                    (Outcome::Value(x), Outcome::Value(y)) => source_meaning::apply2(
                        w,
                        source_meaning::library(name),
                        x,
                        y,
                    ),
                    (Outcome::Value(_), other) => other,
                    (other, _) => other,
                },
            )
        }),
{
    reveal(atom_means);
    let f = AtomView::Global(crate::hash::symbol_id(name));
    let c1 = CoreView::App { func: f, arg: a };
    let (g, t1) = scope::push_s(t, c1);
    let c2 = CoreView::App { func: g, arg: b };
    let (r, t2) = scope::push_s(t1, c2);
    lemma_grown(w, st, t, env, fuel);
    lemma_push(w, t, c1, env, fuel);
    lemma_push(w, t1, c2, env, fuel);
    lemma_chain(t, t1, t2);
    lemma_chain(st, t, t2);
    lemma_grown(w, t1, t2, env, fuel);
    match (ran(w, st, env, fuel), ran(w, t, env, fuel)) {
        (Ok(e0), Ok(e)) => {
            match core_meaning::eval(w, c1, e, true, fuel) {
                Outcome::Value(v) => {
                    lemma_atom_kept(b, e, e.push(v));
                    lemma_extends(e0, e, e.push(v));
                    match core_meaning::eval(w, c2, e.push(v), true, fuel) {
                        Outcome::Value(u) => lemma_extends(e0, e.push(v), e.push(v).push(u)),
                        _ => {},
                    }
                },
                _ => {},
            }
        },
        _ => {},
    }
}

proof fn lemma_set(
    w: Outside,
    lw: LowererView,
    inits: Seq<FieldInit>,
    ai: int,
    ii: int,
    sc: ScopeView,
    st: St,
    env: Seq<Value>,
    names: Names,
    fuel: nat,
)
    requires
        ready(w, sc, st, env, names, fuel),
    ensures
        0 <= ai < inits.len() && 0 <= ii < inits.len() ==> atom_means(
            w,
            st,
            env,
            fuel,
            emit::set_s(lw, inits, ai, ii, sc, st),
            match source_meaning::expr_value(w, lw, inits[ai].value, sc, names) {
                Outcome::Value(alloc) => match inits[ii].value {
                    Expr::Array(items) => match source_meaning::apply2(
                        w,
                        source_meaning::library("std.collections.set_with_capacity"@),
                        alloc,
                        Value::Int(((items@.len() as usize) as i64) as int),
                    ) {
                        Outcome::Value(set) => source_meaning::filled_value(
                            w,
                            lw,
                            items@,
                            items@.len(),
                            alloc,
                            set,
                            sc,
                            names,
                        ),
                        other => other,
                    },
                    _ => Outcome::Stop,
                },
                other => other,
            },
        ),
    decreases inits, 1nat, 0nat,
{
    reveal(atom_means);
    if 0 <= ai < inits.len() && 0 <= ii < inits.len() {
        match (inits[ai].value, inits[ii].value) {
            (alloc_e, Expr::Array(items)) => {
                let oa = source_meaning::expr_value(w, lw, alloc_e, sc, names);
                lemma_atom(w, lw, alloc_e, sc, st, env, names, fuel);
                match emit::atom_s(lw, alloc_e, sc, st) {
                    Ok((alloc, st1)) => {
                        let n = emit::count_atom(items@.len());
                        let on = Outcome::Value(
                            Value::Int(((items@.len() as usize) as i64) as int),
                        );
                        lemma_grown(w, st1, st1, env, fuel);
                        assert(atom_means(w, st1, env, fuel, Ok((n, st1)), on));
                        lemma_then(w, st, env, fuel, alloc, st1, oa, n, st1, on);
                        let name = "std.collections.set_with_capacity"@;
                        lemma_call2(w, st, env, fuel, name, alloc, oa, n, st1, on);
                        let (set, st2) = emit::call2_s(name, alloc, n, st1);
                        lemma_chain(st, st1, st2);
                        lemma_on(w, sc, st, st2, env, names, fuel);
                        let os = match oa {
                            Outcome::Value(x) => source_meaning::apply2(
                                w,
                                source_meaning::library(name),
                                x,
                                on->Value_0,
                            ),
                            other => other,
                        };
                        lemma_inserts(
                            w,
                            lw,
                            items@,
                            items@.len(),
                            alloc,
                            oa,
                            set,
                            os,
                            sc,
                            st,
                            st1,
                            st2,
                            env,
                            names,
                            fuel,
                        );
                    },
                    Err(_) => {},
                }
            },
            _ => {},
        }
    }
}

/// Members that are put into a set, from where the set was made.
#[verifier::rlimit(40)]
proof fn lemma_inserts(
    w: Outside,
    lw: LowererView,
    items: Seq<Expr>,
    n: nat,
    alloc: AtomView,
    oa: Outcome,
    set: AtomView,
    os: Outcome,
    sc: ScopeView,
    st0: St,
    sta: St,
    st: St,
    env: Seq<Value>,
    names: Names,
    fuel: nat,
)
    requires
        ready(w, sc, st, env, names, fuel),
        atom_means(w, st0, env, fuel, Ok((alloc, sta)), oa),
        grows(sta, st),
        atom_means(w, st0, env, fuel, Ok((set, st)), os),
        !(oa is Value) ==> os == oa,
        st0.base == env.len(),
        n <= items.len(),
    ensures
        atom_means(
            w,
            st0,
            env,
            fuel,
            emit::inserts_s(lw, items, n, alloc, set, sc, st),
            match (oa, os) {
                (Outcome::Value(a), Outcome::Value(s)) => source_meaning::filled_value(
                    w,
                    lw,
                    items,
                    n,
                    a,
                    s,
                    sc,
                    names,
                ),
                (_, other) => other,
            },
        ),
        emit::inserts_s(lw, items, n, alloc, set, sc, st) matches Ok((_, t)) ==> grows(st, t),
    decreases items, 0nat, n,
{
    reveal(atom_means);
    if n > 0 {
        let k = (n - 1) as nat;
        let ov = match (oa, os) {
            (Outcome::Value(a), Outcome::Value(s)) => source_meaning::filled_value(
                w,
                lw,
                items,
                k,
                a,
                s,
                sc,
                names,
            ),
            (_, other) => other,
        };
        lemma_inserts(w, lw, items, k, alloc, oa, set, os, sc, st0, sta, st, env, names, fuel);
        match emit::inserts_s(lw, items, k, alloc, set, sc, st) {
            Ok((s, st1)) => {
                lemma_on(w, sc, st, st1, env, names, fuel);
                lemma_atom(w, lw, items[n - 1], sc, st1, env, names, fuel);
                match emit::atom_s(lw, items[n - 1], sc, st1) {
                    Ok((value, st2)) => {
                        let ox = source_meaning::expr_value(w, lw, items[n - 1], sc, names);
                        lemma_then(w, st0, env, fuel, s, st1, ov, value, st2, ox);
                        let name = "std.collections.set_insert"@;
                        let (f, st3) = emit::call2_s(name, alloc, s, st2);
                        let c = CoreView::App { func: f, arg: value };
                        lemma_chain(st, st1, st2);
                        lemma_chain(sta, st, st2);
                        lemma_insert(
                            w, st0, sta, st2, env, fuel, name, alloc, oa, s, ov, value, ox,
                        );
                        lemma_push(w, st3, c, env, fuel);
                        lemma_chain(st, st2, st3);
                        lemma_chain(st, st3, scope::push_s(st3, c).1);
                    },
                    Err(_) => {},
                }
            },
            Err(_) => {},
        }
    }
}

proof fn lemma_insert(
    w: Outside,
    st0: St,
    sta: St,
    st2: St,
    env: Seq<Value>,
    fuel: nat,
    name: Seq<char>,
    alloc: AtomView,
    oa: Outcome,
    s: AtomView,
    ov: Outcome,
    value: AtomView,
    ox: Outcome,
)
    requires
        atom_means(w, st0, env, fuel, Ok((alloc, sta)), oa),
        grows(sta, st2),
        both_mean(w, st0, env, fuel, s, ov, value, st2, ox),
        !(oa is Value) ==> ov == oa,
        st0.base == env.len(),
    ensures
        ({
            let (f, st3) = emit::call2_s(name, alloc, s, st2);
            let c = CoreView::App { func: f, arg: value };
            &&& grows(st2, st3)
            &&& atom_means(
                w,
                st0,
                env,
                fuel,
                Ok(scope::push_s(st3, c)),
                match (oa, ov) {
                    (Outcome::Value(a), Outcome::Value(v)) => match ox {
                        Outcome::Value(x) => match source_meaning::apply2(
                            w,
                            source_meaning::library(name),
                            a,
                            v,
                        ) {
                            Outcome::Value(g) => (w.apply)(g, x),
                            other => other,
                        },
                        other => other,
                    },
                    (_, other) => other,
                },
            )
        }),
{
    reveal(atom_means);
    let (f, st3) = emit::call2_s(name, alloc, s, st2);
    let c = CoreView::App { func: f, arg: value };
    lemma_grown(w, st0, sta, env, fuel);
    lemma_grown(w, sta, st2, env, fuel);
    lemma_grown(w, st0, st2, env, fuel);
    if oa is Value && ov is Value && ox is Value {
        match (ran(w, st0, env, fuel), ran(w, sta, env, fuel), ran(w, st2, env, fuel)) {
            (Ok(e0), Ok(e1), Ok(e2)) => lemma_atom_kept(alloc, e1, e2),
            _ => {},
        }
        assert(both_mean(w, st0, env, fuel, alloc, oa, s, st2, ov));
        lemma_call2(w, st0, env, fuel, name, alloc, oa, s, st2, ov);
        let og = source_meaning::apply2(w, source_meaning::library(name), oa->Value_0, ov->Value_0);
        lemma_grown(w, st2, st3, env, fuel);
        lemma_chain(st0, st2, st3);
        match (ran(w, st2, env, fuel), ran(w, st3, env, fuel)) {
            (Ok(e2), Ok(e3)) => lemma_atom_kept(value, e2, e3),
            _ => {},
        }
        assert(both_mean(w, st0, env, fuel, f, og, value, st3, ox));
        lemma_app(w, st0, env, fuel, f, og, value, st3, ox);
        lemma_bound(
            w,
            st0,
            env,
            fuel,
            Ok((c, st3)),
            match og {
                Outcome::Value(g) => (w.apply)(g, ox->Value_0),
                other => other,
            },
        );
    } else {
        let f0 = AtomView::Global(crate::hash::symbol_id(name));
        let c1 = CoreView::App { func: f0, arg: alloc };
        let (g, t1) = scope::push_s(st2, c1);
        let c2 = CoreView::App { func: g, arg: s };
        lemma_push(w, st2, c1, env, fuel);
        lemma_push(w, t1, c2, env, fuel);
        lemma_chain(st2, t1, st3);
        lemma_push(w, st3, c, env, fuel);
        lemma_chain(st2, st3, scope::push_s(st3, c).1);
        lemma_chain(st0, st2, scope::push_s(st3, c).1);
        lemma_grown(w, st2, scope::push_s(st3, c).1, env, fuel);
    }
}

proof fn lemma_map(
    w: Outside,
    lw: LowererView,
    inits: Seq<FieldInit>,
    ai: int,
    ki: int,
    vi: int,
    sc: ScopeView,
    st: St,
    env: Seq<Value>,
    names: Names,
    fuel: nat,
)
    requires
        ready(w, sc, st, env, names, fuel),
        0 <= ai < inits.len(),
    ensures
        atom_means(
            w,
            st,
            env,
            fuel,
            emit::map_s(lw, inits, ai, ki, vi, sc, st),
            source_meaning::map_outcome(
                source_meaning::list_outcome(
                    source_meaning::expr_value(w, lw, inits[ai].value, sc, names),
                    source_meaning::entries_value(
                        w,
                        lw,
                        inits,
                        ki,
                        vi,
                        emit::part(inits, ki).len(),
                        sc,
                        names,
                    ),
                ),
            ),
        ),
    decreases inits, 1nat, 0nat,
{
    let keys = emit::part(inits, ki);
    let values = emit::part(inits, vi);
    let r = emit::map_s(lw, inits, ai, ki, vi, sc, st);
    if keys.len() == values.len() {
        let ae = inits[ai].value;
        let oa = source_meaning::expr_value(w, lw, ae, sc, names);
        lemma_atom(w, lw, ae, sc, st, env, names, fuel);
        let first = emit::atom_s(lw, ae, sc, st);
        if first is Ok {
            let (alloc, st1) = first->Ok_0;
            let c = CoreView::ListNew {
                elem: TypeView::Nominal {
                    def: crate::hash::symbol_id("std.collections.Entry"@),
                    args: seq![emit::elem_view(lw, keys, sc), emit::elem_view(lw, values, sc)],
                },
                alloc,
                capacity: emit::count_atom(keys.len()),
            };
            let ol = match oa {
                Outcome::Value(_) => Outcome::Value(Value::List(Seq::empty())),
                other => other,
            };
            lemma_new_list(w, st, env, fuel, alloc, st1, oa, c);
            let (list, st2) = scope::push_s(st1, c);
            lemma_atom_grows(w, st, env, fuel, list, st2, ol);
            lemma_on(w, sc, st, st2, env, names, fuel);
            lemma_entries(
                w,
                lw,
                inits,
                ki,
                vi,
                keys.len(),
                alloc,
                list,
                ol,
                sc,
                st,
                st2,
                env,
                names,
                fuel,
            );
            let all = emit::entries_s(lw, inits, ki, vi, keys.len(), alloc, list, sc, st2);
            if all is Ok {
                let (l, st3) = all->Ok_0;
                let ev = source_meaning::entries_value(w, lw, inits, ki, vi, keys.len(), sc, names);
                assert(source_meaning::list_outcome(ol, ev) == source_meaning::list_outcome(oa, ev));
                lemma_whole_leaf(
                    w,
                    st,
                    env,
                    fuel,
                    crate::hash::symbol_id("std.collections.Map"@),
                    l,
                    st3,
                    source_meaning::list_outcome(ol, ev),
                );
            } else {
                assert(r is Err);
                reveal(atom_means);
            }
        } else {
            assert(r is Err);
            reveal(atom_means);
        }
    } else {
        assert(r is Err);
        reveal(atom_means);
    }
}

/// Entries that are put behind an empty list, from where the list was made.
proof fn lemma_entries(
    w: Outside,
    lw: LowererView,
    inits: Seq<FieldInit>,
    ki: int,
    vi: int,
    n: nat,
    alloc: AtomView,
    list: AtomView,
    ol: Outcome,
    sc: ScopeView,
    st0: St,
    st: St,
    env: Seq<Value>,
    names: Names,
    fuel: nat,
)
    requires
        ready(w, sc, st, env, names, fuel),
        atom_means(w, st0, env, fuel, Ok((list, st)), ol),
        ol is Value ==> ol == Outcome::Value(Value::List(Seq::empty())),
        st0.base == env.len(),
    ensures
        emit::entries_s(lw, inits, ki, vi, n, alloc, list, sc, st) matches Ok((l, t)) ==> grows(
            st,
            t,
        ) && atom_means(
            w,
            st0,
            env,
            fuel,
            Ok((l, t)),
            source_meaning::list_outcome(ol, source_meaning::entries_value(w, lw, inits, ki, vi, n, sc, names)),
        ),
    decreases inits, 0nat, n,
{
    reveal_with_fuel(source_meaning::entries_value, 1);
    let keys = emit::part(inits, ki);
    let values = emit::part(inits, vi);
    if n == 0 || n > keys.len() || n > values.len() || !(0 <= ki < inits.len()) || !(0 <= vi
        < inits.len()) {
        lemma_same(w, st0, env, fuel, list, st, ol);
    } else {
        let k = (n - 1) as nat;
        lemma_entries(w, lw, inits, ki, vi, k, alloc, list, ol, sc, st0, st, env, names, fuel);
        let before = emit::entries_s(lw, inits, ki, vi, k, alloc, list, sc, st);
        if before is Ok {
            let (l, st1) = before->Ok_0;
            let ev = source_meaning::entries_value(w, lw, inits, ki, vi, k, sc, names);
            let ov = source_meaning::list_outcome(ol, ev);
            lemma_on(w, sc, st, st1, env, names, fuel);
            let ke = keys[n - 1];
            let ve = values[n - 1];
            let okey = source_meaning::expr_value(w, lw, ke, sc, names);
            let oval = source_meaning::expr_value(w, lw, ve, sc, names);
            lemma_atom(w, lw, ke, sc, st1, env, names, fuel);
            let first = emit::atom_s(lw, ke, sc, st1);
            if first is Ok {
                let (ka, st2) = first->Ok_0;
                lemma_atom_grows(w, st1, env, fuel, ka, st2, okey);
                lemma_on(w, sc, st1, st2, env, names, fuel);
                lemma_atom(w, lw, ve, sc, st2, env, names, fuel);
                let second = emit::atom_s(lw, ve, sc, st2);
                if second is Ok {
                    let (va, st3) = second->Ok_0;
                    lemma_atom_grows(w, st2, env, fuel, va, st3, oval);
                    lemma_no_entry(w, lw, inits, ki, vi, k, sc, names);
                    lemma_joined(ol, ev, okey);
                    lemma_entry(w, st0, st1, st2, st3, env, fuel, l, ov, ka, okey, va, oval, alloc);
                    lemma_entry_grows(w, st, st1, st2, st3, env, fuel, alloc, l, ka, va);
                    lemma_entry_outcome(ol, ev, okey, oval);
                }
            }
        }
    }
}

proof fn lemma_no_entry(
    w: Outside,
    lw: LowererView,
    inits: Seq<FieldInit>,
    ki: int,
    vi: int,
    n: nat,
    sc: ScopeView,
    names: Names,
)
    ensures
        source_meaning::entries_value(w, lw, inits, ki, vi, n, sc, names) matches Err(o) ==> !(o is Value),
    decreases n,
{
    reveal_with_fuel(source_meaning::entries_value, 1);
    if n > 0 {
        lemma_no_entry(w, lw, inits, ki, vi, (n - 1) as nat, sc, names);
    }
}

proof fn lemma_entry_grows(
    w: Outside,
    st: St,
    st1: St,
    st2: St,
    st3: St,
    env: Seq<Value>,
    fuel: nat,
    alloc: AtomView,
    l: AtomView,
    ka: AtomView,
    va: AtomView,
)
    requires
        grows(st, st1),
        grows(st1, st2),
        grows(st2, st3),
        st3.base == env.len(),
    ensures
        ({
            let (en, st4) = scope::push_s(st3, emit::entry_view(ka, va));
            grows(st, scope::push_s(st4, CoreView::ListPush { alloc, list: l, value: en }).1)
        }),
{
    lemma_chain(st1, st2, st3);
    lemma_chain(st, st1, st3);
    let (en, st4) = scope::push_s(st3, emit::entry_view(ka, va));
    lemma_push(w, st3, emit::entry_view(ka, va), env, fuel);
    lemma_chain(st, st3, st4);
    let c = CoreView::ListPush { alloc, list: l, value: en };
    lemma_push(w, st4, c, env, fuel);
    lemma_chain(st, st4, scope::push_s(st4, c).1);
}

/// What comes of one more entry.
pub open spec fn entered(ov: Outcome, okey: Outcome, oval: Outcome) -> Outcome {
    match (ov, okey, oval) {
        (Outcome::Value(Value::List(v)), Outcome::Value(x), Outcome::Value(y)) => Outcome::Value(
            Value::List(v.push(source_meaning::entry(x, y))),
        ),
        (Outcome::Value(_), Outcome::Value(_), other) => other,
        (Outcome::Value(_), other, _) => other,
        (other, _, _) => other,
    }
}

proof fn lemma_entry_outcome(ol: Outcome, ev: Result<Seq<Value>, Outcome>, okey: Outcome, oval: Outcome)
    requires
        ev matches Err(o) ==> !(o is Value),
    ensures
        entered(source_meaning::list_outcome(ol, ev), okey, oval) == source_meaning::list_outcome(
            ol,
            match ev {
                Ok(out) => match okey {
                    Outcome::Value(k) => match oval {
                        Outcome::Value(v) => Ok(out.push(source_meaning::entry(k, v))),
                        other => Err(other),
                    },
                    other => Err(other),
                },
                Err(o) => Err(o),
            },
        ),
{
}

#[verifier::rlimit(40)]
proof fn lemma_entry(
    w: Outside,
    st0: St,
    st1: St,
    st2: St,
    st3: St,
    env: Seq<Value>,
    fuel: nat,
    l: AtomView,
    ov: Outcome,
    ka: AtomView,
    okey: Outcome,
    va: AtomView,
    oval: Outcome,
    alloc: AtomView,
)
    requires
        atom_means(w, st0, env, fuel, Ok((l, st1)), ov),
        atom_means(w, st1, env, fuel, Ok((ka, st2)), okey),
        atom_means(w, st2, env, fuel, Ok((va, st3)), oval),
        ov is Value ==> ov->Value_0 is List,
        st0.base == env.len(),
    ensures
        ({
            let (en, st4) = scope::push_s(st3, emit::entry_view(ka, va));
            atom_means(
                w,
                st0,
                env,
                fuel,
                Ok(scope::push_s(st4, CoreView::ListPush { alloc, list: l, value: en })),
                entered(ov, okey, oval),
            )
        }),
{
    reveal(atom_means);
    let d = emit::entry_view(ka, va);
    let (en, st4) = scope::push_s(st3, d);
    let c = CoreView::ListPush { alloc, list: l, value: en };
    let st5 = scope::push_s(st4, c).1;
    lemma_then(w, st0, env, fuel, l, st1, ov, ka, st2, okey);
    lemma_grown(w, st0, st2, env, fuel);
    lemma_grown(w, st2, st3, env, fuel);
    lemma_chain(st0, st2, st3);
    lemma_push(w, st3, d, env, fuel);
    lemma_push(w, st4, c, env, fuel);
    lemma_chain(st3, st4, st5);
    lemma_chain(st0, st3, st5);
    lemma_grown(w, st3, st5, env, fuel);
    match (ran(w, st0, env, fuel), ran(w, st2, env, fuel), ran(w, st3, env, fuel)) {
        (Ok(e0), Ok(e2), Ok(e3)) => {
            lemma_atom_kept(l, e2, e3);
            lemma_atom_kept(ka, e2, e3);
            lemma_extends(e0, e2, e3);
            let zero = AtomView::Lit(LiteralView::Int(0));
            lemma_three(zero, ka, va, e3);
            match core_meaning::eval(w, d, e3, true, fuel) {
                Outcome::Value(x) => {
                    lemma_atom_kept(l, e3, e3.push(x));
                    lemma_extends(e0, e3, e3.push(x));
                    match core_meaning::eval(w, c, e3.push(x), true, fuel) {
                        Outcome::Value(y) => lemma_extends(e0, e3.push(x), e3.push(x).push(y)),
                        _ => {},
                    }
                },
                _ => {},
            }
        },
        _ => {},
    }
}

proof fn lemma_three(a: AtomView, b: AtomView, c: AtomView, e: Seq<Value>)
    ensures
        core_meaning::atom_values(seq![a, b, c], 3, e, true) == match (
            core_meaning::atom_value(a, e, true),
            core_meaning::atom_value(b, e, true),
            core_meaning::atom_value(c, e, true),
        ) {
            (Some(x), Some(y), Some(z)) => Some(seq![x, y, z]),
            _ => None::<Seq<Value>>,
        },
{
    let v = seq![a, b, c];
    reveal_with_fuel(core_meaning::atom_values, 4);
    assert(v[0] == a && v[1] == b && v[2] == c);
    match (
        core_meaning::atom_value(a, e, true),
        core_meaning::atom_value(b, e, true),
        core_meaning::atom_value(c, e, true),
    ) {
        (Some(x), Some(y), Some(z)) => {
            assert(Seq::<Value>::empty().push(x).push(y).push(z) =~= seq![x, y, z]);
        },
        _ => {},
    }
}

} // verus!
