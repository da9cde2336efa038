//! Scopes that differ in the names of their bindings only.
use vstd::prelude::*;

use crate::alike;
use crate::find;
use crate::ir::AtomView;
use crate::scope;
use crate::scope::{BindView, ScopeView};

verus! {

/// The binding that a name denotes.
pub open spec fn local_at(sc: ScopeView, x: Seq<char>) -> Option<int> {
    find::last_below(scope::binds_name(sc, x), sc.binds.len() as int)
}

/// Names that denote the same binding, or none and are one name.
pub open spec fn same_local(a: ScopeView, b: ScopeView, x: Seq<char>, y: Seq<char>) -> bool {
    &&& local_at(a, x) == local_at(b, y)
    &&& local_at(a, x) is None ==> x == y
}

/// Bindings that differ in their names only.
pub open spec fn same_bind(a: BindView, b: BindView) -> bool {
    BindView { name: b.name, ..a } == b
}

/// Whether every binding has the name of its declaration.
pub open spec fn declared_names(sc: ScopeView) -> bool {
    forall|i: int|
        0 <= i < sc.binds.len() ==> (#[trigger] sc.binds[i]).decl <= i && sc.binds[sc.binds[i].decl as int].name
            == sc.binds[i].name
}

/// Names that stand for each other: by `env`, or a hidden name for itself.
pub open spec fn linked(env: alike::Env, x: Seq<char>, y: Seq<char>) -> bool {
    alike::same_name(env, x, y) || (alike::hidden(x) && x == y)
}

/// Scopes that differ in the names of their bindings only, such that names that
/// stand for each other denote the same binding.
#[verifier::opaque]
pub open spec fn same_scope(
    env: alike::Env,
    a: ScopeView,
    b: ScopeView,
) -> bool {
    &&& a.binds.len() == b.binds.len()
    &&& a.unsafe_ok == b.unsafe_ok
    &&& forall|i: int| 0 <= i < a.binds.len() ==> same_bind(#[trigger] a.binds[i], b.binds[i])
    &&& declared_names(a)
    &&& declared_names(b)
    &&& forall|i: int|
        0 <= i < env.len() ==> alike::both_declare((#[trigger] env[i]).0, env[i].1)
    &&& forall|x: Seq<char>, y: Seq<char>| #[trigger] linked(env, x, y) ==> same_local(a, b, x, y)
    &&& forall|x: Seq<char>|
        names_agree(a, #[trigger] local_at(a, x), env, alike::left_at(env, x), x)
    &&& forall|x: Seq<char>|
        names_agree(b, #[trigger] local_at(b, x), env, alike::right_at(env, x), x)
}

/// Whether the binding and the declaration that one side's name denotes go
/// together: both are there, and can be assigned alike, or neither. A hidden name
/// has no declaration.
pub open spec fn names_agree(
    sc: ScopeView,
    at: Option<int>,
    env: alike::Env,
    decl: Option<int>,
    x: Seq<char>,
) -> bool {
    match (at, decl) {
        (Some(k), Some(i)) => sc.binds[k].mutable == env[i].2,
        (Some(_), None) => alike::hidden(x),
        (None, Some(_)) => false,
        (None, None) => true,
    }
}

/// The declaration that a bound name denotes.
pub proof fn lemma_known(env: alike::Env, a: ScopeView, b: ScopeView, x: Seq<char>)
    requires
        same_scope(env, a, b),
    ensures
        scope::local(a, x) matches Some(p) ==> alike::hidden(x) || match alike::left_at(env, x) {
            Some(i) => 0 <= i < env.len() && env[i].0 == x && env[i].2 == p.mutable
                && alike::both_declare(env[i].0, env[i].1),
            None => false,
        },
        scope::local(b, x) matches Some(p) ==> alike::hidden(x) || match alike::right_at(env, x) {
            Some(i) => 0 <= i < env.len() && env[i].1 == x && env[i].2 == p.mutable
                && alike::both_declare(env[i].0, env[i].1),
            None => false,
        },
{
    reveal(same_scope);
    lemma_env_found(env, x);
    find::lemma_last_below(scope::binds_name(a, x), a.binds.len() as int);
    find::lemma_last_below(scope::binds_name(b, x), b.binds.len() as int);
    assert(names_agree(a, local_at(a, x), env, alike::left_at(env, x), x));
    assert(names_agree(b, local_at(b, x), env, alike::right_at(env, x), x));
}

/// What names that stand for each other denote.
pub proof fn lemma_local(
    env: alike::Env,
    a: ScopeView,
    b: ScopeView,
    x: Seq<char>,
    y: Seq<char>,
)
    requires
        same_scope(env, a, b),
        linked(env, x, y),
    ensures
        a.unsafe_ok == b.unsafe_ok,
        same_local(a, b, x, y),
        scope::local(a, x) is None ==> x == y && scope::local(b, y) is None,
        scope::local(a, x) is Some ==> scope::local(b, y) is Some && same_bind(
            scope::local(a, x)->0,
            scope::local(b, y)->0,
        ),
        scope::local(a, x) is Some ==> (scope::local(a, x)->0).name == x && (scope::local(b, y)->0).name
            == y,
        scope::local(a, x) is Some ==> (scope::local(a, x)->0).decl < a.binds.len()
            && a.binds[(scope::local(a, x)->0).decl as int].name == x
            && b.binds[(scope::local(a, x)->0).decl as int].name == y,
{
    reveal(same_scope);
    find::lemma_last_below(scope::binds_name(a, x), a.binds.len() as int);
    find::lemma_last_below(scope::binds_name(b, y), b.binds.len() as int);
    match local_at(a, x) {
        Some(i) => {
            assert(a.binds[i].decl <= i);
            assert(b.binds[i].decl <= i);
        },
        None => {},
    }
}

/// A hidden name is its own other name.
pub proof fn lemma_hidden(
    env: alike::Env,
    a: ScopeView,
    b: ScopeView,
    x: Seq<char>,
)
    requires
        same_scope(env, a, b),
        alike::hidden(x),
    ensures
        alike::left_at(env, x) is None,
        alike::right_at(env, x) is None,
{
    reveal(same_scope);
    lemma_env_found(env, x);
    match alike::left_at(env, x) {
        Some(i) => {
            assert(alike::both_declare(env[i].0, env[i].1));
        },
        None => {},
    }
    match alike::right_at(env, x) {
        Some(i) => {
            assert(alike::both_declare(env[i].0, env[i].1));
        },
        None => {},
    }
}

/// What scopes that are alike allow.
pub proof fn lemma_allowed(env: alike::Env, a: ScopeView, b: ScopeView)
    requires
        same_scope(env, a, b),
    ensures
        a.unsafe_ok == b.unsafe_ok,
        a.binds.len() == b.binds.len(),
{
    reveal(same_scope);
}

/// Bindings that differ in their names only have the same latest atoms.
pub proof fn lemma_latest(
    env: alike::Env,
    a: ScopeView,
    b: ScopeView,
    decl: nat,
    atom: AtomView,
)
    requires
        same_scope(env, a, b),
    ensures
        scope::latest(a, decl, atom) == scope::latest(b, decl, atom),
{
    reveal(same_scope);
    let p = |i: int| a.binds[i].decl == decl;
    let q = |i: int| b.binds[i].decl == decl;
    assert forall|k: int| 0 <= k < a.binds.len() implies #[trigger] p(k) == q(k) by {
        assert(same_bind(a.binds[k], b.binds[k]));
    }
    find::lemma_last_below_same(p, q, a.binds.len() as int);
    find::lemma_last_below(p, a.binds.len() as int);
    match find::last_below(p, a.binds.len() as int) {
        Some(i) => {
            assert(same_bind(a.binds[i], b.binds[i]));
        },
        None => {},
    }
}

/// Where a name is bound after one more binding.
pub proof fn lemma_local_at(sc: ScopeView, b: BindView, x: Seq<char>)
    ensures
        local_at(scope::bind(sc, b), x) == if b.name == x {
            Some(sc.binds.len() as int)
        } else {
            local_at(sc, x)
        },
{
    let p = scope::binds_name(scope::bind(sc, b), x);
    let q = scope::binds_name(sc, x);
    assert(p(sc.binds.len() as int) == (b.name == x));
    assert forall|k: int| 0 <= k < sc.binds.len() implies #[trigger] p(k) == q(k) by {}
    find::lemma_last_below_same(p, q, sc.binds.len() as int);
}

/// Where a name is declared after one more declaration.
pub proof fn lemma_env_at(env: alike::Env, p: (Seq<char>, Seq<char>, bool), x: Seq<char>)
    ensures
        alike::left_at(env.push(p), x) == if p.0 == x {
            Some(env.len() as int)
        } else {
            alike::left_at(env, x)
        },
        alike::right_at(env.push(p), x) == if p.1 == x {
            Some(env.len() as int)
        } else {
            alike::right_at(env, x)
        },
{
    let n = env.len() as int;
    let l = alike::on_left(env.push(p), x);
    let l0 = alike::on_left(env, x);
    let r = alike::on_right(env.push(p), x);
    let r0 = alike::on_right(env, x);
    assert(l(n) == (p.0 == x));
    assert(r(n) == (p.1 == x));
    assert forall|k: int| 0 <= k < n implies #[trigger] l(k) == l0(k) by {}
    assert forall|k: int| 0 <= k < n implies #[trigger] r(k) == r0(k) by {}
    find::lemma_last_below_same(l, l0, n);
    find::lemma_last_below_same(r, r0, n);
}

/// What a declaration says of the names that denote it.
pub proof fn lemma_env_found(env: alike::Env, x: Seq<char>)
    ensures
        match alike::left_at(env, x) {
            Some(i) => 0 <= i < env.len() && env[i].0 == x,
            None => true,
        },
        match alike::right_at(env, x) {
            Some(i) => 0 <= i < env.len() && env[i].1 == x,
            None => true,
        },
{
    find::lemma_last_below(alike::on_left(env, x), env.len() as int);
    find::lemma_last_below(alike::on_right(env, x), env.len() as int);
}

/// A name stands for one name only.
pub proof fn lemma_linked_once(
    env: alike::Env,
    x: Seq<char>,
    y: Seq<char>,
    z: Seq<char>,
    w: Seq<char>,
)
    requires
        linked(env, x, y),
        linked(env, z, w),
    ensures
        x == z <==> y == w,
{
    lemma_env_found(env, x);
    lemma_env_found(env, y);
    lemma_env_found(env, z);
    lemma_env_found(env, w);
}

/// Whether a binding of a name of the left side can be assigned as the declaration
/// that the name denotes.
pub open spec fn settled(env: alike::Env, p: BindView) -> bool {
    alike::hidden(p.name) || match alike::left_at(env, p.name) {
        Some(i) => env[i].2 == p.mutable,
        None => false,
    }
}

/// Both sides bind anew a name that stands for the other side's.
pub proof fn lemma_rebind(
    env: alike::Env,
    a: ScopeView,
    b: ScopeView,
    p: BindView,
    q: BindView,
)
    requires
        same_scope(env, a, b),
        same_bind(p, q),
        linked(env, p.name, q.name),
        p.decl < a.binds.len(),
        a.binds[p.decl as int].name == p.name,
        b.binds[q.decl as int].name == q.name,
        settled(env, p),
    ensures
        same_scope(env, scope::bind(a, p), scope::bind(b, q)),
{
    reveal(same_scope);
    let a1 = scope::bind(a, p);
    let b1 = scope::bind(b, q);
    lemma_pushed(a, b, p, q);
    assert forall|x: Seq<char>, y: Seq<char>| #[trigger] linked(env, x, y) implies same_local(
        a1,
        b1,
        x,
        y,
    ) by {
        lemma_linked_once(env, x, y, p.name, q.name);
        lemma_local_at(a, p, x);
        lemma_local_at(b, q, y);
        assert(same_local(a, b, x, y));
    }
    lemma_env_found(env, p.name);
    lemma_env_found(env, q.name);
    assert forall|x: Seq<char>| names_agree(
        a1,
        #[trigger] local_at(a1, x),
        env,
        alike::left_at(env, x),
        x,
    ) by {
        lemma_local_at(a, p, x);
        lemma_bound(a, x);
        assert(names_agree(a, local_at(a, x), env, alike::left_at(env, x), x));
    }
    assert forall|x: Seq<char>| names_agree(
        b1,
        #[trigger] local_at(b1, x),
        env,
        alike::right_at(env, x),
        x,
    ) by {
        lemma_local_at(b, q, x);
        lemma_bound(b, x);
        assert(names_agree(b, local_at(b, x), env, alike::right_at(env, x), x));
    }
}

/// Where a name is bound lies in the scope.
proof fn lemma_bound(sc: ScopeView, x: Seq<char>)
    ensures
        local_at(sc, x) matches Some(i) ==> 0 <= i < sc.binds.len(),
{
    find::lemma_last_below(scope::binds_name(sc, x), sc.binds.len() as int);
}

/// What one more binding keeps.
proof fn lemma_pushed(a: ScopeView, b: ScopeView, p: BindView, q: BindView)
    requires
        a.binds.len() == b.binds.len(),
        forall|i: int| 0 <= i < a.binds.len() ==> same_bind(#[trigger] a.binds[i], b.binds[i]),
        declared_names(a),
        declared_names(b),
        same_bind(p, q),
        p.decl <= a.binds.len(),
        p.decl < a.binds.len() ==> a.binds[p.decl as int].name == p.name && b.binds[p.decl as int].name
            == q.name,
    ensures
        scope::bind(a, p).binds.len() == scope::bind(b, q).binds.len(),
        forall|i: int|
            0 <= i < scope::bind(a, p).binds.len() ==> same_bind(
                #[trigger] scope::bind(a, p).binds[i],
                scope::bind(b, q).binds[i],
            ),
        declared_names(scope::bind(a, p)),
        declared_names(scope::bind(b, q)),
{
    let a1 = scope::bind(a, p);
    let b1 = scope::bind(b, q);
    assert forall|i: int| 0 <= i < a1.binds.len() implies same_bind(
        #[trigger] a1.binds[i],
        b1.binds[i],
    ) by {
        if i < a.binds.len() {
            assert(same_bind(a.binds[i], b.binds[i]));
        }
    }
    assert forall|i: int| 0 <= i < a1.binds.len() implies (#[trigger] a1.binds[i]).decl <= i
        && a1.binds[a1.binds[i].decl as int].name == a1.binds[i].name by {
        if i < a.binds.len() {
            assert(a.binds[i].decl <= i);
        }
    }
    assert forall|i: int| 0 <= i < b1.binds.len() implies (#[trigger] b1.binds[i]).decl <= i
        && b1.binds[b1.binds[i].decl as int].name == b1.binds[i].name by {
        if i < b.binds.len() {
            assert(b.binds[i].decl <= i);
        }
    }
}

/// Both sides declare a name.
pub proof fn lemma_declare(
    env: alike::Env,
    a: ScopeView,
    b: ScopeView,
    p: BindView,
    q: BindView,
)
    requires
        same_scope(env, a, b),
        same_bind(p, q),
        alike::both_declare(p.name, q.name),
        p.decl == a.binds.len(),
    ensures
        same_scope(env.push((p.name, q.name, p.mutable)), scope::bind(a, p), scope::bind(b, q)),
{
    reveal(same_scope);
    let a1 = scope::bind(a, p);
    let b1 = scope::bind(b, q);
    let pair = (p.name, q.name, p.mutable);
    let inner = env.push(pair);
    lemma_pushed(a, b, p, q);
    assert forall|x: Seq<char>, y: Seq<char>| #[trigger] linked(inner, x, y) implies same_local(
        a1,
        b1,
        x,
        y,
    ) by {
        lemma_env_at(env, pair, x);
        lemma_env_at(env, pair, y);
        lemma_env_found(env, x);
        lemma_env_found(env, y);
        lemma_local_at(a, p, x);
        lemma_local_at(b, q, y);
        if x != p.name && !alike::hidden(x) {
            assert(linked(env, x, y));
            assert(same_local(a, b, x, y));
        }
        if alike::hidden(x) {
            assert(linked(env, x, y));
            assert(same_local(a, b, x, y));
        }
    }
    assert forall|x: Seq<char>| names_agree(
        a1,
        #[trigger] local_at(a1, x),
        inner,
        alike::left_at(inner, x),
        x,
    ) by {
        lemma_env_at(env, pair, x);
        lemma_env_found(env, x);
        lemma_local_at(a, p, x);
        lemma_bound(a, x);
        assert(names_agree(a, local_at(a, x), env, alike::left_at(env, x), x));
    }
    assert forall|x: Seq<char>| names_agree(
        b1,
        #[trigger] local_at(b1, x),
        inner,
        alike::right_at(inner, x),
        x,
    ) by {
        lemma_env_at(env, pair, x);
        lemma_env_found(env, x);
        lemma_local_at(b, q, x);
        lemma_bound(b, x);
        assert(names_agree(b, local_at(b, x), env, alike::right_at(env, x), x));
    }
}

/// Both sides declare the same hidden name.
pub proof fn lemma_declare_hidden(
    env: alike::Env,
    a: ScopeView,
    b: ScopeView,
    p: BindView,
)
    requires
        same_scope(env, a, b),
        alike::hidden(p.name),
        p.decl == a.binds.len(),
    ensures
        same_scope(env, scope::bind(a, p), scope::bind(b, p)),
{
    reveal(same_scope);
    let a1 = scope::bind(a, p);
    let b1 = scope::bind(b, p);
    lemma_pushed(a, b, p, p);
    assert forall|x: Seq<char>, y: Seq<char>| #[trigger] linked(env, x, y) implies same_local(
        a1,
        b1,
        x,
        y,
    ) by {
        lemma_local_at(a, p, x);
        lemma_local_at(b, p, y);
        assert(same_local(a, b, x, y));
    }
    lemma_hidden(env, a, b, p.name);
    assert forall|x: Seq<char>| names_agree(
        a1,
        #[trigger] local_at(a1, x),
        env,
        alike::left_at(env, x),
        x,
    ) by {
        lemma_local_at(a, p, x);
        lemma_bound(a, x);
        assert(names_agree(a, local_at(a, x), env, alike::left_at(env, x), x));
    }
    assert forall|x: Seq<char>| names_agree(
        b1,
        #[trigger] local_at(b1, x),
        env,
        alike::right_at(env, x),
        x,
    ) by {
        lemma_local_at(b, p, x);
        lemma_bound(b, x);
        assert(names_agree(b, local_at(b, x), env, alike::right_at(env, x), x));
    }
}

/// A scope without bindings is like itself.
pub proof fn lemma_empty_scope(unsafe_ok: bool)
    ensures
        same_scope(
            Seq::empty(),
            ScopeView { binds: Seq::empty(), unsafe_ok },
            ScopeView { binds: Seq::empty(), unsafe_ok },
        ),
{
    reveal(same_scope);
    let sc = ScopeView { binds: Seq::empty(), unsafe_ok };
    let env: alike::Env = Seq::empty();
    assert forall|x: Seq<char>| (#[trigger] local_at(sc, x)) is None && alike::left_at(env, x) is None
        && alike::right_at(env, x) is None by {
        lemma_bound(sc, x);
        lemma_env_found(env, x);
    }
}

} // verus!
