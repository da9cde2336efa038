//! What lowering does not depend on.
use vstd::prelude::*;
use vstd::utf8::*;

use crate::alike_expr;
use crate::asking;
use crate::blocks;
use crate::blocks::{GoalView, SlotsView};
use crate::decls;
use crate::emit;
use crate::find;
use crate::hash;
use crate::hash_laws;
use crate::ir::DefView;
use crate::lower;
use crate::lower::VariantView;
use crate::lower_error::LowerErrorView;
use crate::scope;
use crate::scope::{LowererView, PendView, ReqView, ScopeView, St};
use crate::syntax::{Arm, Block, Field, FieldInit, FnDecl, MatchExpr, Pattern, Tail};
use crate::text;

verus! {

/// Whether no field is initialised twice.
pub open spec fn distinct_inits(v: Seq<FieldInit>) -> bool {
    forall|i: int, j: int|
        0 <= i < j < v.len() ==> (#[trigger] v[i]).name@ != (#[trigger] v[j]).name@
}

/// Initialisers that are the same, in whatever order they are written.
pub open spec fn same_members(v: Seq<FieldInit>, w: Seq<FieldInit>) -> bool {
    forall|x: FieldInit| #[trigger] v.contains(x) <==> w.contains(x)
}

proof fn lemma_found(v: Seq<FieldInit>, w: Seq<FieldInit>, name: Seq<char>)
    requires
        distinct_inits(v),
        distinct_inits(w),
        same_members(v, w),
    ensures
        match (emit::init_index(v, name), emit::init_index(w, name)) {
            (Some(i), Some(j)) => 0 <= i < v.len() && 0 <= j < w.len() && v[i] == w[j],
            (None, None) => true,
            _ => false,
        },
{
    let p = emit::is_init_named(v, name);
    let q = emit::is_init_named(w, name);
    find::lemma_first_from(p, 0, v.len() as int);
    find::lemma_first_from(q, 0, w.len() as int);
    match emit::init_index(v, name) {
        Some(i) => {
            assert(v.contains(v[i]));
            assert(w.contains(v[i]));
            let j = choose|j: int| 0 <= j < w.len() && w[j] == v[i];
            assert(q(j));
        },
        None => {},
    }
    match emit::init_index(w, name) {
        Some(j) => {
            assert(w.contains(w[j]));
            assert(v.contains(w[j]));
            let i = choose|i: int| 0 <= i < v.len() && v[i] == w[j];
            assert(p(i));
        },
        None => {},
    }
}

proof fn lemma_undeclared_in(v: Seq<FieldInit>, w: Seq<FieldInit>, fields: Seq<Field>)
    requires
        same_members(v, w),
        emit::undeclared(v, fields) is Some,
    ensures
        emit::undeclared(w, fields) is Some,
{
    let p = emit::is_undeclared(v, fields);
    let q = emit::is_undeclared(w, fields);
    find::lemma_first_from(p, 0, v.len() as int);
    find::lemma_first_from(q, 0, w.len() as int);
    let i = emit::undeclared(v, fields)->0;
    assert(v.contains(v[i]));
    assert(w.contains(v[i]));
    let j = choose|j: int| 0 <= j < w.len() && w[j] == v[i];
    assert(q(j));
}

proof fn lemma_inits_order(
    lw: LowererView,
    name: Seq<char>,
    fields: Seq<Field>,
    n: nat,
    v: Seq<FieldInit>,
    w: Seq<FieldInit>,
    sc: ScopeView,
    st: St,
)
    requires
        distinct_inits(v),
        distinct_inits(w),
        same_members(v, w),
    ensures
        emit::inits_s(lw, name, fields, n, v, sc, st) == emit::inits_s(
            lw,
            name,
            fields,
            n,
            w,
            sc,
            st,
        ),
    decreases n,
{
    if n > 0 && n <= fields.len() {
        lemma_inits_order(lw, name, fields, (n - 1) as nat, v, w, sc, st);
        lemma_found(v, w, fields[n - 1].name@);
    }
}

/// The order in which the fields of a struct literal are written does not
/// matter: they are evaluated in the order of their declaration.
pub proof fn lemma_field_order_does_not_matter(
    lw: LowererView,
    path: Seq<Seq<char>>,
    v: Seq<FieldInit>,
    w: Seq<FieldInit>,
    sc: ScopeView,
    st: St,
)
    requires
        distinct_inits(v),
        distinct_inits(w),
        same_members(v, w),
    ensures
        alike_expr::agree(
            emit::struct_s(lw, path, v, sc, st),
            emit::struct_s(lw, path, w, sc, st),
        ),
{
    match decls::struct_named(lw.m, text::join_view(path, "."@)) {
        Some(d) => {
            if emit::undeclared(v, d.fields@) is Some {
                lemma_undeclared_in(v, w, d.fields@);
            }
            if emit::undeclared(w, d.fields@) is Some {
                lemma_undeclared_in(w, v, d.fields@);
            }
            lemma_inits_order(
                lw,
                text::join_view(path, "."@),
                d.fields@,
                d.fields@.len(),
                v,
                w,
                sc,
                st,
            );
        },
        None => {},
    }
}

/// The name of a definition is no part of its identity.
pub proof fn lemma_a_name_is_not_part_of_the_identity(
    x: Seq<char>,
    y: Seq<char>,
    def: DefView,
    v: Option<Seq<VariantView>>,
    w: Option<Seq<VariantView>>,
)
    ensures
        lower::entry_of(x, def, v).hash == lower::entry_of(y, def, w).hash,
{
}

/// An instance that is asked for again is lowered once.
pub proof fn lemma_an_instance_is_asked_for_once(
    p: PendView,
    id: Seq<char>,
    first: ReqView,
    second: ReqView,
)
    ensures
        scope::ask(scope::ask(p, id, first), id, second) == scope::ask(p, id, first),
        p.seen.contains(id) ==> scope::ask(p, id, first) == p,
        scope::ask(p, id, first).seen.contains(id),
{
    if !p.seen.contains(id) {
        let q = scope::ask(p, id, first);
        assert(q.seen[p.seen.len() as int] == id);
    }
}

// ---- arms ------------------------------------------------------------------------------------------

/// The arms of `b` are those of `a`, with the two from `i` on exchanged.
pub open spec fn exchanged(a: Seq<Arm>, b: Seq<Arm>, i: int) -> bool {
    &&& 0 <= i
    &&& i + 1 < a.len()
    &&& b == a.update(i, a[i + 1]).update(i + 1, a[i])
}

/// Two arms cover different things: two variants of one enum, or a variant and
/// what is left.
pub open spec fn arms_differ(lw: LowererView, a: Arm, b: Arm) -> bool {
    match (a.pat, b.pat) {
        (Pattern::Ctor { path: p, fields: _ }, Pattern::Ctor { path: q, fields: _ }) => match (
            blocks::pattern_ctor(lw, text::strings_view(p@)),
            blocks::pattern_ctor(lw, text::strings_view(q@)),
        ) {
            (Ok(c), Ok(d)) => c.tag != d.tag && decls::ctor_enum(lw.ms, c) == decls::ctor_enum(
                lw.ms,
                d,
            ),
            _ => false,
        },
        (Pattern::Wildcard, Pattern::Wildcard) => false,
        _ => true,
    }
}

proof fn lemma_same_enum(lw: LowererView, a: Seq<Arm>, b: Seq<Arm>, i: int, j: nat)
    requires
        exchanged(a, b, i),
        arms_differ(lw, a[i], a[i + 1]),
        j <= i || j >= i + 2,
    ensures
        blocks::arms_enum(lw, a, j) == blocks::arms_enum(lw, b, j),
    decreases a.len() - j,
{
    if j < a.len() {
        if j == i {
            reveal_with_fuel(blocks::arms_enum, 3);
            lemma_same_enum(lw, a, b, i, j + 2);
        } else {
            assert(a[j as int] == b[j as int]);
            lemma_same_enum(lw, a, b, i, j + 1);
        }
    }
}

/// Results that are the same but for the instances asked for, or both failures.
pub open spec fn same_code<T>(
    a: Result<(T, PendView), LowerErrorView>,
    b: Result<(T, PendView), LowerErrorView>,
) -> bool {
    match (a, b) {
        (Ok((x, _)), Ok((y, _))) => x == y,
        (Err(_), Err(_)) => true,
        _ => false,
    }
}

/// One arm after another.
pub open spec fn both_arms(
    lw: LowererView,
    a: Arm,
    b: Arm,
    qual: Seq<char>,
    goal: GoalView,
    sc: ScopeView,
    base: u32,
    s: SlotsView,
    pend: PendView,
) -> Result<(SlotsView, PendView), LowerErrorView> {
    match blocks::arm_s(lw, a, qual, goal, sc, base, s, pend) {
        Ok((s1, p1)) => blocks::arm_s(lw, b, qual, goal, sc, base, s1, p1),
        Err(x) => Err(x),
    }
}

proof fn lemma_two_arms(
    lw: LowererView,
    a: Arm,
    b: Arm,
    qual: Seq<char>,
    goal: GoalView,
    sc: ScopeView,
    base: u32,
    s: SlotsView,
    pend: PendView,
)
    requires
        arms_differ(lw, a, b),
    ensures
        same_code(
            both_arms(lw, a, b, qual, goal, sc, base, s, pend),
            both_arms(lw, b, a, qual, goal, sc, base, s, pend),
        ),
{
    if let Ok((s1, p1)) = blocks::arm_s(lw, a, qual, goal, sc, base, s, pend) {
        asking::lemma_arm(lw, b, qual, goal, sc, base, s, pend, p1);
        asking::lemma_arm(lw, b, qual, goal, sc, base, s1, pend, p1);
    }
    if let Ok((s2, p2)) = blocks::arm_s(lw, b, qual, goal, sc, base, s, pend) {
        asking::lemma_arm(lw, a, qual, goal, sc, base, s, pend, p2);
        asking::lemma_arm(lw, a, qual, goal, sc, base, s2, pend, p2);
    }
    match (
        both_arms(lw, a, b, qual, goal, sc, base, s, pend),
        both_arms(lw, b, a, qual, goal, sc, base, s, pend),
    ) {
        (Ok((x, _)), Ok((y, _))) => {
            assert(x.tags =~= y.tags);
        },
        _ => {},
    }
}

proof fn lemma_arms_agree(
    lw: LowererView,
    a: Seq<Arm>,
    b: Seq<Arm>,
    i: int,
    n: nat,
    qual: Seq<char>,
    goal: GoalView,
    sc: ScopeView,
    base: u32,
    s: SlotsView,
    pend: PendView,
)
    requires
        exchanged(a, b, i),
        arms_differ(lw, a[i], a[i + 1]),
        n <= a.len(),
        n <= i || n >= i + 2,
    ensures
        same_code(
            blocks::arms_s(lw, a, n, qual, goal, sc, base, s, pend),
            blocks::arms_s(lw, b, n, qual, goal, sc, base, s, pend),
        ),
        n <= i ==> blocks::arms_s(lw, a, n, qual, goal, sc, base, s, pend) == blocks::arms_s(
            lw,
            b,
            n,
            qual,
            goal,
            sc,
            base,
            s,
            pend,
        ),
    decreases n,
{
    if n > 0 {
        if n == i + 2 {
            lemma_arms_agree(lw, a, b, i, i as nat, qual, goal, sc, base, s, pend);
            assert(b[i] == a[i + 1] && b[i + 1] == a[i]);
            reveal_with_fuel(blocks::arms_s, 3);
            if let Ok((t, p)) = blocks::arms_s(lw, a, i as nat, qual, goal, sc, base, s, pend) {
                lemma_two_arms(lw, a[i], a[i + 1], qual, goal, sc, base, t, p);
            }
        } else {
            lemma_arms_agree(lw, a, b, i, (n - 1) as nat, qual, goal, sc, base, s, pend);
            assert(a[n - 1] == b[n - 1]);
            match (
                blocks::arms_s(lw, a, (n - 1) as nat, qual, goal, sc, base, s, pend),
                blocks::arms_s(lw, b, (n - 1) as nat, qual, goal, sc, base, s, pend),
            ) {
                (Ok((t, p)), Ok((_, q))) => asking::lemma_arm(
                    lw,
                    a[n - 1],
                    qual,
                    goal,
                    sc,
                    base,
                    t,
                    p,
                    q,
                ),
                _ => {},
            }
        }
    }
}

/// The order in which the arms of a match are written does not matter: exchanging
/// two neighbours that cover different variants leaves the term and what is bound
/// before it as they are. Only the order in which generic instances are asked for
/// may change, and of two faults the one that is reported.
pub proof fn lemma_arm_order_does_not_matter(
    lw: LowererView,
    m: MatchExpr,
    n: MatchExpr,
    i: int,
    goal: GoalView,
    sc: ScopeView,
    st: St,
)
    requires
        m.scrutinee == n.scrutinee,
        exchanged(m.arms@, n.arms@, i),
        arms_differ(lw, m.arms@[i], m.arms@[i + 1]),
    ensures
        match (blocks::match_s(lw, m, goal, sc, st), blocks::match_s(lw, n, goal, sc, st)) {
            (Ok((c, s)), Ok((d, t))) => c == d && asking::same_st(s, t),
            (Err(_), Err(_)) => true,
            _ => false,
        },
{
    lemma_same_enum(lw, m.arms@, n.arms@, i, 0);
    match (emit::atom_s(lw, m.scrutinee, sc, st), blocks::arms_enum(lw, m.arms@, 0)) {
        (Ok((_, st1)), Ok(qual)) => lemma_arms_agree(
            lw,
            m.arms@,
            n.arms@,
            i,
            m.arms@.len(),
            qual,
            goal,
            sc,
            scope::depth_s(st1),
            blocks::no_slots(decls::variants_of(lw.ms, qual)),
            st1.pend,
        ),
        _ => {},
    }
}

/// A function that ends in a match keeps its definition, and so its hash, when two
/// neighbouring arms that cover different variants are exchanged.
pub proof fn lemma_arm_order_keeps_a_function(
    lw: LowererView,
    f: FnDecl,
    g: FnDecl,
    k: Block,
    l: Block,
    m: MatchExpr,
    n: MatchExpr,
    i: int,
    pend: PendView,
)
    requires
        f.body == Some(k),
        g == (FnDecl { body: Some(l), ..f }),
        k.tail == Some(Tail::Match(Box::new(m))),
        l == (Block { tail: Some(Tail::Match(Box::new(n))), ..k }),
        m.scrutinee == n.scrutinee,
        exchanged(m.arms@, n.arms@, i),
        arms_differ(lw, m.arms@[i], m.arms@[i + 1]),
    ensures
        same_code(lower::fn_s(lw, f, pend), lower::fn_s(lw, g, pend)),
        match (lower::fn_s(lw, f, pend), lower::fn_s(lw, g, pend)) {
            (Ok((d, _)), Ok((e, _))) => hash::content_id(d) == hash::content_id(e),
            _ => true,
        },
{
    let tys = lower::param_types(lw, f);
    assert(tys =~= lower::param_types(lw, g));
    let sc = lower::param_scope(lw, f, f.params@.len());
    lemma_same_param_scope(lw, f, g, f.params@.len());
    let st = scope::open_s((tys.len() as usize) as u32, pend);
    if let Ok((sc1, st1)) = blocks::stmts_s(lw, k.stmts@, k.stmts@.len(), sc, st) {
        lemma_arm_order_does_not_matter(lw, m, n, i, GoalView::Value, sc1, st1);
    }
}

proof fn lemma_same_param_scope(lw: LowererView, f: FnDecl, g: FnDecl, n: nat)
    requires
        f.params == g.params,
        f.is_unsafe == g.is_unsafe,
    ensures
        lower::param_scope(lw, f, n) == lower::param_scope(lw, g, n),
    decreases n,
{
    if n > 0 {
        lemma_same_param_scope(lw, f, g, (n - 1) as nat);
    }
}

proof fn lemma_decimal_injective(m: nat, n: nat)
    requires
        text::decimal(m) == text::decimal(n),
    ensures
        m == n,
    decreases m,
{
    lemma_decimal_len(m);
    lemma_decimal_len(n);
    assert(text::decimal(m).last() == text::digit_char((m % 10) as int));
    assert(text::decimal(n).last() == text::digit_char((n % 10) as int));
    if m >= 10 {
        assert(text::decimal(m).drop_last() =~= text::decimal(m / 10));
        assert(text::decimal(n).drop_last() =~= text::decimal(n / 10));
        lemma_decimal_injective(m / 10, n / 10);
    }
}

proof fn lemma_decimal_len(n: nat)
    ensures
        text::decimal(n).len() >= 1,
        text::decimal(n).len() == 1 <==> n < 10,
    decreases n,
{
    if n >= 10 {
        lemma_decimal_len(n / 10);
    }
}

/// The positions that `for` loops count with have names of their own: another one at
/// each depth, and none that a source identifier can be.
pub proof fn lemma_loop_positions_have_names_of_their_own(m: u32, n: u32, name: Seq<char>)
    requires
        name.len() == 0 || name[0] != '#',
    ensures
        blocks::index_name(m) == blocks::index_name(n) ==> m == n,
        blocks::index_name(m) != name,
{
    reveal_strlit("#for");
    if blocks::index_name(m) == blocks::index_name(n) {
        assert(blocks::index_name(m).skip(4) =~= text::decimal(m as nat));
        assert(blocks::index_name(n).skip(4) =~= text::decimal(n as nat));
        lemma_decimal_injective(m as nat, n as nat);
    }
    assert(blocks::index_name(m)[0] == '#');
}

proof fn lemma_utf8_len(t: Seq<char>)
    ensures
        encode_utf8(t).len() <= 4 * t.len(),
    decreases t.len(),
{
    if t.len() > 0 {
        lemma_utf8_len(t.drop_first());
    }
}

/// The type of the state that a loop carries is encoded unlike any name that a source
/// can declare.
pub proof fn lemma_the_state_of_a_loop_has_a_type_of_its_own(name: Seq<char>)
    requires
        name.len() == 0 || name[0] != '@',
        hash_laws::fits_len(encode_utf8(name).len()),
    ensures
        hash::symbol_stream(name) != hash::symbol_stream("@loop-state"@),
{
    reveal_strlit("@loop-state");
    if hash::symbol_stream(name) == hash::symbol_stream("@loop-state"@) {
        lemma_utf8_len("@loop-state"@);
        hash_laws::lemma_symbol_bytes_injective(name, "@loop-state"@);
    }
}

} // verus!
