//! Blocks, branches and loops.
//!
//! A loop has explicit state: the variables that its body assigns. Inside, they
//! are bound afresh; the body yields their next values, through every branch of
//! its tail; after the loop they are bound to its final values.
use vstd::prelude::*;

use crate::assign;
use crate::assign::assigned_in;
use crate::contract;
use crate::contract::lower_invariants;
use crate::decls;
use crate::decls::{CtorRef, ctor_enum_name, variant_count};
use crate::emit;
use crate::emit::{prim1, prim2};
use crate::hash;
use crate::hash::symbol_hash;
use crate::indices;
use crate::indices::deeper;
use crate::ir;
use crate::ir::{Atom, AtomView, Branch, BranchView, Core, CoreView, Literal, LiteralView, PredView, PrimOp};
use crate::lower_error::{LowerError, LowerErrorView};
use crate::resolve;
use crate::resolve::type_of_element;
use crate::scope;
use crate::scope::{BindView, Binding, Builder, Lowerer, LowererView, PendView, Pending, Scope, ScopeView, St, fold_lets};
use crate::surface;
use crate::surface::named;
use crate::syntax;
use crate::syntax::{Arm, ArmBody, Block, Else, Expr, FieldPat, IfExpr, MatchExpr, Pattern, SType, STypeView, Stmt, Tail, clone_opt_stype};
use crate::text;
use crate::text::{join, push_decimal, str_eq};

verus! {

// ---- what a block is for ------------------------------------------------------------------

/// A variable that a loop carries: its declaration, its type, and the atom that
/// it is inside the loop.
pub struct Carry {
    pub name: String,
    pub decl: usize,
    pub ty: Option<SType>,
    pub atom: Atom,
}

/// The mathematical counterpart of [`Carry`].
#[verifier::ext_equal]
pub struct CarryView {
    pub name: Seq<char>,
    pub decl: nat,
    pub ty: Option<STypeView>,
    pub atom: AtomView,
}

impl View for Carry {
    type V = CarryView;

    open spec fn view(&self) -> CarryView {
        CarryView {
            name: self.name@,
            decl: self.decl as nat,
            ty: syntax::opt_stype_view(self.ty),
            atom: self.atom@,
        }
    }
}

/// The counterpart of a list of carried variables, member by member.
pub open spec fn carries_view(v: Seq<Carry>) -> Seq<CarryView> {
    Seq::new(v.len(), |i: int| v[i]@)
}

/// What a block yields: its value, or as the body of a loop the next values of
/// the carried variables.
pub enum Goal {
    Value,
    Next(Vec<Carry>),
}

/// The mathematical counterpart of [`Goal`].
pub enum GoalView {
    Value,
    Next(Seq<CarryView>),
}

impl View for Goal {
    type V = GoalView;

    open spec fn view(&self) -> GoalView {
        match self {
            Goal::Value => GoalView::Value,
            Goal::Next(v) => GoalView::Next(carries_view(v@)),
        }
    }
}

/// The tuple of the current values of carried variables.
pub open spec fn next_view(v: Seq<CarryView>, sc: ScopeView) -> CoreView {
    CoreView::Ctor {
        ty: hash::symbol_id("@loop-state"@),
        tag: 0,
        fields: Seq::new(v.len(), |i: int| scope::latest(sc, v[i].decl, v[i].atom)),
    }
}

fn next_core(v: &Vec<Carry>, sc: &Scope) -> (r: Core)
    ensures
        r@ == next_view(carries_view(v@), sc@),
{
    let mut fields: Vec<Atom> = Vec::new();
    let mut i: usize = 0;
    while i < v.len()
        invariant
            i <= v@.len(),
            fields@.len() == i,
            forall|k: int|
                0 <= k < i ==> #[trigger] fields@[k]@ == scope::latest(sc@, v@[k]@.decl, v@[k]@.atom),
        decreases v@.len() - i,
    {
        let a = sc.latest_atom(v[i].decl, v[i].atom.clone());
        fields.push(a);
        i = i + 1;
    }
    assert(ir::atoms_view(fields@) =~= next_view(carries_view(v@), sc@)->Ctor_fields);
    Core::Ctor { ty: symbol_hash("@loop-state"), tag: 0, fields }
}

/// The unit value, as a term.
pub open spec fn unit_core() -> CoreView {
    CoreView::Atom(AtomView::Lit(LiteralView::Unit))
}

/// What a block without a tail yields.
pub open spec fn nothing_s(goal: GoalView, sc: ScopeView) -> CoreView {
    match goal {
        GoalView::Value => unit_core(),
        GoalView::Next(v) => next_view(v, sc),
    }
}

/// What a block with an expression as its tail yields.
pub open spec fn yield_s(lw: LowererView, e: Expr, goal: GoalView, sc: ScopeView, st: St) -> Result<
    (CoreView, St),
    LowerErrorView,
> {
    match goal {
        GoalView::Value => emit::tail_s(lw, e, sc, st),
        GoalView::Next(v) => match emit::atom_s(lw, e, sc, st) {
            Ok((_, st1)) => Ok((next_view(v, sc), st1)),
            Err(x) => Err(x),
        },
    }
}

/// What a block with a `return` as its tail yields: inside a loop that is an
/// early exit.
pub open spec fn return_s(
    lw: LowererView,
    o: Option<Expr>,
    goal: GoalView,
    sc: ScopeView,
    st: St,
) -> Result<(CoreView, St), LowerErrorView> {
    match o {
        None => match goal {
            GoalView::Value => Ok((unit_core(), st)),
            GoalView::Next(_) => Ok(
                (CoreView::Return { value: AtomView::Lit(LiteralView::Unit) }, st),
            ),
        },
        Some(e) => match goal {
            GoalView::Value => emit::tail_s(lw, e, sc, st),
            GoalView::Next(_) => match emit::atom_s(lw, e, sc, st) {
                Ok((value, st1)) => Ok((CoreView::Return { value }, st1)),
                Err(x) => Err(x),
            },
        },
    }
}

impl<'a> Lowerer<'a> {
    fn lower_nothing(&self, goal: &Goal, sc: &Scope) -> (r: Core)
        ensures
            r@ == nothing_s(goal@, sc@),
    {
        match goal {
            Goal::Value => Core::Atom(Atom::Lit(Literal::Unit)),
            Goal::Next(v) => next_core(v, sc),
        }
    }

    fn lower_yield(
        &self,
        e: &Expr,
        goal: &Goal,
        sc: &Scope,
        b: &mut Builder,
        p: &mut Pending,
    ) -> (r: Result<Core, LowerError>)
        ensures
            emit::did_core(
                r,
                *final(b),
                *final(p),
                yield_s(self@, *e, goal@, sc@, scope::st_of(*old(b), *old(p))),
            ),
    {
        match goal {
            Goal::Value => self.emit_tail(e, sc, b, p),
            Goal::Next(v) => {
                let _value = match self.emit_atom(e, sc, b, p) {
                    Ok(v) => v,
                    Err(e) => {
                        return Err(e);
                    },
                };
                Ok(next_core(v, sc))
            },
        }
    }

    fn lower_return(
        &self,
        o: &Option<Expr>,
        goal: &Goal,
        sc: &Scope,
        b: &mut Builder,
        p: &mut Pending,
    ) -> (r: Result<Core, LowerError>)
        ensures
            emit::did_core(
                r,
                *final(b),
                *final(p),
                return_s(self@, *o, goal@, sc@, scope::st_of(*old(b), *old(p))),
            ),
    {
        match o {
            None => match goal {
                Goal::Value => Ok(Core::Atom(Atom::Lit(Literal::Unit))),
                Goal::Next(_) => Ok(Core::Return { value: Atom::Lit(Literal::Unit) }),
            },
            Some(e) => match goal {
                Goal::Value => self.emit_tail(e, sc, b, p),
                Goal::Next(_) => {
                    let value = match self.emit_atom(e, sc, b, p) {
                        Ok(v) => v,
                        Err(e) => {
                            return Err(e);
                        },
                    };
                    Ok(Core::Return { value })
                },
            },
        }
    }
}

// ---- carried variables -----------------------------------------------------------------------

/// A predicate on names: those that a loop assigns.
pub open spec fn while_assigns(body: Block) -> spec_fn(Seq<char>) -> bool {
    |name: Seq<char>| assign::block_assigns(body, name)
}

/// Those that a `for` loop assigns: its index, and what its body assigns.
pub open spec fn for_assigns(binder: Seq<char>, index: Seq<char>, body: Block) -> spec_fn(
    Seq<char>,
) -> bool {
    |name: Seq<char>|
        name == index || (name != binder && assign::block_assigns(body, name))
}

/// The variable declared by binding `i`, if it is in scope, mutable and assigned.
pub open spec fn carried_at(sc: ScopeView, assigned: spec_fn(Seq<char>) -> bool, i: int) -> Option<
    BindView,
> {
    match scope::local(sc, sc.binds[i].name) {
        Some(b) => if b.decl == i && b.mutable && assigned(b.name) {
            Some(b)
        } else {
            None
        },
        None => None,
    }
}

/// The variables that a loop carries, in the order of their declarations: among
/// the first `n` bindings.
pub open spec fn carried(sc: ScopeView, assigned: spec_fn(Seq<char>) -> bool, n: nat) -> Seq<BindView>
    decreases n,
{
    if n == 0 {
        Seq::empty()
    } else {
        match carried_at(sc, assigned, n - 1) {
            Some(b) => carried(sc, assigned, (n - 1) as nat).push(b),
            None => carried(sc, assigned, (n - 1) as nat),
        }
    }
}

/// The carried variables as they are inside the loop, at the levels from `depth`.
pub open spec fn header(v: Seq<BindView>, depth: u32) -> Seq<CarryView> {
    Seq::new(
        v.len(),
        |i: int|
            CarryView {
                name: v[i].name,
                decl: v[i].decl,
                ty: v[i].ty,
                atom: AtomView::Var(indices::add32(depth, (i as usize) as u32)),
            },
    )
}

/// A carried variable as a binding.
pub open spec fn rebind(c: CarryView, atom: AtomView) -> BindView {
    BindView { name: c.name, atom, ty: c.ty, mutable: true, decl: c.decl }
}

/// The scope inside a loop: the first `n` carried variables bound afresh.
pub open spec fn inside(sc: ScopeView, v: Seq<CarryView>, n: nat) -> ScopeView
    decreases n,
{
    if n == 0 {
        sc
    } else {
        scope::bind(inside(sc, v, (n - 1) as nat), rebind(v[n - 1], v[n - 1].atom))
    }
}

/// The scope after a loop: the first `n` carried variables bound to their final
/// values.
pub open spec fn after_s(sc: ScopeView, v: Seq<CarryView>, n: nat, whole: AtomView, st: St) -> (
    ScopeView,
    St,
)
    decreases n,
{
    if n == 0 {
        (sc, st)
    } else {
        let (sc1, st1) = after_s(sc, v, (n - 1) as nat, whole, st);
        let (a, st2) = scope::push_s(
            st1,
            CoreView::Proj { base: whole, idx: ((n - 1) as usize) as u32 },
        );
        (scope::bind(sc1, rebind(v[n - 1], a)), st2)
    }
}

/// The atoms of bindings.
pub open spec fn atoms_of(v: Seq<BindView>) -> Seq<AtomView> {
    Seq::new(v.len(), |i: int| v[i].atom)
}

fn assigned_by(body: &Block, index: &Option<(String, String)>, name: &str) -> (r: bool)
    ensures
        r == assigned_pred(*body, *index)(name@),
{
    match index {
        None => assigned_in(body, name),
        Some((binder, index)) => str_eq(name, index.as_str()) || (!str_eq(name, binder.as_str())
            && assigned_in(body, name)),
    }
}

/// The names that a loop assigns; a `for` loop has a binder and an index.
pub open spec fn assigned_pred(body: Block, index: Option<(String, String)>) -> spec_fn(
    Seq<char>,
) -> bool {
    match index {
        None => while_assigns(body),
        Some((binder, index)) => for_assigns(binder@, index@, body),
    }
}

fn find_carried(sc: &Scope, body: &Block, index: &Option<(String, String)>) -> (r: Vec<Binding>)
    ensures
        scope::binds_view(r@) == carried(sc@, assigned_pred(*body, *index), sc@.binds.len()),
{
    let ghost pred = assigned_pred(*body, *index);
    let ghost n = sc@.binds.len();
    let mut out: Vec<Binding> = Vec::new();
    let mut i: usize = 0;
    assert(scope::binds_view(out@) =~= Seq::empty());
    while i < sc.binds.len()
        invariant
            i <= n,
            n == sc.binds@.len(),
            n == sc@.binds.len(),
            pred == assigned_pred(*body, *index),
            scope::binds_view(out@) == carried(sc@, pred, i as nat),
        decreases n - i,
    {
        assert(sc@.binds[i as int] == sc.binds@[i as int]@);
        match sc.find(sc.binds[i].name.as_str()) {
            Some(b) => {
                if b.decl == i && b.mutable && assigned_by(body, index, b.name.as_str()) {
                    let c = b.clone();
                    let ghost before = out@;
                    out.push(c);
                    assert(scope::binds_view(out@) =~= scope::binds_view(before).push(c@));
                }
            },
            None => {},
        }
        i = i + 1;
    }
    out
}

fn header_of(v: &Vec<Binding>, depth: u32) -> (r: Vec<Carry>)
    ensures
        carries_view(r@) == header(scope::binds_view(v@), depth),
{
    let mut out: Vec<Carry> = Vec::new();
    let mut i: usize = 0;
    while i < v.len()
        invariant
            i <= v@.len(),
            out@.len() == i,
            forall|k: int|
                0 <= k < i ==> #[trigger] out@[k]@ == header(scope::binds_view(v@), depth)[k],
        decreases v@.len() - i,
    {
        out.push(
            Carry {
                name: v[i].name.clone(),
                decl: v[i].decl,
                ty: clone_opt_stype(&v[i].ty),
                atom: Atom::Var(deeper(depth, i as u32)),
            },
        );
        i = i + 1;
    }
    assert(carries_view(out@) =~= header(scope::binds_view(v@), depth));
    out
}

fn rebound(c: &Carry, atom: Atom) -> (r: Binding)
    ensures
        r@ == rebind(c@, atom@),
{
    Binding {
        name: c.name.clone(),
        atom,
        ty: clone_opt_stype(&c.ty),
        mutable: true,
        decl: c.decl,
    }
}

fn enter(sc: &Scope, v: &Vec<Carry>) -> (r: Scope)
    ensures
        r@ == inside(sc@, carries_view(v@), v@.len()),
{
    let mut out = sc.clone();
    let mut i: usize = 0;
    while i < v.len()
        invariant
            i <= v@.len(),
            out@ == inside(sc@, carries_view(v@), i as nat),
        decreases v@.len() - i,
    {
        assert(carries_view(v@)[i as int] == v@[i as int]@);
        out.push(rebound(&v[i], v[i].atom.clone()));
        i = i + 1;
    }
    out
}

fn leave(sc: &mut Scope, v: &Vec<Carry>, whole: Atom, b: &mut Builder, p: &Pending)
    ensures
        (final(sc)@, scope::st_of(*final(b), *p)) == after_s(
            old(sc)@,
            carries_view(v@),
            v@.len(),
            whole@,
            scope::st_of(*old(b), *p),
        ),
{
    let ghost sc0 = sc@;
    let ghost st = scope::st_of(*b, *p);
    let mut i: usize = 0;
    while i < v.len()
        invariant
            i <= v@.len(),
            sc0 == old(sc)@,
            st == scope::st_of(*old(b), *p),
            (sc@, scope::st_of(*b, *p)) == after_s(sc0, carries_view(v@), i as nat, whole@, st),
        decreases v@.len() - i,
    {
        assert(carries_view(v@)[i as int] == v@[i as int]@);
        let a = b.push(Core::Proj { base: whole.clone(), idx: i as u32 });
        sc.push(rebound(&v[i], a));
        i = i + 1;
    }
}

fn atoms_of_binds(v: &Vec<Binding>) -> (r: Vec<Atom>)
    ensures
        ir::atoms_view(r@) == atoms_of(scope::binds_view(v@)),
{
    let mut out: Vec<Atom> = Vec::new();
    let mut i: usize = 0;
    while i < v.len()
        invariant
            i <= v@.len(),
            out@.len() == i,
            forall|k: int| 0 <= k < i ==> #[trigger] out@[k]@ == v@[k]@.atom,
        decreases v@.len() - i,
    {
        out.push(v[i].atom.clone());
        i = i + 1;
    }
    assert(ir::atoms_view(out@) =~= atoms_of(scope::binds_view(v@)));
    out
}

// ---- for loops ------------------------------------------------------------------------------------

/// The name of the index of a `for` loop at that depth. No source name starts
/// with `#`.
pub open spec fn index_name(depth: u32) -> Seq<char> {
    "#for"@ + text::decimal(depth as nat)
}

fn index_name_of(depth: u32) -> (r: String)
    ensures
        r@ == index_name(depth),
{
    let mut s = "#for".to_owned();
    push_decimal(&mut s, depth as u64);
    s
}

/// The binding of the index of a `for` loop.
pub open spec fn index_bind(sc: ScopeView, depth: u32) -> BindView {
    BindView {
        name: index_name(depth),
        atom: AtomView::Lit(LiteralView::Int(0)),
        ty: Some(surface::named_view("usize"@)),
        mutable: true,
        decl: sc.binds.len(),
    }
}

/// What a function of the iterator protocol is for what a `for` loop runs over, if
/// that is an iterator.
pub open spec fn protocol(
    lw: LowererView,
    name: Seq<char>,
    iter: Expr,
    sc: ScopeView,
    pend: PendView,
) -> Option<(AtomView, PendView)> {
    match resolve::expr_type(lw, iter, sc) {
        Some(t) => match resolve::iterated(lw, t) {
            Some(e) => resolve::iterator_call(lw, name, e, pend),
            None => None,
        },
        None => None,
    }
}

/// The length of what a `for` loop runs over; a local `len` is called instead.
pub open spec fn length_s(lw: LowererView, iter: Expr, sc: ScopeView, st: St) -> Result<
    (AtomView, St),
    LowerErrorView,
> {
    match protocol(lw, "iter_len"@, iter, sc, st.pend) {
        Some((func, pend)) => match emit::atom_s(lw, iter, sc, St { pend, ..st }) {
            Ok((a, st1)) => Ok(scope::push_s(st1, CoreView::App { func, arg: a })),
            Err(x) => Err(x),
        },
        None => match scope::local(sc, "len"@) {
            None => match emit::atom_s(lw, iter, sc, st) {
                Ok((a, st1)) => Ok(
                    scope::push_s(st1, CoreView::Prim { op: PrimOp::Len, args: seq![a] }),
                ),
                Err(x) => Err(x),
            },
            Some(f) => match emit::atom_s(lw, iter, sc, st) {
                Ok((a, st1)) => Ok(scope::push_s(st1, CoreView::App { func: f.atom, arg: a })),
                Err(x) => Err(x),
            },
        },
    }
}

/// The condition of a `for` loop: the index is below the length.
pub open spec fn below_s(lw: LowererView, iter: Expr, index: Seq<char>, sc: ScopeView, st: St) -> Result<
    (CoreView, St),
    LowerErrorView,
> {
    match emit::var_s(lw, index, sc, st) {
        Ok((i, st1)) => match length_s(lw, iter, sc, st1) {
            Ok((n, st2)) => Ok((CoreView::Prim { op: PrimOp::Lt, args: seq![i, n] }, st2)),
            Err(x) => Err(x),
        },
        Err(x) => Err(x),
    }
}

/// The element type of what a `for` loop runs over.
pub open spec fn item_type(lw: LowererView, iter: Expr, sc: ScopeView) -> Option<STypeView> {
    match resolve::expr_type(lw, iter, sc) {
        Some(t) => match resolve::iterated(lw, t) {
            Some(e) => Some(e),
            None => resolve::element_type(t),
        },
        None => None,
    }
}

/// The start of a `for` loop's body: the binder is the element at the index.
pub open spec fn item_s(
    lw: LowererView,
    binder: Seq<char>,
    iter: Expr,
    index: Seq<char>,
    sc: ScopeView,
    st: St,
) -> Result<(ScopeView, St), LowerErrorView> {
    match protocol(lw, "iter_get"@, iter, sc, st.pend) {
        Some((func, pend)) => match emit::atom_s(lw, iter, sc, St { pend, ..st }) {
            Ok((a, st1)) => {
                let (get, st2) = scope::push_s(st1, CoreView::App { func, arg: a });
                match emit::var_s(lw, index, sc, st2) {
                    Ok((i, st3)) => {
                        let (x, st4) = scope::push_s(st3, CoreView::App { func: get, arg: i });
                        Ok((declare(sc, binder, x, item_type(lw, iter, sc), false), st4))
                    },
                    Err(x) => Err(x),
                }
            },
            Err(x) => Err(x),
        },
        None => match emit::atom_s(lw, iter, sc, st) {
            Ok((a, st1)) => match emit::var_s(lw, index, sc, st1) {
                Ok((i, st2)) => {
                    let (x, st3) = scope::push_s(
                        st2,
                        CoreView::Prim { op: PrimOp::Index, args: seq![a, i] },
                    );
                    Ok((declare(sc, binder, x, item_type(lw, iter, sc), false), st3))
                },
                Err(x) => Err(x),
            },
            Err(x) => Err(x),
        },
    }
}

/// The scope with a new declaration.
pub open spec fn declare(
    sc: ScopeView,
    name: Seq<char>,
    atom: AtomView,
    ty: Option<STypeView>,
    mutable: bool,
) -> ScopeView {
    scope::bind(sc, BindView { name, atom, ty, mutable, decl: sc.binds.len() })
}

/// The end of a `for` loop's body: the index grows by one.
pub open spec fn advance_s(lw: LowererView, index: Seq<char>, sc: ScopeView, st: St) -> Result<
    (ScopeView, St),
    LowerErrorView,
> {
    match emit::var_s(lw, index, sc, st) {
        Ok((i, st1)) => {
            let (a, st2) = scope::push_s(
                st1,
                CoreView::Prim {
                    op: PrimOp::Add,
                    args: seq![i, AtomView::Lit(LiteralView::Int(1))],
                },
            );
            match scope::local(sc, index) {
                None => Err(LowerErrorView::AssignToUndeclared { name: index }),
                Some(b) => if b.mutable {
                    Ok((scope::bind(sc, BindView { atom: a, ..b }), st2))
                } else {
                    Err(LowerErrorView::AssignToImmutable { name: index })
                },
            }
        },
        Err(x) => Err(x),
    }
}

impl<'a> Lowerer<'a> {
    fn protocol_function(&self, name: &str, iter: &Expr, sc: &Scope, p: &mut Pending) -> (r: Option<
        Atom,
    >)
        ensures
            match protocol(self@, name@, *iter, sc@, old(p)@) {
                Some((a, q)) => r is Some && r->0@ == a && final(p)@ == q,
                None => r is None && final(p)@ == old(p)@,
            },
    {
        match self.type_of_expr(iter, sc) {
            Some(t) => match self.type_of_iterated(&t) {
                Some(e) => self.resolve_iterator_call(name, e, p),
                None => None,
            },
            None => None,
        }
    }

    fn type_of_item(&self, iter: &Expr, sc: &Scope) -> (r: Option<SType>)
        ensures
            syntax::opt_stype_view(r) == item_type(self@, *iter, sc@),
    {
        match self.type_of_expr(iter, sc) {
            Some(t) => match self.type_of_iterated(&t) {
                Some(e) => Some(e),
                None => type_of_element(&t),
            },
            None => None,
        }
    }

    fn emit_length(&self, iter: &Expr, sc: &Scope, b: &mut Builder, p: &mut Pending) -> (r: Result<
        Atom,
        LowerError,
    >)
        ensures
            emit::did_atom(r, *final(b), *final(p), length_s(self@, *iter, sc@, scope::st_of(*old(b), *old(p)))),
    {
        if let Some(func) = self.protocol_function("iter_len", iter, sc, p) {
            let a = match self.emit_atom(iter, sc, b, p) {
                Ok(v) => v,
                Err(e) => {
                    return Err(e);
                },
            };
            return Ok(b.push(Core::App { func, arg: a }));
        }
        let f = sc.resolve_local("len");
        let a = match self.emit_atom(iter, sc, b, p) {
            Ok(v) => v,
            Err(e) => {
                return Err(e);
            },
        };
        let r = match f {
            None => b.push(prim1(PrimOp::Len, a)),
            Some(func) => b.push(Core::App { func, arg: a }),
        };
        Ok(r)
    }

    fn emit_below(
        &self,
        iter: &Expr,
        index: &str,
        sc: &Scope,
        b: &mut Builder,
        p: &mut Pending,
    ) -> (r: Result<Core, LowerError>)
        ensures
            emit::did_core(
                r,
                *final(b),
                *final(p),
                below_s(self@, *iter, index@, sc@, scope::st_of(*old(b), *old(p))),
            ),
    {
        let i = match self.emit_var(index, sc, b, p) {
            Ok(v) => v,
            Err(e) => {
                return Err(e);
            },
        };
        let n = match self.emit_length(iter, sc, b, p) {
            Ok(v) => v,
            Err(e) => {
                return Err(e);
            },
        };
        Ok(prim2(PrimOp::Lt, i, n))
    }

    fn bind_item(
        &self,
        binder: &str,
        iter: &Expr,
        index: &str,
        sc: &mut Scope,
        b: &mut Builder,
        p: &mut Pending,
    ) -> (r: Result<(), LowerError>)
        ensures
            assign::did_step(
                r,
                *final(sc),
                *final(b),
                *final(p),
                item_s(self@, binder@, *iter, index@, old(sc)@, scope::st_of(*old(b), *old(p))),
            ),
    {
        if let Some(func) = self.protocol_function("iter_get", iter, sc, p) {
            let a = match self.emit_atom(iter, sc, b, p) {
                Ok(v) => v,
                Err(e) => {
                    return Err(e);
                },
            };
            let get = b.push(Core::App { func, arg: a });
            let i = match self.emit_var(index, sc, b, p) {
                Ok(v) => v,
                Err(e) => {
                    return Err(e);
                },
            };
            let x = b.push(Core::App { func: get, arg: i });
            let ty = self.type_of_item(iter, sc);
            declare_in(sc, binder.to_owned(), x, ty, false);
            return Ok(());
        }
        let a = match self.emit_atom(iter, sc, b, p) {
            Ok(v) => v,
            Err(e) => {
                return Err(e);
            },
        };
        let i = match self.emit_var(index, sc, b, p) {
            Ok(v) => v,
            Err(e) => {
                return Err(e);
            },
        };
        let x = b.push(prim2(PrimOp::Index, a, i));
        let ty = self.type_of_item(iter, sc);
        declare_in(sc, binder.to_owned(), x, ty, false);
        Ok(())
    }

    fn advance(&self, index: &str, sc: &mut Scope, b: &mut Builder, p: &mut Pending) -> (r: Result<
        (),
        LowerError,
    >)
        ensures
            assign::did_step(
                r,
                *final(sc),
                *final(b),
                *final(p),
                advance_s(self@, index@, old(sc)@, scope::st_of(*old(b), *old(p))),
            ),
    {
        let i = match self.emit_var(index, sc, b, p) {
            Ok(v) => v,
            Err(e) => {
                return Err(e);
            },
        };
        let a = b.push(prim2(PrimOp::Add, i, Atom::Lit(Literal::Int(1))));
        let found = match sc.find(index) {
            Some(f) => f.clone(),
            None => {
                return Err(LowerError::AssignToUndeclared { name: index.to_owned() });
            },
        };
        if !found.mutable {
            return Err(LowerError::AssignToImmutable { name: index.to_owned() });
        }
        sc.push(Binding { atom: a, ..found });
        Ok(())
    }
}

pub fn declare_in(sc: &mut Scope, name: String, atom: Atom, ty: Option<SType>, mutable: bool)
    ensures
        final(sc)@ == declare(old(sc)@, name@, atom@, syntax::opt_stype_view(ty), mutable),
{
    let decl = sc.binds.len();
    assert(sc@.binds.len() == decl);
    sc.push(Binding { name, atom, ty, mutable, decl });
}

// ---- blocks -----------------------------------------------------------------------------------------

/// The term of a block at depth `base`.
pub open spec fn block_s(
    lw: LowererView,
    b: Block,
    goal: GoalView,
    sc: ScopeView,
    base: u32,
    pend: PendView,
) -> Result<(CoreView, PendView), LowerErrorView>
    decreases b, 1nat, 0nat,
{
    match stmts_s(lw, b.stmts@, b.stmts@.len(), sc, scope::open_s(base, pend)) {
        Ok((sc1, st1)) => closed_s(end_s(lw, b, goal, sc1, st1)),
        Err(x) => Err(x),
    }
}

/// A term with the bindings before it.
pub open spec fn closed_s(r: Result<(CoreView, St), LowerErrorView>) -> Result<
    (CoreView, PendView),
    LowerErrorView,
> {
    match r {
        Ok((c, st)) => Ok((scope::fold_view(st.lets, c), st.pend)),
        Err(x) => Err(x),
    }
}

/// The first `n` statements.
pub open spec fn stmts_s(lw: LowererView, v: Seq<Stmt>, n: nat, sc: ScopeView, st: St) -> Result<
    (ScopeView, St),
    LowerErrorView,
>
    decreases v, 0nat, n,
{
    if n == 0 || n > v.len() {
        Ok((sc, st))
    } else {
        match stmts_s(lw, v, (n - 1) as nat, sc, st) {
            Ok((sc1, st1)) => stmt_s(lw, v[n - 1], sc1, st1),
            Err(x) => Err(x),
        }
    }
}

/// A declaration: the type that is written, else what is known of the value's.
pub open spec fn let_s(
    lw: LowererView,
    name: Seq<char>,
    ty: Option<STypeView>,
    value: Expr,
    mutable: bool,
    sc: ScopeView,
    st: St,
) -> Result<(ScopeView, St), LowerErrorView> {
    match emit::atom_s(lw, value, sc, st) {
        Ok((a, st1)) => Ok(
            (
                declare(
                    sc,
                    name,
                    a,
                    match ty {
                        Some(t) => Some(t),
                        None => resolve::expr_type(lw, value, sc),
                    },
                    mutable,
                ),
                st1,
            ),
        ),
        Err(x) => Err(x),
    }
}

/// One statement.
pub open spec fn stmt_s(lw: LowererView, s: Stmt, sc: ScopeView, st: St) -> Result<
    (ScopeView, St),
    LowerErrorView,
>
    decreases s, 1nat, 0nat,
{
    match s {
        Stmt::Let { name, ty, value } => let_s(
            lw,
            name@,
            syntax::opt_stype_view(ty),
            value,
            false,
            sc,
            st,
        ),
        Stmt::Var { name, ty, value } => let_s(lw, name@, syntax::opt_stype_view(ty), value, true, sc, st),
        Stmt::Assign { target, value } => match emit::atom_s(lw, value, sc, st) {
            Ok((a, st1)) => assign::assign_s(lw, target, a, sc, st1),
            Err(x) => Err(x),
        },
        Stmt::While { cond, invariants, body } => while_s(lw, s, sc, st),
        Stmt::For { binder, iter, body } => for_s(lw, s, sc, st),
    }
}

/// The term of a loop whose parts are given, and the scope after it.
pub open spec fn loop_s(
    vars: Seq<BindView>,
    head: Seq<CarryView>,
    inv: Option<PredView>,
    cond: CoreView,
    body: CoreView,
    sc: ScopeView,
    st: St,
) -> (ScopeView, St) {
    let (whole, st1) = scope::push_s(
        st,
        CoreView::Loop {
            state: atoms_of(vars),
            inv,
            cond: Box::new(cond),
            body: Box::new(body),
        },
    );
    after_s(sc, head, head.len(), whole, st1)
}

/// A `while` loop.
pub open spec fn while_s(lw: LowererView, s: Stmt, sc: ScopeView, st: St) -> Result<
    (ScopeView, St),
    LowerErrorView,
>
    decreases s, 0nat, 0nat,
{
    match s {
        Stmt::While { cond, invariants, body } => {
            let vars = carried(sc, while_assigns(body), sc.binds.len());
            let head = header(vars, scope::depth_s(st));
            let inner = inside(sc, head, head.len());
            let base = indices::add32(scope::depth_s(st), (vars.len() as usize) as u32);
            match closed_s(emit::tail_s(lw, cond, inner, scope::open_s(base, st.pend))) {
                Ok((c, pend1)) => match contract::invariant_s(invariants@, invariants@.len(), inner) {
                    Ok(inv) => match block_s(
                        lw,
                        body,
                        GoalView::Next(head),
                        inner,
                        base,
                        pend1,
                    ) {
                        Ok((k, pend2)) => Ok(
                            loop_s(vars, head, inv, c, k, sc, St { pend: pend2, ..st }),
                        ),
                        Err(x) => Err(x),
                    },
                    Err(x) => Err(x),
                },
                Err(x) => Err(x),
            }
        },
        _ => Ok((sc, st)),
    }
}

/// The body of a `for` loop.
pub open spec fn for_body_s(
    lw: LowererView,
    binder: Seq<char>,
    iter: Expr,
    body: Block,
    index: Seq<char>,
    goal: GoalView,
    sc: ScopeView,
    base: u32,
    pend: PendView,
) -> Result<(CoreView, PendView), LowerErrorView>
    decreases body, 1nat, 0nat,
{
    match item_s(lw, binder, iter, index, sc, scope::open_s(base, pend)) {
        Ok((sc1, st1)) => match stmts_s(lw, body.stmts@, body.stmts@.len(), sc1, st1) {
            Ok((sc2, st2)) => match advance_s(lw, index, sc2, st2) {
                Ok((sc3, st3)) => closed_s(end_s(lw, body, goal, sc3, st3)),
                Err(x) => Err(x),
            },
            Err(x) => Err(x),
        },
        Err(x) => Err(x),
    }
}

/// A `for` loop: the elements of `iter` by index.
pub open spec fn for_s(lw: LowererView, s: Stmt, sc0: ScopeView, st: St) -> Result<
    (ScopeView, St),
    LowerErrorView,
>
    decreases s, 0nat, 0nat,
{
    match s {
        Stmt::For { binder, iter, body } => {
            let index = index_name(scope::depth_s(st));
            let sc = scope::bind(sc0, index_bind(sc0, scope::depth_s(st)));
            let vars = carried(sc, for_assigns(binder@, index, body), sc.binds.len());
            let head = header(vars, scope::depth_s(st));
            let inner = inside(sc, head, head.len());
            let base = indices::add32(scope::depth_s(st), (vars.len() as usize) as u32);
            match closed_s(below_s(lw, iter, index, inner, scope::open_s(base, st.pend))) {
                Ok((c, pend1)) => match for_body_s(
                    lw,
                    binder@,
                    iter,
                    body,
                    index,
                    GoalView::Next(head),
                    inner,
                    base,
                    pend1,
                ) {
                    Ok((k, pend2)) => Ok(
                        loop_s(vars, head, None, c, k, sc, St { pend: pend2, ..st }),
                    ),
                    Err(x) => Err(x),
                },
                Err(x) => Err(x),
            }
        },
        _ => Ok((sc0, st)),
    }
}

/// What the tail of a block yields.
pub open spec fn end_s(lw: LowererView, b: Block, goal: GoalView, sc: ScopeView, st: St) -> Result<
    (CoreView, St),
    LowerErrorView,
>
    decreases b, 0nat, 0nat,
{
    match b.tail {
        None => Ok((nothing_s(goal, sc), st)),
        Some(Tail::Expr(e)) => yield_s(lw, e, goal, sc, st),
        Some(Tail::Return(o)) => return_s(lw, o, goal, sc, st),
        Some(Tail::If(i)) => if_s(lw, *i, goal, sc, st),
        Some(Tail::Match(m)) => match_s(lw, *m, goal, sc, st),
    }
}

/// A two-way branch, the negative one first.
pub open spec fn two_way(cond: AtomView, no: CoreView, yes: CoreView) -> CoreView {
    CoreView::Match {
        scrutinee: cond,
        branches: seq![BranchView { binds: 0, body: no }, BranchView { binds: 0, body: yes }],
    }
}

/// `if`: a match on a boolean.
pub open spec fn if_s(lw: LowererView, i: IfExpr, goal: GoalView, sc: ScopeView, st: St) -> Result<
    (CoreView, St),
    LowerErrorView,
>
    decreases i, 1nat, 0nat,
{
    match emit::atom_s(lw, i.cond, sc, st) {
        Ok((cond, st1)) => match block_s(lw, i.yes, goal, sc, scope::depth_s(st1), st1.pend) {
            Ok((yes, pend2)) => match else_s(lw, i, goal, sc, scope::depth_s(st1), pend2) {
                Ok((no, pend3)) => Ok((two_way(cond, no, yes), St { pend: pend3, ..st1 })),
                Err(x) => Err(x),
            },
            Err(x) => Err(x),
        },
        Err(x) => Err(x),
    }
}

/// The negative branch of an `if`.
pub open spec fn else_s(
    lw: LowererView,
    i: IfExpr,
    goal: GoalView,
    sc: ScopeView,
    base: u32,
    pend: PendView,
) -> Result<(CoreView, PendView), LowerErrorView>
    decreases i, 0nat, 0nat,
{
    match i.no {
        None => Ok((nothing_s(goal, sc), pend)),
        Some(Else::Block(b)) => block_s(lw, b, goal, sc, base, pend),
        Some(Else::If(inner)) => closed_s(if_s(lw, *inner, goal, sc, scope::open_s(base, pend))),
    }
}

// ---- match ----------------------------------------------------------------------------------------

/// The constructor that a pattern names.
pub open spec fn pattern_ctor(lw: LowererView, path: Seq<Seq<char>>) -> Result<
    CtorRef,
    LowerErrorView,
> {
    match decls::ctor_view(lw.reg, text::join_view(path, "."@)) {
        Some(c) => Ok(c),
        None => if path.len() >= 2 && resolve::missing_enum(lw, path[0]) is Some {
            Err(
                LowerErrorView::UnresolvedImportedEnum {
                    name: path[0],
                    module: resolve::missing_enum(lw, path[0])->0,
                },
            )
        } else {
            Err(LowerErrorView::UnknownConstructor { name: text::join_view(path, "."@) })
        },
    }
}

/// The enum that the arms range over: that of the first constructor pattern.
pub open spec fn arms_enum(lw: LowererView, v: Seq<Arm>, i: nat) -> Result<
    Seq<char>,
    LowerErrorView,
>
    decreases v.len() - i,
{
    if i >= v.len() {
        Err(LowerErrorView::MatchWithoutConstructor)
    } else {
        match v[i as int].pat {
            Pattern::Ctor { path, fields } => match pattern_ctor(lw, text::strings_view(path@)) {
                Ok(c) => Ok(decls::ctor_enum(lw.ms, c)),
                Err(x) => Err(x),
            },
            Pattern::Wildcard => arms_enum(lw, v, i + 1),
        }
    }
}

/// The branches found so far: one for each tag, and that of the first `_`.
#[verifier::ext_equal]
pub struct SlotsView {
    pub tags: Seq<Option<BranchView>>,
    pub wild: Option<CoreView>,
}

/// The scope of an arm: the first `n` fields bound at the levels from `base`.
pub open spec fn fields_s(v: Seq<FieldPat>, n: nat, sc: ScopeView, base: u32) -> ScopeView
    decreases n,
{
    if n == 0 {
        sc
    } else {
        let sc1 = fields_s(v, (n - 1) as nat, sc, base);
        match v[n - 1] {
            FieldPat::Bind(name) => declare(
                sc1,
                name@,
                AtomView::Var(indices::add32(base, ((n - 1) as usize) as u32)),
                None,
                false,
            ),
            FieldPat::Wildcard => sc1,
        }
    }
}

/// A branch for a tag, unless the tag has one.
pub open spec fn put(s: SlotsView, tag: int, b: BranchView) -> SlotsView {
    if 0 <= tag < s.tags.len() && s.tags[tag] is None {
        SlotsView { tags: s.tags.update(tag, Some(b)), ..s }
    } else {
        s
    }
}

/// The body of an arm at depth `base`.
pub open spec fn arm_body_s(
    lw: LowererView,
    a: Arm,
    goal: GoalView,
    sc: ScopeView,
    base: u32,
    pend: PendView,
) -> Result<(CoreView, PendView), LowerErrorView>
    decreases a, 0nat, 0nat,
{
    match a.body {
        ArmBody::Expr(e) => closed_s(yield_s(lw, e, goal, sc, scope::open_s(base, pend))),
        ArmBody::Block(b) => block_s(lw, b, goal, sc, base, pend),
    }
}

/// One arm.
pub open spec fn arm_s(
    lw: LowererView,
    a: Arm,
    qual: Seq<char>,
    goal: GoalView,
    sc: ScopeView,
    base: u32,
    s: SlotsView,
    pend: PendView,
) -> Result<(SlotsView, PendView), LowerErrorView>
    decreases a, 1nat, 0nat,
{
    match a.pat {
        Pattern::Wildcard => if s.wild is Some {
            Ok((s, pend))
        } else {
            match arm_body_s(lw, a, goal, sc, base, pend) {
                Ok((c, pend1)) => Ok((SlotsView { wild: Some(c), ..s }, pend1)),
                Err(x) => Err(x),
            }
        },
        Pattern::Ctor { path, fields } => match pattern_ctor(lw, text::strings_view(path@)) {
            Ok(c) => if decls::ctor_enum(lw.ms, c) != qual {
                Err(
                    LowerErrorView::MixedEnumPatterns {
                        expected: qual,
                        found: decls::ctor_enum(lw.ms, c),
                    },
                )
            } else {
                let binds = (fields@.len() as usize) as u32;
                match arm_body_s(
                    lw,
                    a,
                    goal,
                    fields_s(fields@, fields@.len(), sc, base),
                    indices::add32(base, binds),
                    pend,
                ) {
                    Ok((body, pend1)) => Ok(
                        (put(s, c.tag as int, BranchView { binds, body }), pend1),
                    ),
                    Err(x) => Err(x),
                }
            },
            Err(x) => Err(x),
        },
    }
}

/// The first `n` arms.
pub open spec fn arms_s(
    lw: LowererView,
    v: Seq<Arm>,
    n: nat,
    qual: Seq<char>,
    goal: GoalView,
    sc: ScopeView,
    base: u32,
    s: SlotsView,
    pend: PendView,
) -> Result<(SlotsView, PendView), LowerErrorView>
    decreases v, 0nat, n,
{
    if n == 0 || n > v.len() {
        Ok((s, pend))
    } else {
        match arms_s(lw, v, (n - 1) as nat, qual, goal, sc, base, s, pend) {
            Ok((s1, pend1)) => arm_s(lw, v[n - 1], qual, goal, sc, base, s1, pend1),
            Err(x) => Err(x),
        }
    }
}

/// The branch of a tag: its own, else that of `_`.
pub open spec fn covering(s: SlotsView, tag: int) -> Option<BranchView> {
    match s.tags[tag] {
        Some(b) => Some(b),
        None => match s.wild {
            Some(c) => Some(BranchView { binds: 0, body: c }),
            None => None,
        },
    }
}

/// The branches of a match: those of the tags from `tag` on, up to the first
/// one that is not covered.
pub open spec fn covered(s: SlotsView, tag: nat) -> Seq<BranchView>
    decreases s.tags.len() - tag,
{
    if tag >= s.tags.len() {
        Seq::empty()
    } else {
        match covering(s, tag as int) {
            Some(b) => seq![b] + covered(s, tag + 1),
            None => Seq::empty(),
        }
    }
}

/// No branches for `n` tags.
pub open spec fn no_slots(n: nat) -> SlotsView {
    SlotsView { tags: Seq::new(n, |i: int| None), wild: None }
}

/// `match`: branch `i` covers tag `i`, in whatever order the arms are written.
pub open spec fn match_s(lw: LowererView, m: MatchExpr, goal: GoalView, sc: ScopeView, st: St) -> Result<
    (CoreView, St),
    LowerErrorView,
>
    decreases m, 0nat, 0nat,
{
    match emit::atom_s(lw, m.scrutinee, sc, st) {
        Ok((scrutinee, st1)) => match arms_enum(lw, m.arms@, 0) {
            Ok(qual) => match arms_s(
                lw,
                m.arms@,
                m.arms@.len(),
                qual,
                goal,
                sc,
                scope::depth_s(st1),
                no_slots(decls::variants_of(lw.ms, qual)),
                st1.pend,
            ) {
                Ok((s, pend)) => Ok(
                    (CoreView::Match { scrutinee, branches: covered(s, 0) }, St { pend, ..st1 }),
                ),
                Err(x) => Err(x),
            },
            Err(x) => Err(x),
        },
        Err(x) => Err(x),
    }
}

// ---- lowering -------------------------------------------------------------------------------------

/// What lowering a block did: `want`.
pub open spec fn did_block(
    r: Result<Core, LowerError>,
    p: Pending,
    want: Result<(CoreView, PendView), LowerErrorView>,
) -> bool {
    match want {
        Ok((c, pend)) => r is Ok && r->Ok_0@ == c && p@ == pend,
        Err(e) => r is Err && r->Err_0@ == e,
    }
}

/// The branches found so far.
pub struct Slots {
    pub tags: Vec<Option<Branch>>,
    pub wild: Option<Core>,
}

pub open spec fn opt_branch_view(b: Option<Branch>) -> Option<BranchView> {
    match b {
        Some(b) => Some(b@),
        None => None,
    }
}

impl View for Slots {
    type V = SlotsView;

    open spec fn view(&self) -> SlotsView {
        SlotsView {
            tags: Seq::new(self.tags@.len(), |i: int| opt_branch_view(self.tags@[i])),
            wild: ir::body_view(self.wild),
        }
    }
}

/// What lowering an arm did: `want`.
pub open spec fn did_arm(
    r: Result<(), LowerError>,
    s: Slots,
    p: Pending,
    want: Result<(SlotsView, PendView), LowerErrorView>,
) -> bool {
    match want {
        Ok((s1, pend)) => r is Ok && s@ == s1 && p@ == pend,
        Err(e) => r is Err && r->Err_0@ == e,
    }
}

proof fn lemma_stmts_fail(lw: LowererView, v: Seq<Stmt>, i: nat, n: nat, sc: ScopeView, st: St)
    requires
        i <= n <= v.len(),
        stmts_s(lw, v, i, sc, st) is Err,
    ensures
        stmts_s(lw, v, n, sc, st) == stmts_s(lw, v, i, sc, st),
    decreases n - i,
{
    if i < n {
        assert(stmts_s(lw, v, i + 1, sc, st) == stmts_s(lw, v, i, sc, st));
        lemma_stmts_fail(lw, v, i + 1, n, sc, st);
    }
}

proof fn lemma_arms_fail(
    lw: LowererView,
    v: Seq<Arm>,
    i: nat,
    n: nat,
    qual: Seq<char>,
    goal: GoalView,
    sc: ScopeView,
    base: u32,
    s: SlotsView,
    pend: PendView,
)
    requires
        i <= n <= v.len(),
        arms_s(lw, v, i, qual, goal, sc, base, s, pend) is Err,
    ensures
        arms_s(lw, v, n, qual, goal, sc, base, s, pend) == arms_s(
            lw,
            v,
            i,
            qual,
            goal,
            sc,
            base,
            s,
            pend,
        ),
    decreases n - i,
{
    if i < n {
        assert(arms_s(lw, v, i + 1, qual, goal, sc, base, s, pend) == arms_s(
            lw,
            v,
            i,
            qual,
            goal,
            sc,
            base,
            s,
            pend,
        ));
        lemma_arms_fail(lw, v, i + 1, n, qual, goal, sc, base, s, pend);
    }
}

fn two_way_core(cond: Atom, no: Core, yes: Core) -> (r: Core)
    ensures
        r@ == two_way(cond@, no@, yes@),
{
    broadcast use ir::lemma_branches_view;

    let mut branches: Vec<Branch> = Vec::new();
    branches.push(Branch { binds: 0, body: no });
    branches.push(Branch { binds: 0, body: yes });
    assert(ir::branches_view(branches@) =~= two_way(cond@, no@, yes@)->branches);
    Core::Match { scrutinee: cond, branches }
}

impl<'a> Lowerer<'a> {
    /// Lower a block at depth `base`.
    pub fn lower_block(
        &self,
        blk: &Block,
        goal: &Goal,
        sc: &Scope,
        base: u32,
        p: &mut Pending,
    ) -> (r: Result<Core, LowerError>)
        ensures
            did_block(r, *final(p), block_s(self@, *blk, goal@, sc@, base, old(p)@)),
        decreases blk, 1nat, 0nat,
    {
        let mut inner = sc.clone();
        let mut b = Builder::new(base);
        if let Err(e) = self.lower_stmts(&blk.stmts, &mut inner, &mut b, p) {
            return Err(e);
        }
        let tail = match self.lower_end(blk, goal, &inner, &mut b, p) {
            Ok(v) => v,
            Err(e) => {
                return Err(e);
            },
        };
        Ok(fold_lets(b.lets, tail))
    }

    fn lower_stmts(&self, v: &Vec<Stmt>, sc: &mut Scope, b: &mut Builder, p: &mut Pending) -> (r: Result<
        (),
        LowerError,
    >)
        ensures
            assign::did_step(
                r,
                *final(sc),
                *final(b),
                *final(p),
                stmts_s(self@, v@, v@.len(), old(sc)@, scope::st_of(*old(b), *old(p))),
            ),
        decreases v@, 0nat, 0nat,
    {
        let ghost lw = self@;
        let ghost sc0 = sc@;
        let ghost st = scope::st_of(*b, *p);
        let mut i: usize = 0;
        while i < v.len()
            invariant
                i <= v@.len(),
                lw == self@,
                sc0 == old(sc)@,
                st == scope::st_of(*old(b), *old(p)),
                stmts_s(lw, v@, i as nat, sc0, st) == Ok::<(ScopeView, St), LowerErrorView>(
                    (sc@, scope::st_of(*b, *p)),
                ),
            decreases v@.len() - i,
        {
            if let Err(e) = self.lower_stmt(&v[i], sc, b, p) {
                proof {
                    lemma_stmts_fail(lw, v@, (i + 1) as nat, v@.len(), sc0, st);
                }
                return Err(e);
            }
            i = i + 1;
        }
        Ok(())
    }

    fn lower_let(
        &self,
        name: &String,
        ty: &Option<SType>,
        value: &Expr,
        mutable: bool,
        sc: &mut Scope,
        b: &mut Builder,
        p: &mut Pending,
    ) -> (r: Result<(), LowerError>)
        ensures
            assign::did_step(
                r,
                *final(sc),
                *final(b),
                *final(p),
                let_s(
                    self@,
                    name@,
                    syntax::opt_stype_view(*ty),
                    *value,
                    mutable,
                    old(sc)@,
                    scope::st_of(*old(b), *old(p)),
                ),
            ),
    {
        let known = match ty {
            Some(t) => Some(t.clone()),
            None => self.type_of_expr(value, sc),
        };
        let a = match self.emit_atom(value, sc, b, p) {
            Ok(v) => v,
            Err(e) => {
                return Err(e);
            },
        };
        declare_in(sc, name.clone(), a, known, mutable);
        Ok(())
    }

    fn lower_stmt(&self, s: &Stmt, sc: &mut Scope, b: &mut Builder, p: &mut Pending) -> (r: Result<
        (),
        LowerError,
    >)
        ensures
            assign::did_step(
                r,
                *final(sc),
                *final(b),
                *final(p),
                stmt_s(self@, *s, old(sc)@, scope::st_of(*old(b), *old(p))),
            ),
        decreases s, 1nat, 0nat,
    {
        match s {
            Stmt::Let { name, ty, value } => self.lower_let(name, ty, value, false, sc, b, p),
            Stmt::Var { name, ty, value } => self.lower_let(name, ty, value, true, sc, b, p),
            Stmt::Assign { target, value } => {
                let a = match self.emit_atom(value, sc, b, p) {
                    Ok(v) => v,
                    Err(e) => {
                        return Err(e);
                    },
                };
                self.assign_to(target, a, sc, b, p)
            },
            Stmt::While { cond: _, invariants: _, body: _ } => self.lower_while(s, sc, b, p),
            Stmt::For { binder: _, iter: _, body: _ } => self.lower_for(s, sc, b, p),
        }
    }

    fn lower_while(&self, s: &Stmt, sc: &mut Scope, b: &mut Builder, p: &mut Pending) -> (r: Result<
        (),
        LowerError,
    >)
        ensures
            assign::did_step(
                r,
                *final(sc),
                *final(b),
                *final(p),
                while_s(self@, *s, old(sc)@, scope::st_of(*old(b), *old(p))),
            ),
        decreases s, 0nat, 0nat,
    {
        match s {
            Stmt::While { cond, invariants, body } => {
                let vars = find_carried(sc, body, &None);
                let depth = b.depth();
                let head = header_of(&vars, depth);
                let inner = enter(sc, &head);
                let base = deeper(depth, vars.len() as u32);
                let mut cb = Builder::new(base);
                let ct = match self.emit_tail(cond, &inner, &mut cb, p) {
                    Ok(v) => v,
                    Err(e) => {
                        return Err(e);
                    },
                };
                let c = fold_lets(cb.lets, ct);
                let inv = match lower_invariants(invariants, &inner) {
                    Ok(v) => v,
                    Err(e) => {
                        return Err(e);
                    },
                };
                let goal = Goal::Next(head);
                let k = match self.lower_block(body, &goal, &inner, base, p) {
                    Ok(v) => v,
                    Err(e) => {
                        return Err(e);
                    },
                };
                let state = atoms_of_binds(&vars);
                let whole = b.push(
                    Core::Loop { state, inv, cond: Box::new(c), body: Box::new(k) },
                );
                if let Goal::Next(head) = &goal {
                    leave(sc, head, whole, b, p);
                }
                Ok(())
            },
            _ => Ok(()),
        }
    }

    fn lower_for(&self, s: &Stmt, sc: &mut Scope, b: &mut Builder, p: &mut Pending) -> (r: Result<
        (),
        LowerError,
    >)
        ensures
            assign::did_step(
                r,
                *final(sc),
                *final(b),
                *final(p),
                for_s(self@, *s, old(sc)@, scope::st_of(*old(b), *old(p))),
            ),
        decreases s, 0nat, 0nat,
    {
        match s {
            Stmt::For { binder, iter, body } => {
                let depth = b.depth();
                let index = index_name_of(depth);
                let usize_ty = Some(named("usize"));
                declare_in(sc, index.clone(), Atom::Lit(Literal::Int(0)), usize_ty, true);
                let names = Some((binder.clone(), index.clone()));
                let vars = find_carried(sc, body, &names);
                let head = header_of(&vars, depth);
                let inner = enter(sc, &head);
                let base = deeper(depth, vars.len() as u32);
                let mut cb = Builder::new(base);
                let ct = match self.emit_below(iter, index.as_str(), &inner, &mut cb, p) {
                    Ok(v) => v,
                    Err(e) => {
                        return Err(e);
                    },
                };
                let c = fold_lets(cb.lets, ct);
                let goal = Goal::Next(head);
                let k = match self.lower_for_body(
                    binder,
                    iter,
                    body,
                    index.as_str(),
                    &goal,
                    inner,
                    base,
                    p,
                ) {
                    Ok(v) => v,
                    Err(e) => {
                        return Err(e);
                    },
                };
                let state = atoms_of_binds(&vars);
                let whole = b.push(
                    Core::Loop { state, inv: None, cond: Box::new(c), body: Box::new(k) },
                );
                if let Goal::Next(head) = &goal {
                    leave(sc, head, whole, b, p);
                }
                Ok(())
            },
            _ => Ok(()),
        }
    }

    fn lower_for_body(
        &self,
        binder: &String,
        iter: &Expr,
        body: &Block,
        index: &str,
        goal: &Goal,
        inner: Scope,
        base: u32,
        p: &mut Pending,
    ) -> (r: Result<Core, LowerError>)
        ensures
            did_block(
                r,
                *final(p),
                for_body_s(self@, binder@, *iter, *body, index@, goal@, inner@, base, old(p)@),
            ),
        decreases body, 1nat, 0nat,
    {
        let mut sc = inner;
        let mut b = Builder::new(base);
        if let Err(e) = self.bind_item(binder.as_str(), iter, index, &mut sc, &mut b, p) {
            return Err(e);
        }
        if let Err(e) = self.lower_stmts(&body.stmts, &mut sc, &mut b, p) {
            return Err(e);
        }
        if let Err(e) = self.advance(index, &mut sc, &mut b, p) {
            return Err(e);
        }
        let tail = match self.lower_end(body, goal, &sc, &mut b, p) {
            Ok(v) => v,
            Err(e) => {
                return Err(e);
            },
        };
        Ok(fold_lets(b.lets, tail))
    }

    fn lower_end(
        &self,
        blk: &Block,
        goal: &Goal,
        sc: &Scope,
        b: &mut Builder,
        p: &mut Pending,
    ) -> (r: Result<Core, LowerError>)
        ensures
            emit::did_core(
                r,
                *final(b),
                *final(p),
                end_s(self@, *blk, goal@, sc@, scope::st_of(*old(b), *old(p))),
            ),
        decreases blk, 0nat, 0nat,
    {
        match &blk.tail {
            None => Ok(self.lower_nothing(goal, sc)),
            Some(Tail::Expr(e)) => self.lower_yield(e, goal, sc, b, p),
            Some(Tail::Return(o)) => self.lower_return(o, goal, sc, b, p),
            Some(Tail::If(i)) => self.lower_if(i, goal, sc, b, p),
            Some(Tail::Match(m)) => self.lower_match(m, goal, sc, b, p),
        }
    }

    fn lower_if(
        &self,
        i: &IfExpr,
        goal: &Goal,
        sc: &Scope,
        b: &mut Builder,
        p: &mut Pending,
    ) -> (r: Result<Core, LowerError>)
        ensures
            emit::did_core(
                r,
                *final(b),
                *final(p),
                if_s(self@, *i, goal@, sc@, scope::st_of(*old(b), *old(p))),
            ),
        decreases i, 1nat, 0nat,
    {
        let cond = match self.emit_atom(&i.cond, sc, b, p) {
            Ok(v) => v,
            Err(e) => {
                return Err(e);
            },
        };
        let depth = b.depth();
        let yes = match self.lower_block(&i.yes, goal, sc, depth, p) {
            Ok(v) => v,
            Err(e) => {
                return Err(e);
            },
        };
        let no = match self.lower_else(i, goal, sc, depth, p) {
            Ok(v) => v,
            Err(e) => {
                return Err(e);
            },
        };
        Ok(two_way_core(cond, no, yes))
    }

    fn lower_else(&self, i: &IfExpr, goal: &Goal, sc: &Scope, base: u32, p: &mut Pending) -> (r: Result<
        Core,
        LowerError,
    >)
        ensures
            did_block(r, *final(p), else_s(self@, *i, goal@, sc@, base, old(p)@)),
        decreases i, 0nat, 0nat,
    {
        match &i.no {
            None => Ok(self.lower_nothing(goal, sc)),
            Some(Else::Block(blk)) => self.lower_block(blk, goal, sc, base, p),
            Some(Else::If(inner)) => {
                let mut b = Builder::new(base);
                let c = match self.lower_if(inner, goal, sc, &mut b, p) {
                    Ok(v) => v,
                    Err(e) => {
                        return Err(e);
                    },
                };
                Ok(fold_lets(b.lets, c))
            },
        }
    }

    fn resolve_pattern(&self, path: &Vec<String>) -> (r: Result<CtorRef, LowerError>)
        ensures
            match pattern_ctor(self@, text::strings_view(path@)) {
                Ok(c) => r is Ok && r->Ok_0 == c,
                Err(x) => r is Err && r->Err_0@ == x,
            },
    {
        let key = join(path, ".");
        if let Some(c) = self.reg.ctor(key.as_str()) {
            return Ok(c);
        }
        if path.len() >= 2 {
            assert(text::strings_view(path@)[0] == path@[0]@);
            if let Some(module) = self.find_missing_enum(path[0].as_str()) {
                return Err(LowerError::UnresolvedImportedEnum { name: path[0].clone(), module });
            }
        }
        Err(LowerError::UnknownConstructor { name: key })
    }

    fn match_enum(&self, v: &Vec<Arm>) -> (r: Result<String, LowerError>)
        ensures
            match arms_enum(self@, v@, 0) {
                Ok(q) => r is Ok && r->Ok_0@ == q,
                Err(x) => r is Err && r->Err_0@ == x,
            },
    {
        let mut i: usize = 0;
        while i < v.len()
            invariant
                i <= v@.len(),
                arms_enum(self@, v@, 0) == arms_enum(self@, v@, i as nat),
            decreases v@.len() - i,
        {
            match &v[i].pat {
                Pattern::Ctor { path, fields: _ } => {
                    let c = match self.resolve_pattern(path) {
                        Ok(v) => v,
                        Err(e) => {
                            return Err(e);
                        },
                    };
                    return Ok(ctor_enum_name(self.ms, c));
                },
                Pattern::Wildcard => {},
            }
            i = i + 1;
        }
        Err(LowerError::MatchWithoutConstructor)
    }

    fn lower_arm_body(
        &self,
        a: &Arm,
        goal: &Goal,
        sc: &Scope,
        base: u32,
        p: &mut Pending,
    ) -> (r: Result<Core, LowerError>)
        ensures
            did_block(r, *final(p), arm_body_s(self@, *a, goal@, sc@, base, old(p)@)),
        decreases a, 0nat, 0nat,
    {
        match &a.body {
            ArmBody::Expr(e) => {
                let mut b = Builder::new(base);
                let c = match self.lower_yield(e, goal, sc, &mut b, p) {
                    Ok(v) => v,
                    Err(e) => {
                        return Err(e);
                    },
                };
                Ok(fold_lets(b.lets, c))
            },
            ArmBody::Block(blk) => self.lower_block(blk, goal, sc, base, p),
        }
    }

    fn lower_arm(
        &self,
        a: &Arm,
        qual: &str,
        goal: &Goal,
        sc: &Scope,
        base: u32,
        s: &mut Slots,
        p: &mut Pending,
    ) -> (r: Result<(), LowerError>)
        ensures
            did_arm(
                r,
                *final(s),
                *final(p),
                arm_s(self@, *a, qual@, goal@, sc@, base, old(s)@, old(p)@),
            ),
        decreases a, 1nat, 0nat,
    {
        match &a.pat {
            Pattern::Wildcard => {
                if s.wild.is_none() {
                    let c = match self.lower_arm_body(a, goal, sc, base, p) {
                        Ok(v) => v,
                        Err(e) => {
                            return Err(e);
                        },
                    };
                    s.wild = Some(c);
                    assert(s@.tags =~= old(s)@.tags);
                }
                Ok(())
            },
            Pattern::Ctor { path, fields } => {
                let c = match self.resolve_pattern(path) {
                    Ok(v) => v,
                    Err(e) => {
                        return Err(e);
                    },
                };
                let found = ctor_enum_name(self.ms, c);
                if !str_eq(found.as_str(), qual) {
                    return Err(
                        LowerError::MixedEnumPatterns { expected: qual.to_owned(), found },
                    );
                }
                let binds = fields.len() as u32;
                let inner = bind_fields(fields, sc, base);
                let body = match self.lower_arm_body(a, goal, &inner, deeper(base, binds), p) {
                    Ok(v) => v,
                    Err(e) => {
                        return Err(e);
                    },
                };
                put_branch(s, c.tag as usize, Branch { binds, body });
                Ok(())
            },
        }
    }

    fn lower_match(
        &self,
        m: &MatchExpr,
        goal: &Goal,
        sc: &Scope,
        b: &mut Builder,
        p: &mut Pending,
    ) -> (r: Result<Core, LowerError>)
        ensures
            emit::did_core(
                r,
                *final(b),
                *final(p),
                match_s(self@, *m, goal@, sc@, scope::st_of(*old(b), *old(p))),
            ),
        decreases m, 0nat, 0nat,
    {
        let scrutinee = match self.emit_atom(&m.scrutinee, sc, b, p) {
            Ok(v) => v,
            Err(e) => {
                return Err(e);
            },
        };
        let base = b.depth();
        let qual = match self.match_enum(&m.arms) {
            Ok(v) => v,
            Err(e) => {
                return Err(e);
            },
        };
        let mut slots = empty_slots(variant_count(self.ms, qual.as_str()));
        if let Err(e) = self.lower_arms(&m.arms, qual.as_str(), goal, sc, base, &mut slots, p) {
            return Err(e);
        }
        Ok(Core::Match { scrutinee, branches: take_covered(slots) })
    }

    fn lower_arms(
        &self,
        v: &Vec<Arm>,
        qual: &str,
        goal: &Goal,
        sc: &Scope,
        base: u32,
        s: &mut Slots,
        p: &mut Pending,
    ) -> (r: Result<(), LowerError>)
        ensures
            did_arm(
                r,
                *final(s),
                *final(p),
                arms_s(self@, v@, v@.len(), qual@, goal@, sc@, base, old(s)@, old(p)@),
            ),
        decreases v@, 0nat, 0nat,
    {
        let ghost lw = self@;
        let ghost s0 = s@;
        let ghost p0 = p@;
        let mut i: usize = 0;
        while i < v.len()
            invariant
                i <= v@.len(),
                lw == self@,
                s0 == old(s)@,
                p0 == old(p)@,
                arms_s(lw, v@, i as nat, qual@, goal@, sc@, base, s0, p0) == Ok::<
                    (SlotsView, PendView),
                    LowerErrorView,
                >((s@, p@)),
            decreases v@.len() - i,
        {
            if let Err(e) = self.lower_arm(&v[i], qual, goal, sc, base, s, p) {
                proof {
                    lemma_arms_fail(
                        lw,
                        v@,
                        (i + 1) as nat,
                        v@.len(),
                        qual@,
                        goal@,
                        sc@,
                        base,
                        s0,
                        p0,
                    );
                }
                return Err(e);
            }
            i = i + 1;
        }
        Ok(())
    }
}

fn bind_fields(v: &Vec<FieldPat>, sc: &Scope, base: u32) -> (r: Scope)
    ensures
        r@ == fields_s(v@, v@.len(), sc@, base),
{
    let mut out = sc.clone();
    let mut i: usize = 0;
    while i < v.len()
        invariant
            i <= v@.len(),
            out@ == fields_s(v@, i as nat, sc@, base),
        decreases v@.len() - i,
    {
        if let FieldPat::Bind(name) = &v[i] {
            declare_in(
                &mut out,
                name.clone(),
                Atom::Var(deeper(base, i as u32)),
                None,
                false,
            );
        }
        i = i + 1;
    }
    out
}

fn empty_slots(n: usize) -> (r: Slots)
    ensures
        r@ == no_slots(n as nat),
{
    let mut tags: Vec<Option<Branch>> = Vec::new();
    let mut i: usize = 0;
    while i < n
        invariant
            i <= n,
            tags@.len() == i,
            forall|k: int| 0 <= k < i ==> #[trigger] tags@[k] is None,
        decreases n - i,
    {
        tags.push(None);
        i = i + 1;
    }
    let r = Slots { tags, wild: None };
    assert(r@.tags =~= no_slots(n as nat).tags);
    r
}

fn put_branch(s: &mut Slots, tag: usize, b: Branch)
    ensures
        final(s)@ == put(old(s)@, tag as int, b@),
{
    if tag < s.tags.len() && s.tags[tag].is_none() {
        s.tags.set(tag, Some(b));
        assert(s@.tags =~= old(s)@.tags.update(tag as int, Some(b@)));
    }
}

fn take_covered(s: Slots) -> (r: Vec<Branch>)
    ensures
        ir::branches_view(r@) == covered(s@, 0),
{
    broadcast use ir::lemma_branches_view;

    let ghost want = covered(s@, 0);
    let mut out: Vec<Branch> = Vec::new();
    let mut i: usize = 0;
    assert(ir::branches_view(out@) + covered(s@, 0) =~= want);
    while i < s.tags.len()
        invariant
            i <= s.tags@.len(),
            want == covered(s@, 0),
            ir::branches_view(out@) + covered(s@, i as nat) == want,
        decreases s.tags@.len() - i,
    {
        let ghost before = out@;
        assert(s@.tags[i as int] == opt_branch_view(s.tags@[i as int]));
        let b = match &s.tags[i] {
            Some(b) => b.clone(),
            None => match &s.wild {
                Some(c) => Branch { binds: 0, body: c.clone() },
                None => {
                    assert(ir::branches_view(out@) + covered(s@, i as nat) =~= ir::branches_view(out@));
                    return out;
                },
            },
        };
        out.push(b);
        proof {
            assert(ir::branches_view(out@) =~= ir::branches_view(before).push(b@));
            assert(ir::branches_view(before) + (seq![b@] + covered(s@, (i + 1) as nat))
                =~= ir::branches_view(out@) + covered(s@, (i + 1) as nat));
        }
        i = i + 1;
    }
    assert(ir::branches_view(out@) + covered(s@, i as nat) =~= ir::branches_view(out@));
    out
}

} // verus!
