//! The state of lowering: bindings in scope, bindings emitted, instances asked for.
use vstd::prelude::*;
use vstd::string::*;


use crate::decls;
use crate::decls::{EnumReg, ItemRef, RegView};
use crate::find;
use crate::indices;
use crate::indices::deeper;
use crate::ir::{Atom, AtomView, Core, CoreView};
use crate::surface;
use crate::syntax;
use crate::syntax::{Module, SType, STypeView, clone_opt_stype};
use crate::text;
use crate::text::{contains_string, str_eq};

verus! {

// ---- bindings in scope -------------------------------------------------------------------

/// A local binding: the atom it stands for (a variable is a level), its surface
/// type as far as it is known, and whether it may be assigned. An assignment
/// adds a binding with the `decl` of the binding it assigns.
pub struct Binding {
    pub name: String,
    pub atom: Atom,
    pub ty: Option<SType>,
    pub mutable: bool,
    pub decl: usize,
}

/// The mathematical counterpart of [`Binding`].
#[verifier::ext_equal]
pub struct BindView {
    pub name: Seq<char>,
    pub atom: AtomView,
    pub ty: Option<STypeView>,
    pub mutable: bool,
    pub decl: nat,
}

impl View for Binding {
    type V = BindView;

    open spec fn view(&self) -> BindView {
        BindView {
            name: self.name@,
            atom: self.atom@,
            ty: syntax::opt_stype_view(self.ty),
            mutable: self.mutable,
            decl: self.decl as nat,
        }
    }
}

impl Clone for Binding {
    fn clone(&self) -> (r: Self)
        ensures
            r@ == self@,
    {
        Binding {
            name: self.name.clone(),
            atom: self.atom.clone(),
            ty: clone_opt_stype(&self.ty),
            mutable: self.mutable,
            decl: self.decl,
        }
    }
}

/// The bindings in scope, the innermost last, and whether foreign functions may
/// be used.
pub struct Scope {
    pub binds: Vec<Binding>,
    pub unsafe_ok: bool,
}

/// The mathematical counterpart of [`Scope`].
#[verifier::ext_equal]
pub struct ScopeView {
    pub binds: Seq<BindView>,
    pub unsafe_ok: bool,
}

/// The counterpart of a list of bindings, member by member.
pub open spec fn binds_view(v: Seq<Binding>) -> Seq<BindView> {
    Seq::new(v.len(), |i: int| v[i]@)
}

impl View for Scope {
    type V = ScopeView;

    open spec fn view(&self) -> ScopeView {
        ScopeView { binds: binds_view(self.binds@), unsafe_ok: self.unsafe_ok }
    }
}

impl Clone for Scope {
    fn clone(&self) -> (r: Self)
        ensures
            r@ == self@,
    {
        let mut out: Vec<Binding> = Vec::new();
        let mut i: usize = 0;
        while i < self.binds.len()
            invariant
                i <= self.binds@.len(),
                out@.len() == i,
                forall|k: int| 0 <= k < i ==> #[trigger] out@[k]@ == self.binds@[k]@,
            decreases self.binds@.len() - i,
        {
            out.push(self.binds[i].clone());
            i = i + 1;
        }
        assert(binds_view(out@) =~= binds_view(self.binds@));
        Scope { binds: out, unsafe_ok: self.unsafe_ok }
    }
}

pub open spec fn binds_name(sc: ScopeView, name: Seq<char>) -> spec_fn(int) -> bool {
    |i: int| sc.binds[i].name == name
}

/// The innermost binding of a name.
pub open spec fn local(sc: ScopeView, name: Seq<char>) -> Option<BindView> {
    match find::last_below(binds_name(sc, name), sc.binds.len() as int) {
        Some(i) => Some(sc.binds[i]),
        None => None,
    }
}

/// The scope with one more binding.
pub open spec fn bind(sc: ScopeView, b: BindView) -> ScopeView {
    ScopeView { binds: sc.binds.push(b), ..sc }
}

/// The latest atom of the declaration `decl`, or `a` if it is not in scope.
pub open spec fn latest(sc: ScopeView, decl: nat, a: AtomView) -> AtomView {
    match find::last_below(|i: int| sc.binds[i].decl == decl, sc.binds.len() as int) {
        Some(i) => sc.binds[i].atom,
        None => a,
    }
}

impl Scope {
    /// The innermost binding of a name.
    pub fn find(&self, name: &str) -> (r: Option<&Binding>)
        ensures
            match local(self@, name@) {
                Some(b) => r is Some && r->0@ == b,
                None => r is None,
            },
    {
        let ghost p = binds_name(self@, name@);
        let mut i: usize = self.binds.len();
        while i > 0
            invariant
                i <= self.binds@.len(),
                p == binds_name(self@, name@),
                find::last_below(p, self@.binds.len() as int) == find::last_below(p, i as int),
            decreases i,
        {
            assert(self@.binds[i - 1] == self.binds@[i - 1]@);
            if str_eq(self.binds[i - 1].name.as_str(), name) {
                assert(p(i - 1));
                return Some(&self.binds[i - 1]);
            }
            assert(!p(i - 1));
            i = i - 1;
        }
        None
    }

    /// The atom of the innermost binding of a name.
    pub fn resolve_local(&self, name: &str) -> (r: Option<Atom>)
        ensures
            match local(self@, name@) {
                Some(b) => r is Some && r->0@ == b.atom,
                None => r is None,
            },
    {
        match self.find(name) {
            Some(b) => Some(b.atom.clone()),
            None => None,
        }
    }

    /// The latest atom of a declaration, or `a`.
    pub fn latest_atom(&self, decl: usize, a: Atom) -> (r: Atom)
        ensures
            r@ == latest(self@, decl as nat, a@),
    {
        let ghost sc = self@;
        let ghost want = decl as nat;
        let ghost p = |i: int| sc.binds[i].decl == want;
        let mut i: usize = self.binds.len();
        while i > 0
            invariant
                i <= self.binds@.len(),
                sc == self@,
                want == decl,
                p == (|i: int| sc.binds[i].decl == want),
                find::last_below(p, sc.binds.len() as int) == find::last_below(p, i as int),
            decreases i,
        {
            assert(self@.binds[i - 1] == self.binds@[i - 1]@);
            if self.binds[i - 1].decl == decl {
                assert(p(i - 1));
                return self.binds[i - 1].atom.clone();
            }
            assert(!p(i - 1));
            i = i - 1;
        }
        a
    }

    /// Add a binding.
    pub fn push(&mut self, b: Binding)
        ensures
            final(self)@ == bind(old(self)@, b@),
    {
        self.binds.push(b);
        assert(self@.binds =~= old(self)@.binds.push(b@));
    }
}

// ---- generic instances --------------------------------------------------------------------

/// One solved generic parameter of an instance.
pub struct InstArg {
    pub param: String,
    pub ty: SType,
    /// The canonical spelling of `ty`.
    pub key: String,
    /// The interface that the parameter must satisfy.
    pub bound: Option<String>,
}

/// The mathematical counterpart of [`InstArg`].
#[verifier::ext_equal]
pub struct ArgView {
    pub param: Seq<char>,
    pub ty: STypeView,
    pub key: Seq<char>,
    pub bound: Option<Seq<char>>,
}

pub open spec fn opt_string_view(s: Option<String>) -> Option<Seq<char>> {
    match s {
        Some(s) => Some(s@),
        None => None,
    }
}

impl View for InstArg {
    type V = ArgView;

    open spec fn view(&self) -> ArgView {
        ArgView {
            param: self.param@,
            ty: self.ty@,
            key: self.key@,
            bound: opt_string_view(self.bound),
        }
    }
}

pub open spec fn args_view(v: Seq<InstArg>) -> Seq<ArgView> {
    Seq::new(v.len(), |i: int| v[i]@)
}

/// A request to lower a generic function at concrete types.
pub struct InstanceReq {
    pub generic: String,
    pub at: ItemRef,
    pub instance: String,
    pub args: Vec<InstArg>,
}

/// The mathematical counterpart of [`InstanceReq`].
#[verifier::ext_equal]
pub struct ReqView {
    pub generic: Seq<char>,
    pub at: ItemRef,
    pub instance: Seq<char>,
    pub args: Seq<ArgView>,
}

impl View for InstanceReq {
    type V = ReqView;

    open spec fn view(&self) -> ReqView {
        ReqView {
            generic: self.generic@,
            at: self.at,
            instance: self.instance@,
            args: args_view(self.args@),
        }
    }
}

/// The instances that are still to be lowered, and all that were ever asked
/// for, so that each is lowered once.
pub struct Pending {
    pub queue: Vec<InstanceReq>,
    pub seen: Vec<String>,
}

/// The mathematical counterpart of [`Pending`].
#[verifier::ext_equal]
pub struct PendView {
    pub queue: Seq<ReqView>,
    pub seen: Seq<Seq<char>>,
}

pub open spec fn reqs_view(v: Seq<InstanceReq>) -> Seq<ReqView> {
    Seq::new(v.len(), |i: int| v[i]@)
}

impl View for Pending {
    type V = PendView;

    open spec fn view(&self) -> PendView {
        PendView { queue: reqs_view(self.queue@), seen: text::strings_view(self.seen@) }
    }
}

/// What is asked for after `req`, known under `id`, was asked for.
pub open spec fn ask(p: PendView, id: Seq<char>, req: ReqView) -> PendView {
    if p.seen.contains(id) {
        p
    } else {
        PendView { queue: p.queue.push(req), seen: p.seen.push(id) }
    }
}

impl Pending {
    pub fn new() -> (r: Pending)
        ensures
            r@ == (PendView { queue: Seq::empty(), seen: Seq::empty() }),
    {
        let r = Pending { queue: Vec::new(), seen: Vec::new() };
        assert(r@.queue =~= Seq::empty());
        assert(r@.seen =~= Seq::empty());
        r
    }

    /// Ask for an instance, unless it was asked for before.
    pub fn ask(&mut self, id: String, req: InstanceReq)
        ensures
            final(self)@ == ask(old(self)@, id@, req@),
    {
        if !contains_string(&self.seen, id.as_str()) {
            self.seen.push(id);
            self.queue.push(req);
            assert(self@.queue =~= old(self)@.queue.push(req@));
            assert(self@.seen =~= old(self)@.seen.push(id@));
        }
    }
}

// ---- bindings emitted -----------------------------------------------------------------------

/// The straight-line bindings of one block, in evaluation order. The first one
/// sits at the level `base`.
pub struct Builder {
    pub base: u32,
    pub lets: Vec<Core>,
}

/// The counterpart of a list of terms, member by member.
pub open spec fn cores_view(v: Seq<Core>) -> Seq<CoreView> {
    Seq::new(v.len(), |i: int| v[i]@)
}

/// What lowering an expression changes: the bindings emitted so far, and the
/// instances asked for.
#[verifier::ext_equal]
pub struct St {
    pub base: u32,
    pub lets: Seq<CoreView>,
    pub pend: PendView,
}

/// The state that a builder and the requests stand for.
pub open spec fn st_of(b: Builder, p: Pending) -> St {
    St { base: b.base, lets: cores_view(b.lets@), pend: p@ }
}

/// The number of binders in scope.
pub open spec fn depth_s(st: St) -> u32 {
    indices::add32(st.base, st.lets.len() as u32)
}

/// Bind a term; the atom names its value.
pub open spec fn push_s(st: St, c: CoreView) -> (AtomView, St) {
    (AtomView::Var(depth_s(st)), St { lets: st.lets.push(c), ..st })
}

/// The state at the start of a block at depth `base`.
pub open spec fn open_s(base: u32, pend: PendView) -> St {
    St { base, lets: Seq::empty(), pend }
}

/// The bindings around a final term, as nested lets.
pub open spec fn fold_view(lets: Seq<CoreView>, tail: CoreView) -> CoreView
    decreases lets.len(),
{
    if lets.len() == 0 {
        tail
    } else {
        fold_view(
            lets.drop_last(),
            CoreView::Let { value: Box::new(lets.last()), body: Box::new(tail) },
        )
    }
}

impl Builder {
    pub fn new(base: u32) -> (r: Builder)
        ensures
            r.base == base,
            cores_view(r.lets@) == Seq::<CoreView>::empty(),
    {
        let r = Builder { base, lets: Vec::new() };
        assert(cores_view(r.lets@) =~= Seq::empty());
        r
    }

    /// The number of binders in scope.
    pub fn depth(&self) -> (r: u32)
        ensures
            r == indices::add32(self.base, self.lets@.len() as u32),
            self.lets@.len() == cores_view(self.lets@).len(),
    {
        deeper(self.base, self.lets.len() as u32)
    }

    /// Bind a term; the atom names its value.
    pub fn push(&mut self, rhs: Core) -> (r: Atom)
        ensures
            final(self).base == old(self).base,
            cores_view(final(self).lets@) == cores_view(old(self).lets@).push(rhs@),
            r@ == AtomView::Var(
                indices::add32(old(self).base, cores_view(old(self).lets@).len() as u32),
            ),
    {
        let level = self.depth();
        self.lets.push(rhs);
        assert(cores_view(self.lets@) =~= cores_view(old(self).lets@).push(rhs@));
        Atom::Var(level)
    }
}

/// The bindings around a final term, as nested lets.
pub fn fold_lets(lets: Vec<Core>, tail: Core) -> (r: Core)
    ensures
        r@ == fold_view(cores_view(lets@), tail@),
{
    let mut rest = lets;
    let mut body = tail;
    let ghost want = fold_view(cores_view(lets@), tail@);
    while rest.len() > 0
        invariant
            fold_view(cores_view(rest@), body@) == want,
        decreases rest@.len(),
    {
        let ghost before = cores_view(rest@);
        let ghost inner = body@;
        match rest.pop() {
            Some(value) => {
                proof {
                    assert(before.drop_last() =~= cores_view(rest@));
                    assert(before.last() == value@);
                }
                body = Core::Let { value: Box::new(value), body: Box::new(body) };
            },
            None => {},
        }
    }
    body
}

// ---- the module being lowered -----------------------------------------------------------------

/// A module being lowered, with all the modules it may refer to. While an
/// instance of a generic function is lowered, `inst` holds its arguments.
pub struct Lowerer<'a> {
    pub ms: &'a Vec<&'a Module>,
    pub m: &'a Module,
    pub reg: &'a EnumReg,
    pub subst: Vec<(String, SType)>,
    pub inst: Option<Vec<InstArg>>,
}

/// The mathematical counterpart of [`Lowerer`].
pub struct LowererView {
    pub ms: Seq<Module>,
    pub m: Module,
    pub reg: RegView,
    pub subst: Seq<(Seq<char>, STypeView)>,
    pub inst: Option<Seq<ArgView>>,
}

pub open spec fn inst_view(v: Option<Vec<InstArg>>) -> Option<Seq<ArgView>> {
    match v {
        Some(v) => Some(args_view(v@)),
        None => None,
    }
}

impl<'a> View for Lowerer<'a> {
    type V = LowererView;

    open spec fn view(&self) -> LowererView {
        LowererView {
            ms: decls::modules_of(self.ms@),
            m: *self.m,
            reg: self.reg@,
            subst: surface::bindings_view(self.subst@),
            inst: inst_view(self.inst),
        }
    }
}

} // verus!
