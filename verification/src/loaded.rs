//! A loaded program, and the definitions that a build of it pins.
use vstd::prelude::*;
use vstd::string::*;

use crate::copies::clone_hashes;
use crate::decls;
use crate::decls::path_of;
use crate::find;
use crate::fresh;
use crate::hash;
use crate::hash::symbol_hash;
use crate::hashed;
use crate::imports::LoadError;
use crate::ir;
use crate::ir::{BranchView, Core, CoreView, Def, DefKind, DefView};
use crate::lower;
use crate::lower::{EntryView, LoweredModule, LoweredView, lower_modules};
use crate::lower_error;
use crate::metas;
use crate::metas::{DefMeta, MetaInfo, PinView, PinnedDef, fn_param_names, store_meta_for_module, world_for_pinned};
use crate::ops;
use crate::reach;
use crate::reach::qualify;
use crate::scope;
use crate::syntax::Module;
use crate::text;
use crate::text::{clone_strings, contains_string, join, str_eq};
use crate::world::{World, WorldView};

verus! {

// ---- programs ------------------------------------------------------------------------------------------

/// A definition of a loaded program.
#[derive(Debug, PartialEq, Eq)]
pub struct LoadedDef {
    /// Its name: bare in the main module, else under its module.
    pub name: String,
    pub bare: String,
    /// Its name under its module.
    pub qualified: String,
    /// The hash of its qualified name.
    pub hash: crate::ir::Hash,
    pub def: Def,
    pub meta: DefMeta,
    /// The names of its parameters, as far as they are known.
    pub params: Vec<String>,
    /// Whether it is one of the main module.
    pub own: bool,
}

/// The mathematical counterpart of [`LoadedDef`].
#[verifier::ext_equal]
pub struct LoadedItem {
    pub name: Seq<char>,
    pub bare: Seq<char>,
    pub qualified: Seq<char>,
    pub hash: Seq<u8>,
    pub def: DefView,
    pub meta: MetaInfo,
    pub params: Seq<Seq<char>>,
    pub own: bool,
}

impl View for LoadedDef {
    type V = LoadedItem;

    open spec fn view(&self) -> LoadedItem {
        LoadedItem {
            name: self.name@,
            bare: self.bare@,
            qualified: self.qualified@,
            hash: self.hash@,
            def: self.def@,
            meta: self.meta@,
            params: text::strings_view(self.params@),
            own: self.own,
        }
    }
}

pub open spec fn items_view(v: Seq<LoadedDef>) -> Seq<LoadedItem> {
    Seq::new(v.len(), |i: int| v[i]@)
}

/// A loaded program: its definitions, and what they refer to.
#[derive(Debug, PartialEq, Eq)]
pub struct Loaded {
    /// The path of the main module.
    pub main_path: String,
    pub items: Vec<LoadedDef>,
    pub world: World,
}

/// The mathematical counterpart of [`Loaded`].
#[verifier::ext_equal]
pub struct LoadedView {
    pub main_path: Seq<char>,
    pub items: Seq<LoadedItem>,
    pub world: WorldView,
}

impl View for Loaded {
    type V = LoadedView;

    open spec fn view(&self) -> LoadedView {
        LoadedView {
            main_path: self.main_path@,
            items: items_view(self.items@),
            world: self.world@,
        }
    }
}

/// A definition of a module.
pub open spec fn item_of(
    l: LoweredView,
    m: Module,
    main: bool,
    main_path: Seq<char>,
    e: EntryView,
) -> LoadedItem {
    let path = text::join_view(l.module, "."@);
    let qualified = reach::qualify_view(path, e.name);
    LoadedItem {
        name: if main {
            e.name
        } else {
            qualified
        },
        bare: e.name,
        qualified,
        hash: hash::symbol_id(qualified),
        def: e.def,
        meta: metas::meta_of_entry(l, m, e),
        params: metas::params_named(m, e.name),
        own: path == main_path,
    }
}

/// The definitions of a module.
pub open spec fn items_of(l: LoweredView, m: Module, main: bool, main_path: Seq<char>) -> Seq<
    LoadedItem,
> {
    Seq::new(l.defs.len(), |k: int| item_of(l, m, main, main_path, l.defs[k]))
}

/// The definitions of the first `n` modules; the first module is the main one.
pub open spec fn all_items(
    ls: Seq<LoweredView>,
    ms: Seq<Module>,
    main_path: Seq<char>,
    n: nat,
) -> Seq<LoadedItem>
    decreases n,
{
    if n == 0 {
        Seq::empty()
    } else {
        all_items(ls, ms, main_path, (n - 1) as nat) + items_of(
            ls[n - 1],
            ms[n - 1],
            n == 1,
            main_path,
        )
    }
}

/// A loaded definition under its hash.
pub open spec fn pin_of(d: LoadedItem) -> PinView {
    PinView { hash: d.hash, name: d.qualified, def: d.def, meta: d.meta }
}

pub open spec fn pins_of(v: Seq<LoadedItem>) -> Seq<PinView> {
    Seq::new(v.len(), |i: int| pin_of(v[i]))
}

/// The program of modules, the first of which is the main one.
pub open spec fn loaded_s(ms: Seq<Module>) -> Result<LoadedView, Seq<char>> {
    match lower::lower_s(ms) {
        Ok(ls) => {
            let main_path = decls::path_view(ms[0]);
            let items = all_items(ls, ms, main_path, ms.len());
            Ok(
                LoadedView {
                    main_path,
                    items,
                    world: metas::world_of_pins(pins_of(items), items.len()),
                },
            )
        },
        Err(e) => Err("lower error: "@ + lower_error::error_text(e)),
    }
}

fn push_items(out: &mut Vec<LoadedDef>, l: &LoweredModule, m: &Module, main: bool, main_path: &str)
    ensures
        items_view(final(out)@) == items_view(old(out)@) + items_of(l@, *m, main, main_path@),
{
    let path = join(&l.module, ".");
    let own = str_eq(path.as_str(), main_path);
    let found = store_meta_for_module(l, m);
    let ghost before = items_view(out@);
    let ghost want = items_of(l@, *m, main, main_path@);
    let mut k: usize = 0;
    assert(found@.len() == metas::def_metas_view(found@).len());
    assert(before + want.take(0) =~= before);
    while k < l.defs.len()
        invariant
            k <= l.defs@.len(),
            l.defs@.len() == found@.len(),
            metas::def_metas_view(found@) == Seq::new(
                l@.defs.len(),
                |i: int| metas::meta_of_entry(l@, *m, l@.defs[i]),
            ),
            path@ == text::join_view(l@.module, "."@),
            own == (path@ == main_path@),
            want == items_of(l@, *m, main, main_path@),
            items_view(out@) == before + want.take(k as int),
        decreases l.defs@.len() - k,
    {
        let e = &l.defs[k];
        assert(l@.defs[k as int] == e@);
        assert(metas::def_metas_view(found@)[k as int] == found@[k as int]@);
        let qualified = qualify(path.as_str(), e.name.as_str());
        let name = if main {
            e.name.clone()
        } else {
            qualified.clone()
        };
        let h = symbol_hash(qualified.as_str());
        let d = LoadedDef {
            name,
            bare: e.name.clone(),
            qualified,
            hash: h,
            def: e.def.clone(),
            meta: found[k].clone(),
            params: fn_param_names(m, e.name.as_str()),
            own,
        };
        let ghost now = items_view(out@);
        assert(d@ == want[k as int]);
        out.push(d);
        assert(items_view(out@) =~= now.push(d@));
        assert(items_view(out@) =~= before + want.take(k + 1));
        k = k + 1;
    }
    assert(want.take(l.defs@.len() as int) =~= want);
}

fn pins_from(items: &Vec<LoadedDef>) -> (r: Vec<PinnedDef>)
    ensures
        metas::pins_view(r@) == pins_of(items_view(items@)),
{
    let mut out: Vec<PinnedDef> = Vec::new();
    let mut i: usize = 0;
    while i < items.len()
        invariant
            i <= items@.len(),
            out@.len() == i,
            forall|k: int| 0 <= k < i ==> #[trigger] out@[k]@ == pin_of(items@[k]@),
        decreases items@.len() - i,
    {
        let d = &items[i];
        out.push(
            PinnedDef {
                hash: d.hash,
                name: d.qualified.clone(),
                def: d.def.clone(),
                meta: d.meta.clone(),
            },
        );
        i = i + 1;
    }
    assert(metas::pins_view(out@) =~= pins_of(items_view(items@)));
    out
}

/// Lower modules to a program. The first one is the main module.
pub fn load_modules(ms: &Vec<Module>) -> (r: Result<Loaded, LoadError>)
    requires
        ms@.len() > 0,
    ensures
        match loaded_s(ms@) {
            Ok(l) => r is Ok && r->Ok_0@ == l,
            Err(e) => r is Err && r->Err_0 is Front && r->Err_0->Front_0@ == e,
        },
{
    let lowered = match lower_modules(ms) {
        Ok(v) => v,
        Err(e) => {
            let mut t = "lower error: ".to_owned();
            t.append(e.message().as_str());
            return Err(LoadError::Front(t));
        },
    };
    let ghost ls = lower::lowered_view(lowered@);
    proof {
        lower::lemma_lower_len(ms@);
    }
    let main_path = path_of(&ms[0]);
    let mut items: Vec<LoadedDef> = Vec::new();
    let mut i: usize = 0;
    assert(items_view(items@) =~= Seq::empty());
    assert(lowered@.len() == ls.len());
    while i < ms.len()
        invariant
            i <= ms@.len(),
            ls == lower::lowered_view(lowered@),
            lowered@.len() == ms@.len(),
            items_view(items@) == all_items(ls, ms@, main_path@, i as nat),
        decreases ms@.len() - i,
    {
        assert(ls[i as int] == lowered@[i as int]@);
        push_items(&mut items, &lowered[i], &ms[i], i == 0, main_path.as_str());
        i = i + 1;
    }
    let pins = pins_from(&items);
    assert(metas::pins_view(pins@).len() == items_view(items@).len());
    let world = world_for_pinned(&pins);
    Ok(Loaded { main_path, items, world })
}

/// A definition of a Core snapshot.
#[derive(Debug, PartialEq, Eq)]
pub struct CoreDef {
    pub name: String,
    pub def: Def,
    pub params: Vec<String>,
}

/// A definition of a Core snapshot as a loaded one.
pub open spec fn core_item(path: Seq<char>, d: CoreDef) -> LoadedItem {
    let qualified = reach::qualify_view(path, d.name@);
    LoadedItem {
        name: d.name@,
        bare: d.name@,
        qualified,
        hash: hash::symbol_id(qualified),
        def: d.def@,
        meta: metas::no_meta(),
        params: text::strings_view(d.params@),
        own: true,
    }
}

/// The program of a Core snapshot.
pub fn load_core(path: String, defs: &Vec<CoreDef>, world: World) -> (r: Loaded)
    ensures
        r@ == (LoadedView {
            main_path: path@,
            items: Seq::new(defs@.len(), |i: int| core_item(path@, defs@[i])),
            world: world@,
        }),
{
    let mut items: Vec<LoadedDef> = Vec::new();
    let mut i: usize = 0;
    while i < defs.len()
        invariant
            i <= defs@.len(),
            items@.len() == i,
            forall|k: int| 0 <= k < i ==> #[trigger] items@[k]@ == core_item(path@, defs@[k]),
        decreases defs@.len() - i,
    {
        let d = &defs[i];
        let qualified = qualify(path.as_str(), d.name.as_str());
        let h = symbol_hash(qualified.as_str());
        let x = LoadedDef {
            name: d.name.clone(),
            bare: d.name.clone(),
            qualified,
            hash: h,
            def: d.def.clone(),
            meta: DefMeta::default(),
            params: clone_strings(&d.params),
            own: true,
        };
        assert(x@ == core_item(path@, *d));
        items.push(x);
        i = i + 1;
    }
    assert(items_view(items@) =~= Seq::new(defs@.len(), |i: int| core_item(path@, defs@[i])));
    Loaded { main_path: path, items, world }
}

/// The names that the definitions of the main module go by, each under its
/// module and bare: those of the first `n` definitions.
pub open spec fn names_of(v: Seq<LoadedItem>, n: nat) -> Seq<(Seq<char>, Seq<u8>)>
    decreases n,
{
    if n == 0 {
        Seq::empty()
    } else if v[n - 1].own {
        names_of(v, (n - 1) as nat).push((v[n - 1].qualified, v[n - 1].hash)).push(
            (v[n - 1].bare, v[n - 1].hash),
        )
    } else {
        names_of(v, (n - 1) as nat)
    }
}

impl Loaded {
    /// The definitions as a backend takes them, each under its hash.
    pub fn runtime_defs(&self) -> (r: Vec<(crate::ir::Hash, String, Def)>)
        ensures
            hashed::hashed_view(r@) == Seq::new(
                self@.items.len(),
                |i: int| (self@.items[i].hash, self@.items[i].qualified, self@.items[i].def),
            ),
    {
        let mut out: Vec<(crate::ir::Hash, String, Def)> = Vec::new();
        let mut i: usize = 0;
        while i < self.items.len()
            invariant
                i <= self.items@.len(),
                out@.len() == i,
                forall|k: int|
                    0 <= k < i ==> (#[trigger] out@[k]).0@ == self.items@[k].hash@ && out@[k].1@
                        == self.items@[k].qualified@ && out@[k].2@ == self.items@[k].def@,
            decreases self.items@.len() - i,
        {
            let d = &self.items[i];
            out.push((d.hash, d.qualified.clone(), d.def.clone()));
            i = i + 1;
        }
        assert(hashed::hashed_view(out@) =~= Seq::new(
            self@.items.len(),
            |i: int| (self@.items[i].hash, self@.items[i].qualified, self@.items[i].def),
        ));
        out
    }

    /// The names that the definitions of the main module go by.
    pub fn runtime_aliases(&self) -> (r: Vec<(String, crate::ir::Hash)>)
        ensures
            hashed::aliases_view(r@) == names_of(self@.items, self@.items.len()),
    {
        let ghost v = self@.items;
        let mut out: Vec<(String, crate::ir::Hash)> = Vec::new();
        let mut i: usize = 0;
        assert(hashed::aliases_view(out@) =~= Seq::empty());
        while i < self.items.len()
            invariant
                i <= self.items@.len(),
                v == self@.items,
                hashed::aliases_view(out@) == names_of(v, i as nat),
            decreases self.items@.len() - i,
        {
            let d = &self.items[i];
            assert(v[i as int] == d@);
            if d.own {
                let ghost before = hashed::aliases_view(out@);
                out.push((d.qualified.clone(), d.hash));
                out.push((d.bare.clone(), d.hash));
                assert(hashed::aliases_view(out@) =~= before.push((d.qualified@, d.hash@)).push(
                    (d.bare@, d.hash@),
                ));
            }
            i = i + 1;
        }
        out
    }
}

// ---- what to prove -------------------------------------------------------------------------------------------

/// Whether a term has a loop with an invariant.
pub open spec fn has_invariant(c: CoreView) -> bool
    decreases c, 0nat,
{
    match c {
        CoreView::Lam { param, effects, body } => has_invariant(*body),
        CoreView::Let { value, body } => has_invariant(*value) || has_invariant(*body),
        CoreView::Match { scrutinee, branches } => some_invariant(branches, branches.len()),
        CoreView::Loop { state, inv, cond, body } => inv is Some || has_invariant(*cond)
            || has_invariant(*body),
        _ => false,
    }
}

/// As [`has_invariant`], for the first `n` branches.
pub open spec fn some_invariant(v: Seq<BranchView>, n: nat) -> bool
    decreases v, n,
{
    if n == 0 || n > v.len() {
        false
    } else {
        some_invariant(v, (n - 1) as nat) || has_invariant(v[n - 1].body)
    }
}

fn find_invariant(c: &Core) -> (r: bool)
    ensures
        r == has_invariant(c@),
    decreases c,
{
    match c {
        Core::Lam { param: _, effects: _, body } => find_invariant(body),
        Core::Let { value, body } => {
            let a = find_invariant(value);
            let b = find_invariant(body);
            a || b
        },
        Core::Match { scrutinee: _, branches } => {
            broadcast use ir::lemma_branches_view;

            let ghost v = ir::branches_view(branches@);
            let mut hit = false;
            let mut i: usize = 0;
            while i < branches.len()
                invariant
                    i <= branches@.len(),
                    v == ir::branches_view(branches@),
                    v.len() == branches@.len(),
                    hit == some_invariant(v, i as nat),
                    decreases_to!(c => branches),
                decreases branches@.len() - i,
            {
                assert(v[i as int] == branches@[i as int]@);
                let b = find_invariant(&branches[i].body);
                hit = hit || b;
                i = i + 1;
            }
            hit
        },
        Core::Loop { state: _, inv, cond, body } => {
            let a = find_invariant(cond);
            let b = find_invariant(body);
            inv.is_some() || a || b
        },
        _ => false,
    }
}

/// Whether a loop of a definition has an invariant.
pub fn has_loop_invariant(d: &Def) -> (r: bool)
    ensures
        r == (d@.body is Some && has_invariant(d@.body->0)),
{
    match &d.body {
        Some(c) => find_invariant(c),
        None => false,
    }
}

/// A name under the main module.
pub open spec fn qualified_name(path: Seq<char>, name: Seq<char>) -> Seq<char> {
    if path.len() == 0 {
        name
    } else {
        path + "."@ + name
    }
}

/// A name under the main module.
pub fn qualify_name(path: &str, name: &str) -> (r: String)
    ensures
        r@ == qualified_name(path@, name@),
{
    if path.unicode_len() == 0 {
        name.to_owned()
    } else {
        {
            let mut x = path.to_owned();
            x.append(".");
            x.append(name);
            x
        }
    }
}

/// Whether a definition is to be proved: a function with a contract, by that
/// name if one is given.
pub open spec fn provable(path: Seq<char>, d: LoadedItem, name: Option<Seq<char>>) -> bool {
    &&& d.def.kind == DefKind::Fn
    &&& name is Some ==> name->0 == d.name || name->0 == qualified_name(path, d.name)
    &&& d.def.pre.len() > 0 || d.def.post.len() > 0 || (d.def.body is Some && has_invariant(
        d.def.body->0,
    ))
}

/// Those of the first `n` definitions that are to be proved.
pub open spec fn provables(
    path: Seq<char>,
    v: Seq<LoadedItem>,
    name: Option<Seq<char>>,
    n: nat,
) -> Seq<usize>
    decreases n,
{
    if n == 0 {
        Seq::empty()
    } else if provable(path, v[n - 1], name) {
        provables(path, v, name, (n - 1) as nat).push((n - 1) as usize)
    } else {
        provables(path, v, name, (n - 1) as nat)
    }
}

impl Loaded {
    /// The definitions that are to be proved, by their positions.
    pub fn verify_targets(&self, name: &Option<String>) -> (r: Vec<usize>)
        ensures
            r@ == provables(
                self@.main_path,
                self@.items,
                scope::opt_string_view(*name),
                self@.items.len(),
            ),
    {
        let ghost v = self@.items;
        let ghost want = scope::opt_string_view(*name);
        let mut out: Vec<usize> = Vec::new();
        let mut i: usize = 0;
        assert(out@ =~= Seq::empty());
        while i < self.items.len()
            invariant
                i <= self.items@.len(),
                v == self@.items,
                want == scope::opt_string_view(*name),
                out@ == provables(self@.main_path, v, want, i as nat),
            decreases self.items@.len() - i,
        {
            let d = &self.items[i];
            assert(v[i as int] == d@);
            let named = match name {
                Some(t) => str_eq(t.as_str(), d.name.as_str()) || str_eq(
                    t.as_str(),
                    qualify_name(self.main_path.as_str(), d.name.as_str()).as_str(),
                ),
                None => true,
            };
            if d.def.kind == DefKind::Fn && named && (d.def.pre.len() > 0 || d.def.post.len() > 0
                || has_loop_invariant(&d.def)) {
                out.push(i);
            }
            i = i + 1;
        }
        out
    }
}

// ---- pinned programs ----------------------------------------------------------------------------------------

/// A definition in a content store.
#[derive(Debug, PartialEq, Eq)]
pub struct StoredDef {
    /// Its hash, as written.
    pub hash: String,
    pub name: String,
    pub def: Def,
    pub meta: DefMeta,
    /// The hashes of what it refers to, as written.
    pub deps: Vec<String>,
    pub reviewed: bool,
}

/// The mathematical counterpart of [`StoredDef`].
#[verifier::ext_equal]
pub struct StoredView {
    pub hash: Seq<char>,
    pub name: Seq<char>,
    pub def: DefView,
    pub meta: MetaInfo,
    pub deps: Seq<Seq<char>>,
    pub reviewed: bool,
}

impl View for StoredDef {
    type V = StoredView;

    open spec fn view(&self) -> StoredView {
        StoredView {
            hash: self.hash@,
            name: self.name@,
            def: self.def@,
            meta: self.meta@,
            deps: text::strings_view(self.deps@),
            reviewed: self.reviewed,
        }
    }
}

pub open spec fn stored_view(v: Seq<StoredDef>) -> Seq<StoredView> {
    Seq::new(v.len(), |i: int| v[i]@)
}

/// The hashes of stored definitions.
pub open spec fn stored_hashes(v: Seq<StoredView>) -> Seq<Seq<char>> {
    Seq::new(v.len(), |i: int| v[i].hash)
}

pub open spec fn is_stored_as(v: Seq<StoredView>, h: Seq<char>) -> spec_fn(int) -> bool {
    |i: int| v[i].hash == h
}

/// The definition of that hash: a local one, else one of the store.
pub open spec fn blob_of(local: Seq<StoredView>, store: Seq<StoredView>, h: Seq<char>) -> Option<
    StoredView,
> {
    match find::last_below(is_stored_as(local, h), local.len() as int) {
        Some(i) => Some(local[i]),
        None => match find::last_below(is_stored_as(store, h), store.len() as int) {
            Some(i) => Some(store[i]),
            None => None,
        },
    }
}

/// How many definitions were not met yet.
pub open spec fn unpinned(
    local: Seq<StoredView>,
    store: Seq<StoredView>,
    seen: Seq<Seq<char>>,
) -> nat {
    fresh::fresh(stored_hashes(local), seen, local.len()) + fresh::fresh(
        stored_hashes(store),
        seen,
        store.len(),
    )
}

/// A definition that is met leaves fewer.
pub proof fn lemma_unpinned(
    local: Seq<StoredView>,
    store: Seq<StoredView>,
    seen: Seq<Seq<char>>,
    h: Seq<char>,
)
    requires
        !seen.contains(h),
        blob_of(local, store, h) is Some,
    ensures
        unpinned(local, store, seen.push(h)) < unpinned(local, store, seen),
{
    fresh::lemma_fresh_less(stored_hashes(local), seen, h, local.len());
    fresh::lemma_fresh_less(stored_hashes(store), seen, h, store.len());
    find::lemma_last_below(is_stored_as(local, h), local.len() as int);
    find::lemma_last_below(is_stored_as(store, h), store.len() as int);
    match find::last_below(is_stored_as(local, h), local.len() as int) {
        Some(i) => {
            assert(stored_hashes(local)[i] == h);
        },
        None => match find::last_below(is_stored_as(store, h), store.len() as int) {
            Some(i) => {
                assert(stored_hashes(store)[i] == h);
            },
            None => {},
        },
    }
}

/// The definitions that those of `stack` lead to, after those of `out`, each
/// before what it refers to; those of `seen` are not met again.
pub open spec fn visited(
    local: Seq<StoredView>,
    store: Seq<StoredView>,
    stack: Seq<Seq<char>>,
    seen: Seq<Seq<char>>,
    out: Seq<PinView>,
) -> Result<Seq<PinView>, Seq<char>>
    decreases unpinned(local, store, seen), stack.len(),
{
    proof {
        if stack.len() > 0 && !seen.contains(stack[0]) && blob_of(local, store, stack[0]) is Some {
            lemma_unpinned(local, store, seen, stack[0]);
        }
    }
    if stack.len() == 0 {
        Ok(out)
    } else if seen.contains(stack[0]) {
        visited(local, store, stack.skip(1), seen, out)
    } else {
        let h = stack[0];
        match blob_of(local, store, h) {
            None => Err(("store is missing pinned dependency `"@ + h + "`"@)),
            Some(b) => match ops::hex_bytes(ops::b3_body(b.hash)) {
                None => Err("invalid hash `"@ + b.hash + "`"@),
                Some(bytes) => visited(
                    local,
                    store,
                    b.deps + stack.skip(1),
                    seen.push(h),
                    out.push(PinView { hash: bytes, name: b.name, def: b.def, meta: b.meta }),
                ),
            },
        }
    }
}

fn find_stored(v: &Vec<StoredDef>, h: &str) -> (r: Option<usize>)
    ensures
        match find::last_below(is_stored_as(stored_view(v@), h@), v@.len() as int) {
            Some(i) => r is Some && r->0 == i && 0 <= i < v@.len(),
            None => r is None,
        },
{
    let ghost p = is_stored_as(stored_view(v@), h@);
    let mut i: usize = v.len();
    while i > 0
        invariant
            i <= v@.len(),
            p == is_stored_as(stored_view(v@), h@),
            find::last_below(p, v@.len() as int) == find::last_below(p, i as int),
        decreases i,
    {
        assert(stored_view(v@)[i - 1] == v@[i - 1]@);
        if str_eq(v[i - 1].hash.as_str(), h) {
            assert(p(i - 1));
            return Some(i - 1);
        }
        assert(!p(i - 1));
        i = i - 1;
    }
    None
}

fn find_blob<'a>(local: &'a Vec<StoredDef>, store: &'a Vec<StoredDef>, h: &str) -> (r: Option<
    &'a StoredDef,
>)
    ensures
        match blob_of(stored_view(local@), stored_view(store@), h@) {
            Some(b) => r is Some && r->0@ == b,
            None => r is None,
        },
{
    match find_stored(local, h) {
        Some(i) => {
            assert(stored_view(local@)[i as int] == local@[i as int]@);
            Some(&local[i])
        },
        None => match find_stored(store, h) {
            Some(i) => {
                assert(stored_view(store@)[i as int] == store@[i as int]@);
                Some(&store[i])
            },
            None => None,
        },
    }
}

/// The definitions that `roots` lead to, by the hashes that a program and a
/// store hold.
pub fn visit_pinned(roots: &Vec<String>, local: &Vec<StoredDef>, store: &Vec<StoredDef>) -> (r:
    Result<Vec<PinnedDef>, String>)
    ensures
        match visited(
            stored_view(local@),
            stored_view(store@),
            text::strings_view(roots@),
            Seq::empty(),
            Seq::empty(),
        ) {
            Ok(v) => r is Ok && metas::pins_view(r->Ok_0@) == v,
            Err(e) => r is Err && r->Err_0@ == e,
        },
{
    let ghost lv = stored_view(local@);
    let ghost sv = stored_view(store@);
    let ghost want = visited(lv, sv, text::strings_view(roots@), Seq::empty(), Seq::empty());
    let mut seen: Vec<String> = Vec::new();
    let mut out: Vec<PinnedDef> = Vec::new();
    let mut stack: Vec<String> = Vec::new();
    push_reversed(&mut stack, roots);
    assert(text::strings_view(stack@).reverse() =~= text::strings_view(roots@));
    assert(text::strings_view(seen@) =~= Seq::empty());
    assert(metas::pins_view(out@) =~= Seq::empty());
    loop
        invariant
            lv == stored_view(local@),
            sv == stored_view(store@),
            visited(
                lv,
                sv,
                text::strings_view(stack@).reverse(),
                text::strings_view(seen@),
                metas::pins_view(out@),
            ) == want,
            want == visited(lv, sv, text::strings_view(roots@), Seq::empty(), Seq::empty()),
        decreases unpinned(lv, sv, text::strings_view(seen@)), stack@.len(),
    {
        let ghost st = text::strings_view(stack@).reverse();
        let ghost raw = stack@;
        match stack.pop() {
            None => {
                assert(st.len() == 0);
                return Ok(out);
            },
            Some(h) => {
                assert(raw[raw.len() - 1] == h);
                assert(st[0] == h@);
                assert(st.skip(1) =~= text::strings_view(stack@).reverse());
                if !contains_string(&seen, h.as_str()) {
                    match find_blob(local, store, h.as_str()) {
                        None => {
                            return Err({
                                let mut x = "store is missing pinned dependency `".to_owned();
                                x.append(h.as_str());
                                x.append("`");
                                x
                            });
                        },
                        Some(b) => {
                            let parsed = match crate::ir::Hash::from_b3(b.hash.as_str()) {
                                Some(x) => x,
                                None => {
                                    let t = b.hash.as_str();
                                    return Err({
                                        let mut x = "invalid hash `".to_owned();
                                        x.append(t);
                                        x.append("`");
                                        x
                                    });
                                },
                            };
                            let d = PinnedDef {
                                hash: parsed,
                                name: b.name.clone(),
                                def: b.def.clone(),
                                meta: b.meta.clone(),
                            };
                            let ghost before = text::strings_view(seen@);
                            proof {
                                lemma_unpinned(lv, sv, before, h@);
                            }
                            let ghost pins = metas::pins_view(out@);
                            let ghost key = h@;
                            out.push(d);
                            assert(metas::pins_view(out@) =~= pins.push(d@));
                            seen.push(h);
                            assert(text::strings_view(seen@) =~= before.push(key));
                            push_reversed(&mut stack, &b.deps);
                            assert(text::strings_view(stack@).reverse() =~= b@.deps + st.skip(1));
                        },
                    }
                }
            },
        }
    }
}

fn push_reversed(stack: &mut Vec<String>, v: &Vec<String>)
    ensures
        text::strings_view(final(stack)@).reverse() == text::strings_view(v@)
            + text::strings_view(old(stack)@).reverse(),
{
    let ghost before = text::strings_view(stack@);
    let ghost all = text::strings_view(v@);
    let mut i: usize = v.len();
    assert(all.skip(all.len() as int) + before.reverse() =~= before.reverse());
    while i > 0
        invariant
            i <= v@.len(),
            all == text::strings_view(v@),
            text::strings_view(stack@).reverse() == all.skip(i as int) + before.reverse(),
        decreases i,
    {
        let ghost now = text::strings_view(stack@);
        stack.push(v[i - 1].clone());
        assert(text::strings_view(stack@) =~= now.push(all[i - 1]));
        assert(now.push(all[i - 1]).reverse() =~= seq![all[i - 1]] + now.reverse());
        assert(all.skip(i - 1) =~= seq![all[i - 1]] + all.skip(i as int));
        assert(text::strings_view(stack@).reverse() =~= all.skip(i - 1) + before.reverse());
        i = i - 1;
    }
    assert(all.skip(0) =~= all);
}

// ---- roots -----------------------------------------------------------------------------------------------------

pub open spec fn answers(path: Seq<char>, v: Seq<LoadedItem>, entry: Seq<char>) -> spec_fn(
    int,
) -> bool {
    |i: int|
        reach::concrete_fn(v[i].def) && (v[i].name == entry || qualified_name(path, v[i].name)
            == entry)
}

pub open spec fn is_main(v: Seq<LoadedItem>) -> spec_fn(int) -> bool {
    |i: int| v[i].name == "main"@ && reach::concrete_fn(v[i].def)
}

pub open spec fn is_callable(v: Seq<LoadedItem>) -> spec_fn(int) -> bool {
    |i: int| reach::concrete_fn(v[i].def)
}

/// The definition that a build starts from: the entry if one is named, else
/// `main`, else the only function; none if that is not decided.
pub open spec fn root_of(path: Seq<char>, v: Seq<LoadedItem>, entry: Seq<char>) -> Option<int> {
    let n = v.len() as int;
    if entry.len() > 0 {
        find::first_from(answers(path, v, entry), 0, n)
    } else {
        match find::first_from(is_main(v), 0, n) {
            Some(i) => Some(i),
            None => match find::first_from(is_callable(v), 0, n) {
                Some(i) => if find::first_from(is_callable(v), i + 1, n) is None {
                    Some(i)
                } else {
                    None
                },
                None => None,
            },
        }
    }
}

fn is_concrete_fn(d: &Def) -> (r: bool)
    ensures
        r == reach::concrete_fn(d@),
{
    d.kind == DefKind::Fn && !d.ty.is_polymorphic()
}

impl Loaded {
    fn find_answer(&self, entry: &str) -> (r: Option<usize>)
        ensures
            match find::first_from(
                answers(self@.main_path, self@.items, entry@),
                0,
                self@.items.len() as int,
            ) {
                Some(i) => r is Some && r->0 == i && 0 <= i < self.items@.len(),
                None => r is None,
            },
    {
        let ghost p = answers(self@.main_path, self@.items, entry@);
        let ghost n = self.items@.len() as int;
        let mut i: usize = 0;
        while i < self.items.len()
            invariant
                i <= n,
                n == self.items@.len(),
                p == answers(self@.main_path, self@.items, entry@),
                find::first_from(p, 0, n) == find::first_from(p, i as int, n),
            decreases n - i,
        {
            let d = &self.items[i];
            assert(self@.items[i as int] == d@);
            if is_concrete_fn(&d.def) && (str_eq(d.name.as_str(), entry) || str_eq(
                qualify_name(self.main_path.as_str(), d.name.as_str()).as_str(),
                entry,
            )) {
                assert(p(i as int));
                return Some(i);
            }
            assert(!p(i as int));
            i = i + 1;
        }
        None
    }

    fn find_main(&self) -> (r: Option<usize>)
        ensures
            match find::first_from(is_main(self@.items), 0, self@.items.len() as int) {
                Some(i) => r is Some && r->0 == i && 0 <= i < self.items@.len(),
                None => r is None,
            },
    {
        let ghost p = is_main(self@.items);
        let ghost n = self.items@.len() as int;
        let mut i: usize = 0;
        while i < self.items.len()
            invariant
                i <= n,
                n == self.items@.len(),
                p == is_main(self@.items),
                find::first_from(p, 0, n) == find::first_from(p, i as int, n),
            decreases n - i,
        {
            let d = &self.items[i];
            assert(self@.items[i as int] == d@);
            if str_eq(d.name.as_str(), "main") && is_concrete_fn(&d.def) {
                assert(p(i as int));
                return Some(i);
            }
            assert(!p(i as int));
            i = i + 1;
        }
        None
    }

    fn find_callable(&self, from: usize) -> (r: Option<usize>)
        requires
            from <= self.items@.len(),
        ensures
            match find::first_from(is_callable(self@.items), from as int, self@.items.len() as int) {
                Some(i) => r is Some && r->0 == i && 0 <= i < self.items@.len(),
                None => r is None,
            },
    {
        let ghost p = is_callable(self@.items);
        let ghost n = self.items@.len() as int;
        let mut i: usize = from;
        while i < self.items.len()
            invariant
                i <= n,
                n == self.items@.len(),
                p == is_callable(self@.items),
                find::first_from(p, from as int, n) == find::first_from(p, i as int, n),
            decreases n - i,
        {
            assert(self@.items[i as int] == self.items@[i as int]@);
            if is_concrete_fn(&self.items[i].def) {
                assert(p(i as int));
                return Some(i);
            }
            assert(!p(i as int));
            i = i + 1;
        }
        None
    }

    fn find_root(&self, entry: &str) -> (r: Option<usize>)
        ensures
            match root_of(self@.main_path, self@.items, entry@) {
                Some(i) => r is Some && r->0 == i && 0 <= i < self.items@.len(),
                None => r is None,
            },
    {
        if entry.unicode_len() > 0 {
            return self.find_answer(entry);
        }
        match self.find_main() {
            Some(i) => Some(i),
            None => match self.find_callable(0) {
                Some(i) => {
                    let n = self.items.len();
                    assert(i < n);
                    if self.find_callable(i + 1).is_none() {
                        Some(i)
                    } else {
                        None
                    }
                },
                None => None,
            },
        }
    }
}

/// The hashes that a build starts from: that of its root, else all.
pub open spec fn roots_of(
    path: Seq<char>,
    v: Seq<LoadedItem>,
    hashes: Seq<Seq<u8>>,
    entry: Seq<char>,
) -> Seq<Seq<u8>> {
    match root_of(path, v, entry) {
        Some(i) => seq![hashes[i]],
        None => hashes,
    }
}

/// The hashes that a build starts from.
pub fn root_hashes(loaded: &Loaded, hashes: &Vec<crate::ir::Hash>, entry: &str) -> (r: Vec<crate::ir::Hash>)
    requires
        hashes@.len() == loaded.items@.len(),
    ensures
        ir::hashes_view(r@) == roots_of(
            loaded@.main_path,
            loaded@.items,
            ir::hashes_view(hashes@),
            entry@,
        ),
{
    match loaded.find_root(entry) {
        Some(i) => {
            let mut out: Vec<crate::ir::Hash> = Vec::new();
            out.push(hashes[i]);
            assert(ir::hashes_view(out@) =~= seq![ir::hashes_view(hashes@)[i as int]]);
            out
        },
        None => clone_hashes(hashes),
    }
}

/// What a content store makes of a definition: its content hash, the definition
/// with its references resolved, and what it refers to.
#[derive(Debug, PartialEq, Eq)]
pub struct ResolvedDef {
    pub hash: crate::ir::Hash,
    pub def: Def,
    pub deps: Vec<crate::ir::Hash>,
}

/// A program by content hashes.
#[derive(Debug, PartialEq, Eq)]
pub struct PinnedProgram {
    pub defs: Vec<PinnedDef>,
    pub aliases: Vec<(String, crate::ir::Hash)>,
    pub world: World,
}

/// A hash as written.
pub open spec fn b3_text(h: Seq<u8>) -> Seq<char> {
    "b3:"@ + ops::hex_view(h)
}

/// Hashes as written.
pub open spec fn b3_texts(v: Seq<Seq<u8>>) -> Seq<Seq<char>> {
    Seq::new(v.len(), |i: int| b3_text(v[i]))
}

fn write_hashes(v: &Vec<crate::ir::Hash>) -> (r: Vec<String>)
    ensures
        text::strings_view(r@) == b3_texts(ir::hashes_view(v@)),
{
    let mut out: Vec<String> = Vec::new();
    let mut i: usize = 0;
    while i < v.len()
        invariant
            i <= v@.len(),
            out@.len() == i,
            forall|k: int| 0 <= k < i ==> #[trigger] out@[k]@ == b3_text(v@[k]@),
        decreases v@.len() - i,
    {
        out.push(v[i].to_b3());
        i = i + 1;
    }
    assert(text::strings_view(out@) =~= b3_texts(ir::hashes_view(v@)));
    out
}

/// A resolved definition as one that is stored.
pub open spec fn local_of(path: Seq<char>, d: LoadedItem, x: ResolvedDef) -> StoredView {
    StoredView {
        hash: b3_text(x.hash@),
        name: qualified_name(path, d.name),
        def: x.def@,
        meta: d.meta,
        deps: b3_texts(ir::hashes_view(x.deps@)),
        reviewed: false,
    }
}

pub open spec fn locals_of(path: Seq<char>, v: Seq<LoadedItem>, x: Seq<ResolvedDef>) -> Seq<
    StoredView,
> {
    Seq::new(v.len(), |i: int| local_of(path, v[i], x[i]))
}

/// The names that the first `n` definitions go by, each bare and under the main
/// module.
pub open spec fn pinned_names(
    path: Seq<char>,
    v: Seq<LoadedItem>,
    x: Seq<ResolvedDef>,
    n: nat,
) -> Seq<(Seq<char>, Seq<u8>)>
    decreases n,
{
    if n == 0 {
        Seq::empty()
    } else {
        pinned_names(path, v, x, (n - 1) as nat).push((v[n - 1].name, x[n - 1].hash@)).push(
            (qualified_name(path, v[n - 1].name), x[n - 1].hash@),
        )
    }
}

/// The content hashes of resolved definitions.
pub open spec fn content_hashes(x: Seq<ResolvedDef>) -> Seq<Seq<u8>> {
    Seq::new(x.len(), |i: int| x[i].hash@)
}

/// The definitions that a build of a program by content hashes takes.
pub open spec fn pinned_s(
    l: LoadedView,
    x: Seq<ResolvedDef>,
    store: Seq<StoredView>,
    entry: Seq<char>,
) -> Result<Seq<PinView>, Seq<char>> {
    visited(
        locals_of(l.main_path, l.items, x),
        store,
        b3_texts(roots_of(l.main_path, l.items, content_hashes(x), entry)),
        Seq::empty(),
        Seq::empty(),
    )
}

/// The program by content hashes that a build takes: what its root leads to, by
/// the definitions of the program and those of a store.
pub fn pin_loaded(
    loaded: &Loaded,
    resolved: &Vec<ResolvedDef>,
    store: &Vec<StoredDef>,
    entry: &str,
) -> (r: Result<PinnedProgram, String>)
    requires
        resolved@.len() == loaded.items@.len(),
    ensures
        match pinned_s(loaded@, resolved@, stored_view(store@), entry@) {
            Ok(v) => r is Ok && metas::pins_view((r->Ok_0).defs@) == v && hashed::aliases_view(
                (r->Ok_0).aliases@,
            ) == pinned_names(loaded@.main_path, loaded@.items, resolved@, resolved@.len())
                && (r->Ok_0).world@ == metas::world_of_pins(v, v.len()),
            Err(e) => r is Err && r->Err_0@ == e,
        },
{
    let ghost path = loaded@.main_path;
    let ghost v = loaded@.items;
    let mut local: Vec<StoredDef> = Vec::new();
    let mut aliases: Vec<(String, crate::ir::Hash)> = Vec::new();
    let mut hashes: Vec<crate::ir::Hash> = Vec::new();
    let mut i: usize = 0;
    assert(hashed::aliases_view(aliases@) =~= Seq::empty());
    while i < loaded.items.len()
        invariant
            i <= loaded.items@.len(),
            resolved@.len() == loaded.items@.len(),
            path == loaded@.main_path,
            v == loaded@.items,
            local@.len() == i,
            hashes@.len() == i,
            forall|k: int|
                0 <= k < i ==> #[trigger] local@[k]@ == local_of(path, v[k], resolved@[k]),
            forall|k: int| 0 <= k < i ==> #[trigger] hashes@[k]@ == resolved@[k].hash@,
            hashed::aliases_view(aliases@) == pinned_names(path, v, resolved@, i as nat),
        decreases loaded.items@.len() - i,
    {
        let d = &loaded.items[i];
        let x = &resolved[i];
        assert(v[i as int] == d@);
        let qualified = qualify_name(loaded.main_path.as_str(), d.name.as_str());
        let ghost before = hashed::aliases_view(aliases@);
        aliases.push((d.name.clone(), x.hash));
        aliases.push((qualified.clone(), x.hash));
        assert(hashed::aliases_view(aliases@) =~= before.push((d.name@, x.hash@)).push(
            (qualified@, x.hash@),
        ));
        let s = StoredDef {
            hash: x.hash.to_b3(),
            name: qualified,
            def: x.def.clone(),
            meta: d.meta.clone(),
            deps: write_hashes(&x.deps),
            reviewed: false,
        };
        assert(s@ == local_of(path, d@, *x));
        local.push(s);
        hashes.push(x.hash);
        i = i + 1;
    }
    assert(stored_view(local@) =~= locals_of(path, v, resolved@));
    assert(ir::hashes_view(hashes@) =~= content_hashes(resolved@));
    let roots = root_hashes(loaded, &hashes, entry);
    let written = write_hashes(&roots);
    let defs = match visit_pinned(&written, &local, store) {
        Ok(defs) => defs,
        Err(e) => {
            return Err(e);
        },
    };
    let world = world_for_pinned(&defs);
    assert(metas::pins_view(defs@).len() == defs@.len());
    Ok(PinnedProgram { defs, aliases, world })
}

impl PinnedProgram {
    /// The definitions as a backend takes them.
    pub fn defs_for_backend(&self) -> (r: Vec<(crate::ir::Hash, String, Def)>)
        ensures
            hashed::hashed_view(r@) == Seq::new(
                self.defs@.len(),
                |i: int| (self.defs@[i].hash@, self.defs@[i].name@, self.defs@[i].def@),
            ),
    {
        let mut out: Vec<(crate::ir::Hash, String, Def)> = Vec::new();
        let mut i: usize = 0;
        while i < self.defs.len()
            invariant
                i <= self.defs@.len(),
                out@.len() == i,
                forall|k: int|
                    0 <= k < i ==> (#[trigger] out@[k]).0@ == self.defs@[k].hash@ && out@[k].1@
                        == self.defs@[k].name@ && out@[k].2@ == self.defs@[k].def@,
            decreases self.defs@.len() - i,
        {
            let d = &self.defs[i];
            out.push((d.hash, d.name.clone(), d.def.clone()));
            i = i + 1;
        }
        assert(hashed::hashed_view(out@) =~= Seq::new(
            self.defs@.len(),
            |i: int| (self.defs@[i].hash@, self.defs@[i].name@, self.defs@[i].def@),
        ));
        out
    }
}

} // verus!
