//! Operations on surface types: spelling, substitution and matching.
use vstd::prelude::*;
use vstd::string::*;

use crate::syntax;
use crate::syntax::{Generic, SType, STypeView};
use crate::text;
use crate::text::{clone_strings, contains_string, join, push_decimal, str_eq};

verus! {

// ---- spelling ----------------------------------------------------------------------

/// The canonical spelling of a surface type.
pub open spec fn type_key_view(t: STypeView) -> Seq<char>
    decreases t, 0nat,
{
    match t {
        STypeView::Unit => "()"@,
        STypeView::Named(p) => text::join_view(p, "."@),
        STypeView::Generic { path, args } => text::join_view(path, "."@) + "["@ + type_keys_view(
            args,
            args.len(),
        ) + "]"@,
        STypeView::Slice(e) => "[]"@ + type_key_view(*e),
        STypeView::Array { len, elem } => "["@ + text::decimal(len as nat) + "]"@ + type_key_view(*elem),
        STypeView::Ref { mutable, inner } => if mutable {
            "&mut "@ + type_key_view(*inner)
        } else {
            "&"@ + type_key_view(*inner)
        },
        STypeView::ErrorUnion(o) => match o {
            Some(e) => "!"@ + type_key_view(*e),
            None => "!"@,
        },
        STypeView::Optional(e) => "?"@ + type_key_view(*e),
    }
}

/// The spellings of the first `n` types, with commas between them.
pub open spec fn type_keys_view(v: Seq<STypeView>, n: nat) -> Seq<char>
    decreases v, n,
{
    if n == 0 || n > v.len() {
        Seq::empty()
    } else if n == 1 {
        type_key_view(v[0])
    } else {
        type_keys_view(v, (n - 1) as nat) + ","@ + type_key_view(v[n - 1])
    }
}

/// The canonical spelling of a surface type, used to name instances and to
/// find implementations.
pub fn type_key(t: &SType) -> (r: String)
    ensures
        r@ == type_key_view(t@),
    decreases t,
{
    broadcast use syntax::lemma_stypes_view;

    match t {
        SType::Unit => "()".to_owned(),
        SType::Named(p) => join(p, "."),
        SType::Generic { path, args } => {
            let mut s = join(path, ".");
            s.append("[");
            s.append(type_key_args(args).as_str());
            s.append("]");
            s
        },
        SType::Slice(e) => {
            let mut s = "[]".to_owned();
            s.append(type_key(e).as_str());
            s
        },
        SType::Array { len, elem } => {
            let mut s = "[".to_owned();
            push_decimal(&mut s, *len);
            s.append("]");
            s.append(type_key(elem).as_str());
            s
        },
        SType::Ref { mutable, inner } => {
            let mut s = if *mutable {
                "&mut ".to_owned()
            } else {
                "&".to_owned()
            };
            s.append(type_key(inner).as_str());
            s
        },
        SType::ErrorUnion(o) => match o {
            Some(e) => {
                let mut s = "!".to_owned();
                s.append(type_key(e).as_str());
                s
            },
            None => "!".to_owned(),
        },
        SType::Optional(e) => {
            let mut s = "?".to_owned();
            s.append(type_key(e).as_str());
            s
        },
    }
}

/// The spellings of a list of types, with commas between them.
pub fn type_key_args(args: &Vec<SType>) -> (r: String)
    ensures
        r@ == type_keys_view(syntax::stypes_view(args@), args@.len()),
    decreases args@,
{
    broadcast use syntax::lemma_stypes_view;

    let mut s = String::new();
    let mut i: usize = 0;
    while i < args.len()
        invariant
            i <= args@.len(),
            s@ == type_keys_view(syntax::stypes_view(args@), i as nat),
        decreases args@.len() - i,
    {
        let k = type_key(&args[i]);
        assert(syntax::stypes_view(args@)[i as int] == args@[i as int]@);
        if i > 0 {
            s.append(",");
        }
        s.append(k.as_str());
        proof {
            if i == 0 {
                assert(s@ =~= k@);
            }
        }
        i = i + 1;
    }
    s
}

// ---- references and names ------------------------------------------------------------

/// A type without its outer references.
pub open spec fn peel_view(t: STypeView) -> STypeView
    decreases t,
{
    match t {
        STypeView::Ref { mutable, inner } => peel_view(*inner),
        _ => t,
    }
}

/// A type without its outer references.
pub fn peel_ref_ty(t: &SType) -> (r: &SType)
    ensures
        r@ == peel_view(t@),
    decreases t,
{
    match t {
        SType::Ref { mutable: _, inner } => peel_ref_ty(inner),
        _ => t,
    }
}

/// The single-segment name that a type refers to through its references.
pub open spec fn struct_name_view(t: STypeView) -> Option<Seq<char>>
    decreases t,
{
    match t {
        STypeView::Named(p) => if p.len() == 1 {
            Some(p[0])
        } else {
            None
        },
        STypeView::Ref { mutable, inner } => struct_name_view(*inner),
        _ => None,
    }
}

/// The single-segment name that a type refers to through its references.
pub fn struct_name(t: &SType) -> (r: Option<String>)
    ensures
        match struct_name_view(t@) {
            Some(n) => r is Some && r->0@ == n,
            None => r is None,
        },
    decreases t,
{
    match t {
        SType::Named(p) => if p.len() == 1 {
            Some(p[0].clone())
        } else {
            None
        },
        SType::Ref { mutable: _, inner } => struct_name(inner),
        _ => None,
    }
}

/// A name as a type.
pub open spec fn named_view(n: Seq<char>) -> STypeView {
    STypeView::Named(seq![n])
}

/// A name as a type.
pub fn named(n: &str) -> (r: SType)
    ensures
        r@ == named_view(n@),
{
    let mut p: Vec<String> = Vec::new();
    p.push(n.to_owned());
    assert(text::strings_view(p@) =~= seq![n@]);
    SType::Named(p)
}

// ---- substitution ----------------------------------------------------------------------

/// Bindings of generic parameters, as mathematics.
pub open spec fn bindings_view(v: Seq<(String, SType)>) -> Seq<(Seq<char>, STypeView)> {
    Seq::new(v.len(), |i: int| (v[i].0@, v[i].1@))
}

/// What a parameter is bound to.
pub open spec fn bound_type(m: Seq<(Seq<char>, STypeView)>, name: Seq<char>) -> Option<STypeView>
    decreases m.len(),
{
    if m.len() == 0 {
        None
    } else {
        match bound_type(m.drop_last(), name) {
            Some(t) => Some(t),
            None => if m.last().0 == name {
                Some(m.last().1)
            } else {
                None
            },
        }
    }
}

/// What a parameter is bound to.
pub fn get_bound<'a>(m: &'a Vec<(String, SType)>, name: &str) -> (r: Option<&'a SType>)
    ensures
        match bound_type(bindings_view(m@), name@) {
            Some(t) => r is Some && r->0@ == t,
            None => r is None,
        },
{
    let ghost b = bindings_view(m@);
    let mut i: usize = 0;
    while i < m.len()
        invariant
            i <= m@.len(),
            b == bindings_view(m@),
            bound_type(b.take(i as int), name@) is None,
        decreases m@.len() - i,
    {
        assert(b.take(i + 1).drop_last() =~= b.take(i as int));
        if str_eq(m[i].0.as_str(), name) {
            proof {
                lemma_bound_prefix(b, name@, i + 1);
            }
            return Some(&m[i].1);
        }
        i = i + 1;
    }
    assert(b.take(m@.len() as int) =~= b);
    None
}

proof fn lemma_bound_prefix(m: Seq<(Seq<char>, STypeView)>, name: Seq<char>, n: int)
    requires
        0 <= n <= m.len(),
        bound_type(m.take(n), name) is Some,
    ensures
        bound_type(m, name) == bound_type(m.take(n), name),
    decreases m.len() - n,
{
    if n == m.len() {
        assert(m.take(n) =~= m);
    } else {
        assert(m.take(n + 1).drop_last() =~= m.take(n));
        lemma_bound_prefix(m, name, n + 1);
    }
}

/// A type with its parameters replaced. What replaces a parameter is itself
/// subject to replacement, `fuel` times in a row at most.
pub open spec fn subst_view(m: Seq<(Seq<char>, STypeView)>, t: STypeView, fuel: nat) -> STypeView
    decreases fuel, t, 0nat,
{
    match t {
        STypeView::Unit => t,
        STypeView::Named(p) => if p.len() == 1 {
            match bound_type(m, p[0]) {
                Some(c) => if fuel == 0 {
                    t
                } else {
                    subst_view(m, c, (fuel - 1) as nat)
                },
                None => t,
            }
        } else {
            t
        },
        STypeView::Generic { path, args } => STypeView::Generic {
            path,
            args: subst_list(m, args, args.len(), fuel),
        },
        STypeView::Slice(e) => STypeView::Slice(Box::new(subst_view(m, *e, fuel))),
        STypeView::Array { len, elem } => STypeView::Array {
            len,
            elem: Box::new(subst_view(m, *elem, fuel)),
        },
        STypeView::Ref { mutable, inner } => STypeView::Ref {
            mutable,
            inner: Box::new(subst_view(m, *inner, fuel)),
        },
        STypeView::ErrorUnion(o) => match o {
            Some(e) => STypeView::ErrorUnion(Some(Box::new(subst_view(m, *e, fuel)))),
            None => t,
        },
        STypeView::Optional(e) => STypeView::Optional(Box::new(subst_view(m, *e, fuel))),
    }
}

/// The first `n` types with their parameters replaced.
pub open spec fn subst_list(
    m: Seq<(Seq<char>, STypeView)>,
    v: Seq<STypeView>,
    n: nat,
    fuel: nat,
) -> Seq<STypeView>
    decreases fuel, v, n,
{
    if n == 0 || n > v.len() {
        Seq::empty()
    } else {
        subst_list(m, v, (n - 1) as nat, fuel).push(subst_view(m, v[n - 1], fuel))
    }
}

/// A type with its parameters replaced; the bindings are followed as often as
/// there are bindings, which suffices where they are not circular.
pub fn subst_surface(m: &Vec<(String, SType)>, t: &SType, fuel: usize) -> (r: SType)
    ensures
        r@ == subst_view(bindings_view(m@), t@, fuel as nat),
    decreases fuel, t,
{
    broadcast use syntax::lemma_stypes_view;

    match t {
        SType::Unit => SType::Unit,
        SType::Named(p) => {
            if p.len() == 1 {
                match get_bound(m, p[0].as_str()) {
                    Some(c) => {
                        if fuel == 0 {
                            t.clone()
                        } else {
                            subst_surface(m, c, fuel - 1)
                        }
                    },
                    None => t.clone(),
                }
            } else {
                t.clone()
            }
        },
        SType::Generic { path, args } => SType::Generic {
            path: clone_strings(path),
            args: subst_surfaces(m, args, fuel),
        },
        SType::Slice(e) => SType::Slice(Box::new(subst_surface(m, e, fuel))),
        SType::Array { len, elem } => SType::Array {
            len: *len,
            elem: Box::new(subst_surface(m, elem, fuel)),
        },
        SType::Ref { mutable, inner } => SType::Ref {
            mutable: *mutable,
            inner: Box::new(subst_surface(m, inner, fuel)),
        },
        SType::ErrorUnion(o) => match o {
            Some(e) => SType::ErrorUnion(Some(Box::new(subst_surface(m, e, fuel)))),
            None => SType::ErrorUnion(None),
        },
        SType::Optional(e) => SType::Optional(Box::new(subst_surface(m, e, fuel))),
    }
}

fn subst_surfaces(m: &Vec<(String, SType)>, v: &Vec<SType>, fuel: usize) -> (r: Vec<SType>)
    ensures
        syntax::stypes_view(r@) == subst_list(bindings_view(m@), syntax::stypes_view(v@), v@.len(), fuel as nat),
    decreases fuel, v@,
{
    broadcast use syntax::lemma_stypes_view;

    let mut out: Vec<SType> = Vec::new();
    let mut i: usize = 0;
    assert(syntax::stypes_view(out@) =~= Seq::empty());
    while i < v.len()
        invariant
            i <= v@.len(),
            syntax::stypes_view(out@) == subst_list(
                bindings_view(m@),
                syntax::stypes_view(v@),
                i as nat,
                fuel as nat,
            ),
        decreases v@.len() - i,
    {
        let t = subst_surface(m, &v[i], fuel);
        let ghost before = out@;
        out.push(t);
        assert(syntax::stypes_view(v@)[i as int] == v@[i as int]@);
        assert(syntax::stypes_view(out@) =~= syntax::stypes_view(before).push(t@));
        i = i + 1;
    }
    out
}

// ---- matching --------------------------------------------------------------------------

/// The bindings after `pat` is matched with `arg`: each generic name is bound to
/// the first type it meets, without outer references.
pub open spec fn unify_view(
    pat: STypeView,
    arg: STypeView,
    generics: Seq<Seq<char>>,
    m: Seq<(Seq<char>, STypeView)>,
) -> Seq<(Seq<char>, STypeView)>
    decreases pat, 0nat,
{
    match pat {
        STypeView::Named(p) => if p.len() == 1 && generics.contains(p[0]) && bound_type(
            m,
            p[0],
        ) is None {
            m.push((p[0], peel_view(arg)))
        } else {
            m
        },
        STypeView::Ref { mutable, inner } => unify_view(*inner, peel_view(arg), generics, m),
        STypeView::Slice(pe) => match peel_view(arg) {
            STypeView::Slice(ae) => unify_view(*pe, *ae, generics, m),
            _ => m,
        },
        STypeView::Array { len, elem } => match peel_view(arg) {
            STypeView::Array { len: _, elem: ae } => unify_view(*elem, *ae, generics, m),
            _ => m,
        },
        STypeView::Generic { path, args } => match peel_view(arg) {
            STypeView::Generic { path: _, args: aargs } => unify_list(
                args,
                aargs,
                if args.len() < aargs.len() {
                    args.len()
                } else {
                    aargs.len()
                },
                generics,
                m,
            ),
            _ => m,
        },
        STypeView::Optional(pe) => match peel_view(arg) {
            STypeView::Optional(ae) => unify_view(*pe, *ae, generics, m),
            _ => m,
        },
        _ => m,
    }
}

/// The bindings after the first `n` members are matched, one by one.
pub open spec fn unify_list(
    pats: Seq<STypeView>,
    args: Seq<STypeView>,
    n: nat,
    generics: Seq<Seq<char>>,
    m: Seq<(Seq<char>, STypeView)>,
) -> Seq<(Seq<char>, STypeView)>
    decreases pats, n,
{
    if n == 0 || n > pats.len() || n > args.len() {
        m
    } else {
        unify_view(
            pats[n - 1],
            args[n - 1],
            generics,
            unify_list(pats, args, (n - 1) as nat, generics, m),
        )
    }
}

/// Match a declared parameter type with the type of an argument, binding the
/// generic names that it meets for the first time.
pub fn unify(pat: &SType, arg: &SType, generics: &Vec<String>, m: &mut Vec<(String, SType)>)
    ensures
        bindings_view(final(m)@) == unify_view(
            pat@,
            arg@,
            text::strings_view(generics@),
            bindings_view(old(m)@),
        ),
    decreases pat,
{
    broadcast use syntax::lemma_stypes_view;

    match pat {
        SType::Named(p) => {
            if p.len() == 1 && contains_string(generics, p[0].as_str()) {
                assert(text::strings_view(p@)[0] == p@[0]@);
                if get_bound(m, p[0].as_str()).is_none() {
                    let t = peel_ref_ty(arg).clone();
                    m.push((p[0].clone(), t));
                    assert(bindings_view(m@) =~= bindings_view(old(m)@).push(
                        (p@[0]@, peel_view(arg@)),
                    ));
                }
            }
        },
        SType::Ref { mutable: _, inner } => unify(inner, peel_ref_ty(arg), generics, m),
        SType::Slice(pe) => {
            if let SType::Slice(ae) = peel_ref_ty(arg) {
                unify(pe, ae, generics, m);
            }
        },
        SType::Array { len: _, elem } => {
            if let SType::Array { len: _, elem: ae } = peel_ref_ty(arg) {
                unify(elem, ae, generics, m);
            }
        },
        SType::Generic { path: _, args } => {
            if let SType::Generic { path: _, args: aargs } = peel_ref_ty(arg) {
                let n = if args.len() < aargs.len() {
                    args.len()
                } else {
                    aargs.len()
                };
                unify_all(args, aargs, n, generics, m);
            }
        },
        SType::Optional(pe) => {
            if let SType::Optional(ae) = peel_ref_ty(arg) {
                unify(pe, ae, generics, m);
            }
        },
        _ => {},
    }
}

fn unify_all(
    pats: &Vec<SType>,
    args: &Vec<SType>,
    n: usize,
    generics: &Vec<String>,
    m: &mut Vec<(String, SType)>,
)
    requires
        n <= pats@.len(),
        n <= args@.len(),
    ensures
        bindings_view(final(m)@) == unify_list(
            syntax::stypes_view(pats@),
            syntax::stypes_view(args@),
            n as nat,
            text::strings_view(generics@),
            bindings_view(old(m)@),
        ),
    decreases pats@,
{
    broadcast use syntax::lemma_stypes_view;

    let mut i: usize = 0;
    while i < n
        invariant
            i <= n,
            n <= pats@.len(),
            n <= args@.len(),
            bindings_view(m@) == unify_list(
                syntax::stypes_view(pats@),
                syntax::stypes_view(args@),
                i as nat,
                text::strings_view(generics@),
                bindings_view(old(m)@),
            ),
        decreases n - i,
    {
        unify(&pats[i], &args[i], generics, m);
        assert(syntax::stypes_view(pats@)[i as int] == pats@[i as int]@);
        assert(syntax::stypes_view(args@)[i as int] == args@[i as int]@);
        i = i + 1;
    }
}

/// The names of generic parameters, as mathematics.
pub open spec fn generic_names_view(g: Seq<Generic>) -> Seq<Seq<char>> {
    Seq::new(g.len(), |i: int| g[i].name@)
}

/// The names of generic parameters.
pub fn generic_names(g: &Vec<Generic>) -> (r: Vec<String>)
    ensures
        text::strings_view(r@) == generic_names_view(g@),
{
    let mut out: Vec<String> = Vec::new();
    let mut i: usize = 0;
    while i < g.len()
        invariant
            i <= g@.len(),
            out@.len() == i,
            forall|k: int| 0 <= k < i ==> #[trigger] out@[k]@ == g@[k].name@,
        decreases g@.len() - i,
    {
        out.push(g[i].name.clone());
        i = i + 1;
    }
    assert(text::strings_view(out@) =~= generic_names_view(g@));
    out
}

} // verus!
