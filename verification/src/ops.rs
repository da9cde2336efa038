//! Operations on the Core data model: hash spellings, effect rows, contract
//! expressions and generic types.
use vstd::prelude::*;
use vstd::string::*;

use crate::ir;
use crate::ir::{Atom, AtomView, CExpr, CExprView, CNode, EffectRow, EffectView, Literal, LiteralView, Type, TypeView};
use crate::text;

verus! {

// ---- hash spellings ----------------------------------------------------------

/// The lower-case hexadecimal spelling of a byte string, two digits per byte.
pub open spec fn hex_view(b: Seq<u8>) -> Seq<char> {
    Seq::new(
        2 * b.len(),
        |i: int|
            if i % 2 == 0 {
                text::digit_char(b[i / 2] as int / 16)
            } else {
                text::digit_char(b[i / 2] as int % 16)
            },
    )
}

/// The value of a hexadecimal digit of either case, if the character is one.
pub open spec fn digit_value(c: char) -> Option<int> {
    if '0' <= c <= '9' {
        Some(c as int - '0' as int)
    } else if 'a' <= c <= 'f' {
        Some(c as int - 'a' as int + 10)
    } else if 'A' <= c <= 'F' {
        Some(c as int - 'A' as int + 10)
    } else {
        None
    }
}

/// What follows the `b3:` tag, or the whole text where there is no such tag.
pub open spec fn b3_body(s: Seq<char>) -> Seq<char> {
    if s.len() >= 3 && s[0] == 'b' && s[1] == '3' && s[2] == ':' {
        s.skip(3)
    } else {
        s
    }
}

/// The 32 bytes that a hexadecimal text spells, if it spells that many.
pub open spec fn hex_bytes(s: Seq<char>) -> Option<Seq<u8>> {
    if s.len() == 64 && (forall|i: int| 0 <= i < 64 ==> digit_value(#[trigger] s[i]) is Some) {
        Some(
            Seq::new(
                32,
                |i: int| (digit_value(s[2 * i])->0 * 16 + digit_value(s[2 * i + 1])->0) as u8,
            ),
        )
    } else {
        None
    }
}

/// The value of a hexadecimal digit of either case, if the character is one.
pub fn hex_value(c: char) -> (r: Option<u8>)
    ensures
        match digit_value(c) {
            Some(v) => r is Some && r->0 == v && 0 <= v < 16,
            None => r is None,
        },
{
    if '0' <= c && c <= '9' {
        Some((c as u32 - '0' as u32) as u8)
    } else if 'a' <= c && c <= 'f' {
        Some((c as u32 - 'a' as u32 + 10) as u8)
    } else if 'A' <= c && c <= 'F' {
        Some((c as u32 - 'A' as u32 + 10) as u8)
    } else {
        None
    }
}

/// Reading a hash back from its wire spelling gives the same hash.
pub proof fn lemma_b3_round_trip(h: Seq<u8>)
    requires
        h.len() == 32,
    ensures
        hex_bytes(b3_body("b3:"@ + hex_view(h))) == Some(h),
        hex_bytes(b3_body(hex_view(h))) == Some(h),
{
    reveal_strlit("b3:");
    let x = hex_view(h);
    assert(b3_body("b3:"@ + x) =~= x);
    // a bare spelling never carries the tag: a colon is no digit
    assert(x[2] != ':');
    assert forall|i: int| 0 <= i < 64 implies digit_value(#[trigger] x[i]) is Some by {}
    let r = hex_bytes(x)->0;
    assert forall|i: int| 0 <= i < 32 implies #[trigger] r[i] == h[i] by {
        assert(x[2 * i] == text::digit_char(h[i] as int / 16));
        assert(x[2 * i + 1] == text::digit_char(h[i] as int % 16));
    }
    assert(r =~= h);
}

/// Different hashes have different spellings.
pub proof fn lemma_hex_injective(a: Seq<u8>, b: Seq<u8>)
    requires
        a.len() == 32,
        b.len() == 32,
        hex_view(a) == hex_view(b),
    ensures
        a == b,
{
    lemma_b3_round_trip(a);
    lemma_b3_round_trip(b);
}

// ---- types --------------------------------------------------------------------

/// Whether a type mentions a generic variable anywhere.
pub open spec fn polymorphic(t: TypeView) -> bool
    decreases t, 0nat,
{
    match t {
        TypeView::Var(_) => true,
        TypeView::Array(of, _) => polymorphic(*of),
        TypeView::Slice(of) => polymorphic(*of),
        TypeView::Ref { mutable, of } => polymorphic(*of),
        TypeView::Linear(of) => polymorphic(*of),
        TypeView::Tuple(items) => some_polymorphic(items, items.len()),
        TypeView::Arrow { param, ret, effects } => polymorphic(*param) || polymorphic(*ret),
        TypeView::Nominal { def, args } => some_polymorphic(args, args.len()),
        _ => false,
    }
}

/// Whether one of the first `n` types mentions a generic variable.
pub open spec fn some_polymorphic(v: Seq<TypeView>, n: nat) -> bool
    decreases v, n,
{
    0 < n <= v.len() && (some_polymorphic(v, (n - 1) as nat) || polymorphic(v[n - 1]))
}

impl Type {
    /// Whether this type mentions a generic variable anywhere: it is then the
    /// signature of a template, which has no run-time representation.
    pub fn is_polymorphic(&self) -> (r: bool)
        ensures
            r == polymorphic(self@),
        decreases self,
    {
        match self {
            Type::Var(_) => true,
            Type::Unit => false,
            Type::Bool => false,
            Type::Int(_) => false,
            Type::Float(_) => false,
            Type::Str => false,
            Type::Char => false,
            Type::Array(of, _) => of.is_polymorphic(),
            Type::Slice(of) => of.is_polymorphic(),
            Type::Ref { mutable: _, of } => of.is_polymorphic(),
            Type::Linear(of) => of.is_polymorphic(),
            Type::Tuple(items) => any_polymorphic(items),
            Type::Arrow { param, ret, effects: _ } => {
                let p = param.is_polymorphic();
                let r = ret.is_polymorphic();
                p || r
            },
            Type::Nominal { def: _, args } => any_polymorphic(args),
        }
    }
}

/// Whether some type of the list mentions a generic variable.
pub fn any_polymorphic(items: &Vec<Type>) -> (r: bool)
    ensures
        r == some_polymorphic(ir::types_view(items@), items@.len()),
        items@.len() == ir::types_view(items@).len(),
    decreases items@,
{
    broadcast use ir::lemma_types_view;

    let mut found = false;
    let mut i: usize = 0;
    while i < items.len()
        invariant
            i <= items@.len(),
            found == some_polymorphic(ir::types_view(items@), i as nat),
        decreases items@.len() - i,
    {
        let p = items[i].is_polymorphic();
        assert(ir::types_view(items@)[i as int] == items@[i as int]@);
        found = found || p;
        i = i + 1;
    }
    found
}

impl EffectRow {
    /// The row of a pure computation.
    pub fn empty() -> (r: EffectRow)
        ensures
            r@ == EffectView::pure(),
    {
        let r = EffectRow { caps: Vec::new(), errors: Vec::new() };
        assert(r@.caps =~= Seq::empty());
        assert(r@.errors =~= Seq::empty());
        r
    }

    /// Whether this is the row of a pure computation.
    pub fn is_empty(&self) -> (r: bool)
        ensures
            r == (self@ == EffectView::pure()),
    {
        let r = self.caps.len() == 0 && self.errors.len() == 0;
        proof {
            if r {
                assert(self@.caps =~= Seq::empty());
                assert(self@.errors =~= Seq::empty());
            } else {
                assert(self@.caps.len() == self.caps@.len());
                assert(self@.errors.len() == self.errors@.len());
            }
        }
        r
    }
}

impl Default for EffectRow {
    fn default() -> (r: EffectRow)
        ensures
            r@ == EffectView::pure(),
    {
        EffectRow::empty()
    }
}

impl CExpr {
    /// A variable.
    pub fn var(i: u32) -> (r: CExpr)
        ensures
            r@ == CExprView::Atom(AtomView::Var(i)),
    {
        CExpr::Atom(Atom::Var(i))
    }

    /// An integer literal.
    pub fn integer(n: i64) -> (r: CExpr)
        ensures
            r@ == CExprView::Atom(AtomView::Lit(LiteralView::Int(n))),
    {
        CExpr::Atom(Atom::Lit(Literal::Int(n)))
    }

    /// A compound expression.
    pub fn node(n: CNode) -> (r: CExpr)
        ensures
            r@ == n@,
    {
        CExpr::Node(Box::new(n))
    }
}

impl vstd::std_specs::convert::FromSpecImpl<Atom> for CExpr {
    open spec fn obeys_from_spec() -> bool {
        true
    }

    open spec fn from_spec(a: Atom) -> CExpr {
        CExpr::Atom(a)
    }
}

impl From<Atom> for CExpr {
    fn from(a: Atom) -> (r: CExpr) {
        CExpr::Atom(a)
    }
}

} // verus!
