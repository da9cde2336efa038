//! Types and hashes as they appear in messages.
use vstd::prelude::*;
use vstd::string::*;

use crate::ir;
use crate::ir::{EffectRow, EffectView, FloatTy, IntTy, Type, TypeView};
use crate::ops;
use crate::text;
use crate::text::push_decimal;

verus! {

/// The first `n` characters of a text.
pub open spec fn prefix(t: Seq<char>, n: nat) -> Seq<char> {
    if n <= t.len() {
        t.take(n as int)
    } else {
        t
    }
}

/// The first `n` characters of a text.
pub fn prefix_of(t: &str, n: usize) -> (r: String)
    ensures
        r@ == prefix(t@, n as nat),
{
    let len = t.unicode_len();
    let mut out = String::new();
    let mut i: usize = 0;
    assert(out@ =~= t@.take(0));
    while i < n && i < len
        invariant
            i <= n,
            i <= len,
            len == t@.len(),
            out@ == t@.take(i as int),
        decreases n - i,
    {
        out.push(t.get_char(i));
        assert(out@ =~= t@.take(i + 1));
        i = i + 1;
    }
    assert(out@ =~= prefix(t@, n as nat));
    out
}

/// A hash, by its first digits.
pub open spec fn hash_text(h: Seq<u8>) -> Seq<char> {
    "crate::ir::Hash("@ + prefix(ops::hex_view(h), 16) + "\u{2026})"@
}

/// A hash, by its first digits.
pub fn show_hash(h: &crate::ir::Hash) -> (r: String)
    ensures
        r@ == hash_text(h@),
{
    let hex = h.to_hex();
    let short = prefix_of(hex.as_str(), 16);
    let mut s = "crate::ir::Hash(".to_owned();
    s.append(short.as_str());
    s.append("\u{2026})");
    s
}

/// The first `n` hashes, separated by commas.
pub open spec fn hashes_text(v: Seq<Seq<u8>>, n: nat) -> Seq<char>
    decreases n,
{
    if n == 0 {
        Seq::empty()
    } else if n == 1 {
        hash_text(v[0])
    } else {
        hashes_text(v, (n - 1) as nat) + ", "@ + hash_text(v[n - 1])
    }
}

fn show_hashes(v: &Vec<crate::ir::Hash>) -> (r: String)
    ensures
        r@ == hashes_text(ir::hashes_view(v@), v@.len()),
{
    let ghost hv = ir::hashes_view(v@);
    let mut s = String::new();
    let mut i: usize = 0;
    assert(s@ =~= Seq::empty());
    while i < v.len()
        invariant
            i <= v@.len(),
            hv == ir::hashes_view(v@),
            s@ == hashes_text(hv, i as nat),
        decreases v@.len() - i,
    {
        if i > 0 {
            s.append(", ");
        }
        assert(hv[i as int] == v@[i as int]@);
        let h = show_hash(&v[i]);
        s.append(h.as_str());
        assert(s@ =~= hashes_text(hv, (i + 1) as nat));
        i = i + 1;
    }
    s
}

/// The name of an integer type.
pub open spec fn int_text(t: IntTy) -> Seq<char> {
    match t {
        IntTy::I8 => "I8"@,
        IntTy::I16 => "I16"@,
        IntTy::I32 => "I32"@,
        IntTy::I64 => "I64"@,
        IntTy::Isize => "Isize"@,
        IntTy::U8 => "U8"@,
        IntTy::U16 => "U16"@,
        IntTy::U32 => "U32"@,
        IntTy::U64 => "U64"@,
        IntTy::Usize => "Usize"@,
    }
}

fn show_int(t: IntTy) -> (r: &'static str)
    ensures
        r@ == int_text(t),
{
    match t {
        IntTy::I8 => "I8",
        IntTy::I16 => "I16",
        IntTy::I32 => "I32",
        IntTy::I64 => "I64",
        IntTy::Isize => "Isize",
        IntTy::U8 => "U8",
        IntTy::U16 => "U16",
        IntTy::U32 => "U32",
        IntTy::U64 => "U64",
        IntTy::Usize => "Usize",
    }
}

/// The name of a floating-point type.
pub open spec fn float_text(t: FloatTy) -> Seq<char> {
    match t {
        FloatTy::F32 => "F32"@,
        FloatTy::F64 => "F64"@,
    }
}

fn show_float(t: FloatTy) -> (r: &'static str)
    ensures
        r@ == float_text(t),
{
    match t {
        FloatTy::F32 => "F32",
        FloatTy::F64 => "F64",
    }
}

/// A truth value.
pub open spec fn bool_text(b: bool) -> Seq<char> {
    if b {
        "true"@
    } else {
        "false"@
    }
}

/// A truth value.
pub fn show_bool(b: bool) -> (r: &'static str)
    ensures
        r@ == bool_text(b),
{
    if b {
        "true"
    } else {
        "false"
    }
}

/// An effect row.
pub open spec fn row_text(e: EffectView) -> Seq<char> {
    "EffectRow { caps: ["@ + hashes_text(e.caps, e.caps.len()) + "], errors: ["@ + hashes_text(
        e.errors,
        e.errors.len(),
    ) + "] }"@
}

fn show_row(e: &EffectRow) -> (r: String)
    ensures
        r@ == row_text(e@),
{
    let caps = show_hashes(&e.caps);
    let errors = show_hashes(&e.errors);
    let mut s = "EffectRow { caps: [".to_owned();
    s.append(caps.as_str());
    s.append("], errors: [");
    s.append(errors.as_str());
    s.append("] }");
    s
}

/// A type, as it is built.
pub open spec fn type_text(t: TypeView) -> Seq<char>
    decreases t, 0nat,
{
    match t {
        TypeView::Unit => "Unit"@,
        TypeView::Bool => "Bool"@,
        TypeView::Int(i) => "Int("@ + int_text(i) + ")"@,
        TypeView::Float(f) => "Float("@ + float_text(f) + ")"@,
        TypeView::Str => "Str"@,
        TypeView::Char => "Char"@,
        TypeView::Array(of, n) => "Array("@ + type_text(*of) + ", "@ + text::decimal(n as nat) + ")"@,
        TypeView::Slice(of) => "Slice("@ + type_text(*of) + ")"@,
        TypeView::Tuple(v) => "Tuple(["@ + types_text(v, v.len()) + "])"@,
        TypeView::Arrow { param, ret, effects } => "Arrow { param: "@ + type_text(*param) + ", ret: "@
            + type_text(*ret) + ", effects: "@ + row_text(effects) + " }"@,
        TypeView::Nominal { def, args } => "Nominal { def: "@ + hash_text(def) + ", args: ["@
            + types_text(args, args.len()) + "] }"@,
        TypeView::Ref { mutable, of } => "Ref { mutable: "@ + bool_text(mutable) + ", of: "@
            + type_text(*of) + " }"@,
        TypeView::Linear(of) => "Linear("@ + type_text(*of) + ")"@,
        TypeView::Var(i) => "Var("@ + text::decimal(i as nat) + ")"@,
    }
}

/// The first `n` types, separated by commas.
pub open spec fn types_text(v: Seq<TypeView>, n: nat) -> Seq<char>
    decreases v, n,
{
    if n == 0 || n > v.len() {
        Seq::empty()
    } else if n == 1 {
        type_text(v[0])
    } else {
        types_text(v, (n - 1) as nat) + ", "@ + type_text(v[n - 1])
    }
}

/// A type, as it is built.
pub fn show_built_type(t: &Type) -> (r: String)
    ensures
        r@ == type_text(t@),
    decreases t, 0nat,
{
    broadcast use ir::lemma_types_view;

    match t {
        Type::Unit => "Unit".to_owned(),
        Type::Bool => "Bool".to_owned(),
        Type::Int(i) => {
            let mut s = "Int(".to_owned();
            s.append(show_int(*i));
            s.append(")");
            s
        },
        Type::Float(f) => {
            let mut s = "Float(".to_owned();
            s.append(show_float(*f));
            s.append(")");
            s
        },
        Type::Str => "Str".to_owned(),
        Type::Char => "Char".to_owned(),
        Type::Array(of, n) => {
            let inner = show_built_type(of);
            let mut s = "Array(".to_owned();
            s.append(inner.as_str());
            s.append(", ");
            push_decimal(&mut s, *n);
            s.append(")");
            s
        },
        Type::Slice(of) => {
            let inner = show_built_type(of);
            let mut s = "Slice(".to_owned();
            s.append(inner.as_str());
            s.append(")");
            s
        },
        Type::Tuple(v) => {
            let inner = show_built_types(v);
            let mut s = "Tuple([".to_owned();
            s.append(inner.as_str());
            s.append("])");
            s
        },
        Type::Arrow { param, ret, effects } => {
            let p = show_built_type(param);
            let q = show_built_type(ret);
            let e = show_row(effects);
            let mut s = "Arrow { param: ".to_owned();
            s.append(p.as_str());
            s.append(", ret: ");
            s.append(q.as_str());
            s.append(", effects: ");
            s.append(e.as_str());
            s.append(" }");
            s
        },
        Type::Nominal { def, args } => {
            let h = show_hash(def);
            let inner = show_built_types(args);
            let mut s = "Nominal { def: ".to_owned();
            s.append(h.as_str());
            s.append(", args: [");
            s.append(inner.as_str());
            s.append("] }");
            s
        },
        Type::Ref { mutable, of } => {
            let inner = show_built_type(of);
            let mut s = "Ref { mutable: ".to_owned();
            s.append(show_bool(*mutable));
            s.append(", of: ");
            s.append(inner.as_str());
            s.append(" }");
            s
        },
        Type::Linear(of) => {
            let inner = show_built_type(of);
            let mut s = "Linear(".to_owned();
            s.append(inner.as_str());
            s.append(")");
            s
        },
        Type::Var(i) => {
            let mut s = "Var(".to_owned();
            push_decimal(&mut s, *i as u64);
            s.append(")");
            s
        },
    }
}

fn show_built_types(v: &Vec<Type>) -> (r: String)
    ensures
        r@ == types_text(ir::types_view(v@), v@.len()),
    decreases v@, 0nat,
{
    broadcast use ir::lemma_types_view;

    let ghost tv = ir::types_view(v@);
    let mut s = String::new();
    let mut i: usize = 0;
    assert(s@ =~= Seq::empty());
    while i < v.len()
        invariant
            i <= v@.len(),
            tv == ir::types_view(v@),
            tv.len() == v@.len(),
            s@ == types_text(tv, i as nat),
        decreases v@.len() - i,
    {
        if i > 0 {
            s.append(", ");
        }
        assert(tv[i as int] == v@[i as int]@);
        let t = show_built_type(&v[i]);
        s.append(t.as_str());
        assert(s@ =~= types_text(tv, (i + 1) as nat));
        i = i + 1;
    }
    s
}

} // verus!
