//! Core terms: their identity, their indices, and the text of their contracts.

use marv::hash::{
    content_hash, def_bytes, encode_core, symbol_bytes, symbol_hash, Encoder,
};
use marv::indices::to_indices;
use marv::ir::{
    ArithOp, Atom, CExpr, CNode, CmpOp, Core, Def, DefKind, EffectRow, IntTy, Literal, Pred, PrimOp,
    Type,
};
use marv::pred::{render_pred, render_pred_with, PredVars};

fn pure_row() -> EffectRow {
    EffectRow { caps: Vec::new(), errors: Vec::new() }
}

fn word() -> Type {
    Type::Int(IntTy::I64)
}

/// A function of one word.
fn function(effects: EffectRow, body: Core) -> Def {
    Def {
        kind: DefKind::Fn,
        ty: Type::Arrow {
            param: Box::new(word()),
            ret: Box::new(word()),
            effects: effects.clone(),
        },
        pre: Vec::new(),
        post: Vec::new(),
        body: Some(Core::Lam { param: word(), effects, body: Box::new(body) }),
    }
}

fn add(a: Atom, b: Atom) -> Core {
    Core::Prim { op: PrimOp::Add, args: vec![a, b] }
}

fn one() -> Atom {
    Atom::Lit(Literal::Int(1))
}

#[test]
fn a_symbol_hash_is_the_digest_of_its_bytes() {
    let bytes = symbol_bytes("m.f");
    assert_eq!(symbol_hash("m.f").0, *blake3::hash(&bytes).as_bytes());
    assert_ne!(symbol_hash("m.f"), symbol_hash("m.g"));
}

#[test]
fn a_content_hash_is_the_digest_of_the_definition() {
    let d = function(pure_row(), add(Atom::Var(0), one()));
    assert_eq!(content_hash(&d).0, *blake3::hash(&def_bytes(&d)).as_bytes());
    assert_eq!(d.content_hash(), content_hash(&d));
    let other = function(pure_row(), add(one(), Atom::Var(0)));
    assert_ne!(content_hash(&other), content_hash(&d));
}

#[test]
fn the_order_of_an_effect_row_is_no_part_of_the_identity() {
    let (a, b) = (symbol_hash("Net"), symbol_hash("Fs"));
    let row = |caps: Vec<marv::ir::Hash>| EffectRow { caps, errors: vec![] };
    let body = || Core::Atom(Atom::Var(0));
    assert_eq!(
        content_hash(&function(row(vec![a, b]), body())),
        content_hash(&function(row(vec![b, a]), body()))
    );
    assert_ne!(
        content_hash(&function(row(vec![a, b]), body())),
        content_hash(&function(row(vec![a]), body()))
    );
}

#[test]
fn a_hash_is_written_and_read() {
    let h = symbol_hash("m.f");
    let text = h.to_b3();
    assert!(text.starts_with("b3:") && text.len() == 67, "{text}");
    assert_eq!(marv::ir::Hash::from_b3(&text), Some(h));
    assert_eq!(marv::ir::Hash::from_b3(&h.to_hex()), Some(h));
    assert_eq!(marv::ir::Hash::from_b3(&"g".repeat(64)), None);
    assert_eq!(marv::ir::Hash::from_b3("b3:00"), None);
    assert_eq!(marv::ir::Hash([0xab; 32]).to_hex(), "ab".repeat(32));
}

#[test]
fn levels_and_indices_are_each_others_inverse() {
    let c = Core::Let {
        value: Box::new(add(Atom::Var(0), one())),
        body: Box::new(add(Atom::Var(0), Atom::Var(1))),
    };
    let indexed = to_indices(&c, 1);
    assert_eq!(
        indexed,
        Core::Let {
            value: Box::new(add(Atom::Var(0), one())),
            body: Box::new(add(Atom::Var(1), Atom::Var(0))),
        }
    );
    assert_eq!(to_indices(&indexed, 1), c);
}

fn var(i: u32) -> CExpr {
    CExpr::Atom(Atom::Var(i))
}

fn lit(l: Literal) -> CExpr {
    CExpr::Atom(Atom::Lit(l))
}

fn names(i: u32) -> String {
    ["x", "y", "z"].get(i as usize).map(|s| s.to_string()).unwrap_or(format!("v{i}"))
}

fn floats(bits: u64) -> String {
    f64::from_bits(bits).to_string()
}

#[test]
fn predicates_read_like_the_source() {
    let node = |n: CNode| CExpr::Node(Box::new(n));
    let sum = node(CNode::Bin(ArithOp::Add, var(0), var(1)));
    let p = Pred::Cmp(CmpOp::Le, sum, lit(Literal::Int(9)));
    assert_eq!(render_pred(&p, &names, &floats), "(x + y) <= 9");
    let read = node(CNode::Index(var(0), node(CNode::Neg(lit(Literal::Int(1))))));
    let p = Pred::Not(Box::new(Pred::Cmp(CmpOp::Ne, read, node(CNode::Len(var(2))))));
    assert_eq!(render_pred(&p, &names, &floats), "not x[-1] != len(z)");
    let both = Pred::And(Box::new(Pred::True), Box::new(Pred::False));
    assert_eq!(render_pred(&both, &names, &floats), "(true and false)");
}

#[test]
fn literals_are_quoted_with_their_escapes() {
    let eq = |l: Literal| render_pred(&Pred::Cmp(CmpOp::Eq, var(0), lit(l)), &names, &floats);
    assert_eq!(eq(Literal::Str("a\"b\n".to_string())), "x == \"a\\\"b\\n\"");
    assert_eq!(eq(Literal::Char('\'')), "x == '\\''");
    assert_eq!(eq(Literal::Bool(true)), "x == true");
    assert_eq!(eq(Literal::Float(1.5f64.to_bits())), "x == 1.5");
}

#[test]
fn binders_are_named_by_their_nesting() {
    let p = Pred::Forall {
        domain: (lit(Literal::Int(0)), var(0)),
        body: Box::new(Pred::Cmp(CmpOp::Lt, var(0), var(1))),
    };
    let text = render_pred_with(&p, &names, &floats, PredVars::DeBruijn);
    assert!(text.starts_with("forall i in 0"), "{text}");
    assert!(text.ends_with("i < x"), "{text}");
}

#[test]
fn only_the_indices_that_occur_are_asked_for() {
    let table = |i: u32| ["x", "lo", "hi", "result"][i as usize].to_string();
    let none = |_: u64| -> String { panic!("no float occurs") };
    let p = Pred::Cmp(CmpOp::Ge, var(3), var(1));
    assert_eq!(render_pred(&p, &table, &none), "result >= lo");

    let only_n = |i: u32| {
        assert_eq!(i, 0);
        "n".to_string()
    };
    let inner = Pred::Exists {
        domain: (lit(Literal::Int(0)), var(1)),
        body: Box::new(Pred::Cmp(CmpOp::Lt, var(0), var(1))),
    };
    let p = Pred::Forall { domain: (lit(Literal::Int(0)), var(0)), body: Box::new(inner) };
    assert_eq!(
        render_pred_with(&p, &only_n, &none, PredVars::DeBruijn),
        "forall i in 0..n: exists i1 in 0..n: i1 < i"
    );
    let flat = Pred::Forall {
        domain: (lit(Literal::Int(0)), var(0)),
        body: Box::new(Pred::Cmp(CmpOp::Lt, var(2), var(1))),
    };
    let two = |i: u32| ["n", "result"][i as usize].to_string();
    assert_eq!(
        render_pred_with(&flat, &two, &none, PredVars::Flat { arity: 1 }),
        "forall i in 0..n: i < result"
    );
}

#[test]
fn no_term_begins_another() {
    let terms = [
        Core::Atom(Atom::Var(0)),
        Core::Atom(Atom::Var(256)),
        Core::Atom(one()),
        Core::Atom(Atom::Lit(Literal::Str("a".to_string()))),
        Core::Atom(Atom::Lit(Literal::Str("ab".to_string()))),
        add(Atom::Var(0), one()),
        Core::Prim { op: PrimOp::Add, args: vec![Atom::Var(0)] },
        Core::Prim { op: PrimOp::Add, args: Vec::new() },
        Core::Let {
            value: Box::new(Core::Atom(one())),
            body: Box::new(Core::Atom(Atom::Var(0))),
        },
        Core::Return { value: Atom::Var(0) },
    ];
    let bytes: Vec<Vec<u8>> = terms
        .iter()
        .map(|c| {
            let mut e = Encoder::new();
            encode_core(&mut e, c);
            e.buf
        })
        .collect();
    for (i, a) in bytes.iter().enumerate() {
        for (j, b) in bytes.iter().enumerate() {
            assert_eq!(b.starts_with(a), i == j, "{:?} and {:?}", terms[i], terms[j]);
        }
    }
}
