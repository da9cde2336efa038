//! What an entry point needs of a module.

use marv::hash::symbol_hash;
use marv::ir::{Atom, Core, Def, DefKind, EffectRow, IntTy, Literal, Type};
use marv::reach::{qualify, reachable_mask};

/// A function whose body refers to each of the named functions of its module.
fn fn_calling(mod_path: &str, callees: &[&str]) -> Def {
    let mut body = Core::Atom(Atom::Lit(Literal::Int(0)));
    for callee in callees {
        let g = symbol_hash(&qualify(mod_path, callee));
        body = Core::Let {
            value: Box::new(Core::Atom(Atom::Global(g))),
            body: Box::new(body),
        };
    }
    Def {
        kind: DefKind::Fn,
        ty: Type::Arrow {
            param: Box::new(Type::Int(IntTy::I64)),
            ret: Box::new(Type::Int(IntTy::I64)),
            effects: EffectRow { caps: Vec::new(), errors: Vec::new() },
        },
        pre: Vec::new(),
        post: Vec::new(),
        body: Some(body),
    }
}

fn module(defs: &[(&str, &[&str])]) -> Vec<(String, Def)> {
    defs.iter()
        .map(|(name, callees)| (name.to_string(), fn_calling("m", callees)))
        .collect()
}

#[test]
fn explicit_entry_prunes_to_its_transitive_closure() {
    let defs = module(&[("a", &["b"]), ("b", &["c"]), ("c", &[]), ("d", &[])]);
    assert_eq!(reachable_mask("m", &defs, "a"), [true, true, true, false]);
    assert_eq!(reachable_mask("m", &defs, "m.a"), [true, true, true, false]);
    assert_eq!(reachable_mask("m", &defs, "c"), [false, false, true, false]);
}

#[test]
fn empty_entry_falls_back_to_main_then_sole_fn() {
    let defs = module(&[("main", &["helper"]), ("helper", &[]), ("stray", &[])]);
    assert_eq!(reachable_mask("m", &defs, ""), [true, true, false]);

    let sole = module(&[("only", &[])]);
    assert_eq!(reachable_mask("m", &sole, ""), [true]);
}

#[test]
fn unresolvable_entry_keeps_whole_module() {
    let defs = module(&[("a", &[]), ("b", &[])]);
    assert_eq!(reachable_mask("m", &defs, ""), [true, true]);
    assert_eq!(reachable_mask("m", &defs, "nope"), [true, true]);
}

#[test]
fn recursion_and_mutual_recursion_terminate() {
    let defs = module(&[("even", &["odd", "even"]), ("odd", &["even"]), ("x", &[])]);
    assert_eq!(reachable_mask("m", &defs, "even"), [true, true, false]);
}
