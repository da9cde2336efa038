//! The command line around the compiler: arguments, imports, programs, reports.

use marv::args::{
    check_file, check_llvm, command_of, default_exe_out, default_object_out, default_wasm_out,
    fmt_step, native_emit_kind, parse_fmt, parse_int_args, parse_invocation, parse_one_file,
    parse_store_dir, resolve_impl_file, store_action, target_of, Command, FmtStep, NativeEmit,
    StoreAction, Target,
};
use marv::cl;
use marv::hash::{content_hash, symbol_hash};
use marv::imports::{
    kind_of_file, package_label, source_root_label, FileKind, Found, LoadError, SourceFile,
    Sources,
};
use marv::ir::{Core, Def};
use marv::loaded::{
    has_loop_invariant, load_core, load_modules, pin_loaded, root_hashes, CoreDef, Loaded,
    ResolvedDef,
};
use marv::report::{
    check_link_arity, commit_line, commit_summary, executable_report, is_refuted, native_report,
    object_report, object_runtime_c, rebound_line, resolution_report, verify_report, wasm_report,
    CommitStatus, Selection, VerifyOutcome,
};
use marv::syntax::{
    Arm, ArmBody, BinOp, Block, Bound, Else, EnumDecl, ErrorDecl, Expr, Field, FieldInit, FieldPat,
    FnDecl, Generic, IfExpr, ImplDecl, Import, InterfaceDecl, Item, LValue, MatchExpr, MethodSig,
    Module, Param, Pattern, SType, Stmt, StructDecl, Tail, UnOp, Variant,
};
use marv::wasm::{ExportInfo, WasmArtifact};
use marv::wasm_trans::CapImport;
use marv::words::{
    drop_suffix, has_prefix, has_suffix, parse_integer, split_parts, trim, trim_start,
};
use marv::world::World;

// ---- a reader of marv source ------------------------------------------------------------

#[derive(Debug, Clone, PartialEq)]
enum Tok {
    Word(String),
    Int(i64),
    Str(String),
    Char(char),
    Doc(String),
    Sym(&'static str),
    End,
}

const SYMBOLS: [&str; 30] = [
    "->", "=>", "==", "!=", "<=", ">=", "(", ")", "{", "}", "[", "]", ",", ":", ".", "=", "<", ">",
    "+", "-", "*", "/", "%", "&", "!", "?", ";", "|", "@", "#",
];

struct Reader {
    toks: Vec<(Tok, usize)>,
    at: usize,
}

fn tokens(src: &str) -> Vec<(Tok, usize)> {
    let mut out = Vec::new();
    for (line, text) in src.lines().enumerate() {
        let chars: Vec<char> = text.chars().collect();
        let mut i = 0;
        while i < chars.len() {
            let c = chars[i];
            let rest: String = chars[i..].iter().collect();
            if c.is_whitespace() {
                i += 1;
            } else if let Some(doc) = rest.strip_prefix("///") {
                out.push((Tok::Doc(doc.trim().to_string()), line));
                break;
            } else if rest.starts_with("//") {
                break;
            } else if c.is_ascii_digit() {
                let mut n = 0i64;
                while i < chars.len() && (chars[i].is_ascii_digit() || chars[i] == '_') {
                    if let Some(d) = chars[i].to_digit(10) {
                        n = n * 10 + i64::from(d);
                    }
                    i += 1;
                }
                out.push((Tok::Int(n), line));
            } else if c.is_alphabetic() || c == '_' {
                let mut w = String::new();
                while i < chars.len() && (chars[i].is_alphanumeric() || chars[i] == '_') {
                    w.push(chars[i]);
                    i += 1;
                }
                out.push((Tok::Word(w), line));
            } else if c == '"' {
                let mut s = String::new();
                i += 1;
                while chars[i] != '"' {
                    s.push(chars[i]);
                    i += 1;
                }
                i += 1;
                out.push((Tok::Str(s), line));
            } else if c == '\'' {
                out.push((Tok::Char(chars[i + 1]), line));
                i += 3;
            } else {
                let s = SYMBOLS.iter().find(|s| rest.starts_with(**s)).expect("a symbol");
                out.push((Tok::Sym(s), line));
                i += s.len();
            }
        }
    }
    out
}

impl Reader {
    fn peek(&self) -> Tok {
        self.toks.get(self.at).map(|t| t.0.clone()).unwrap_or(Tok::End)
    }

    /// Whether the next token stands on the line of the last one.
    fn same_line(&self) -> bool {
        self.at > 0 && self.at < self.toks.len() && self.toks[self.at].1 == self.toks[self.at - 1].1
    }

    fn is(&self, s: &str) -> bool {
        matches!(self.peek(), Tok::Sym(x) if x == s)
    }

    fn is_word(&self, w: &str) -> bool {
        matches!(self.peek(), Tok::Word(x) if x == w)
    }

    fn eat(&mut self, s: &str) -> bool {
        let hit = self.is(s);
        if hit {
            self.at += 1;
        }
        hit
    }

    fn eat_word(&mut self, w: &str) -> bool {
        let hit = self.is_word(w);
        if hit {
            self.at += 1;
        }
        hit
    }

    fn want(&mut self, s: &str) {
        if !self.eat(s) {
            panic!("expected `{s}`, found {:?} at token {}", self.peek(), self.at);
        }
    }

    fn word(&mut self) -> String {
        match self.peek() {
            Tok::Word(w) => {
                self.at += 1;
                w
            }
            other => panic!("expected a name, found {other:?}"),
        }
    }

    fn path(&mut self) -> Vec<String> {
        let mut p = vec![self.word()];
        while self.eat(".") {
            p.push(self.word());
        }
        p
    }

    fn module(&mut self) -> Module {
        assert!(self.eat_word("mod"), "a module starts with `mod`");
        let name = self.path();
        let mut imports = Vec::new();
        let mut items = Vec::new();
        let mut docs = Vec::new();
        loop {
            match self.peek() {
                Tok::End => break,
                Tok::Doc(d) => {
                    docs.push(d);
                    self.at += 1;
                }
                _ if self.eat_word("import") => {
                    let path = self.path();
                    let mut names = Vec::new();
                    self.want("(");
                    while !self.eat(")") {
                        names.push(self.word());
                        self.eat(",");
                    }
                    imports.push(Import { path, names });
                }
                _ => {
                    let d = docs.drain(..).collect();
                    items.push(self.item(d));
                }
            }
        }
        Module { name, imports, items }
    }

    fn item(&mut self, docs: Vec<String>) -> Item {
        let linear = self.eat_word("linear");
        if self.eat_word("struct") {
            let name = self.word();
            let generics = self.generics();
            self.want("{");
            let mut fields = Vec::new();
            while !self.eat("}") {
                let name = self.word();
                self.want(":");
                fields.push(Field { name, ty: self.ty() });
                self.eat(",");
            }
            return Item::Struct(StructDecl { name, generics, linear, fields });
        }
        if self.eat_word("enum") {
            let name = self.word();
            let generics = self.generics();
            self.want("{");
            let mut variants = Vec::new();
            while !self.eat("}") {
                let name = self.word();
                let mut fields = Vec::new();
                if self.eat("(") {
                    while !self.eat(")") {
                        fields.push(self.ty());
                        self.eat(",");
                    }
                }
                variants.push(Variant { name, fields });
                self.eat(",");
            }
            return Item::Enum(EnumDecl { name, generics, variants });
        }
        if self.eat_word("error") {
            let name = self.word();
            self.want("{");
            let mut variants = Vec::new();
            while !self.eat("}") {
                variants.push(self.word());
                self.eat(",");
            }
            return Item::Error(ErrorDecl { name, variants });
        }
        let is_capability = self.eat_word("capability");
        if self.eat_word("interface") {
            let name = self.word();
            let generics = self.generics();
            self.want("{");
            let mut methods = Vec::new();
            while !self.eat("}") {
                assert!(self.eat_word("fn"), "a method");
                let name = self.word();
                let params = self.params();
                let ret = if self.eat("->") { Some(self.ty()) } else { None };
                methods.push(MethodSig { name, params, ret });
            }
            return Item::Interface(InterfaceDecl { name, generics, is_capability, methods });
        }
        if self.eat_word("impl") {
            let interface = self.path();
            let mut args = Vec::new();
            if self.eat("[") {
                while !self.eat("]") {
                    args.push(self.ty());
                    self.eat(",");
                }
            }
            self.want("{");
            let mut methods = Vec::new();
            while !self.eat("}") {
                methods.push(self.function(Vec::new()));
            }
            return Item::Impl(ImplDecl { interface, args, methods });
        }
        Item::Fn(self.function(docs))
    }

    fn function(&mut self, docs: Vec<String>) -> FnDecl {
        let mut is_unsafe = false;
        let mut foreign = false;
        loop {
            if self.eat_word("pure") {
            } else if self.eat_word("unsafe") {
                is_unsafe = true;
            } else if self.eat_word("extern") {
                foreign = true;
            } else {
                break;
            }
        }
        assert!(self.eat_word("fn"), "expected a function, found {:?}", self.peek());
        let name = self.word();
        let generics = self.generics();
        let params = self.params();
        let ret = if self.eat("->") { Some(self.ty()) } else { None };
        let mut pre = Vec::new();
        let mut post = Vec::new();
        loop {
            if self.eat_word("requires") {
                pre.push(self.expr(false));
            } else if self.eat_word("ensures") {
                post.push(self.expr(false));
            } else {
                break;
            }
        }
        let body = if foreign { None } else { Some(self.block()) };
        FnDecl { name, generics, params, ret, pre, post, body, docs, is_unsafe }
    }

    fn generics(&mut self) -> Vec<Generic> {
        let mut out = Vec::new();
        if self.eat("[") {
            while !self.eat("]") {
                let name = self.word();
                let bound = if self.eat(":") { Some(Bound { path: self.path() }) } else { None };
                out.push(Generic { name, bound });
                self.eat(",");
            }
        }
        out
    }

    fn params(&mut self) -> Vec<Param> {
        let mut out = Vec::new();
        self.want("(");
        while !self.eat(")") {
            let name = self.word();
            self.want(":");
            out.push(Param { name, ty: self.ty() });
            self.eat(",");
        }
        out
    }

    fn ty(&mut self) -> SType {
        if self.eat("(") {
            self.want(")");
            return SType::Unit;
        }
        if self.eat("&") {
            let mutable = self.eat_word("mut");
            return SType::Ref { mutable, inner: Box::new(self.ty()) };
        }
        if self.eat("!") {
            let inner = self.ty();
            return SType::ErrorUnion(if inner == SType::Unit { None } else { Some(Box::new(inner)) });
        }
        if self.eat("?") {
            return SType::Optional(Box::new(self.ty()));
        }
        if self.eat("[") {
            if let Tok::Int(n) = self.peek() {
                self.at += 1;
                self.want("]");
                return SType::Array { len: n as u64, elem: Box::new(self.ty()) };
            }
            self.want("]");
            return SType::Slice(Box::new(self.ty()));
        }
        let path = self.path();
        if self.same_line() && self.eat("[") {
            let mut args = Vec::new();
            while !self.eat("]") {
                args.push(self.ty());
                self.eat(",");
            }
            return SType::Generic { path, args };
        }
        SType::Named(path)
    }

    fn block(&mut self) -> Block {
        self.want("{");
        let mut stmts = Vec::new();
        let mut tail = None;
        while !self.eat("}") {
            if self.eat_word("let") {
                let (name, ty, value) = self.binding();
                stmts.push(Stmt::Let { name, ty, value });
            } else if self.eat_word("var") {
                let (name, ty, value) = self.binding();
                stmts.push(Stmt::Var { name, ty, value });
            } else if self.eat_word("while") {
                let cond = self.expr(true);
                let mut invariants = Vec::new();
                while self.eat_word("invariant") {
                    invariants.push(self.expr(true));
                }
                let body = self.block();
                stmts.push(Stmt::While { cond, invariants, body });
            } else if self.eat_word("for") {
                let binder = self.word();
                assert!(self.eat_word("in"), "`for x in e`");
                let iter = self.expr(true);
                let body = self.block();
                stmts.push(Stmt::For { binder, iter, body });
            } else if self.eat_word("return") {
                let value =
                    if self.is("}") || !self.same_line() { None } else { Some(self.expr(false)) };
                tail = Some(Tail::Return(value));
            } else if self.eat_word("if") {
                tail = Some(Tail::If(Box::new(self.conditional())));
            } else if self.eat_word("match") {
                tail = Some(Tail::Match(Box::new(self.matching())));
            } else {
                let e = self.expr(false);
                if self.eat("=") {
                    let value = self.expr(false);
                    stmts.push(Stmt::Assign { target: target(e), value });
                } else {
                    tail = Some(Tail::Expr(e));
                }
            }
        }
        Block { stmts, tail }
    }

    fn binding(&mut self) -> (String, Option<SType>, Expr) {
        let name = self.word();
        let ty = if self.eat(":") { Some(self.ty()) } else { None };
        self.want("=");
        (name, ty, self.expr(false))
    }

    fn conditional(&mut self) -> IfExpr {
        let cond = self.expr(true);
        let yes = self.block();
        let no = if self.eat_word("else") {
            if self.eat_word("if") {
                Some(Else::If(Box::new(self.conditional())))
            } else {
                Some(Else::Block(self.block()))
            }
        } else {
            None
        };
        IfExpr { cond, yes, no }
    }

    fn matching(&mut self) -> MatchExpr {
        let scrutinee = self.expr(true);
        let mut arms = Vec::new();
        self.want("{");
        while !self.eat("}") {
            let pat = if self.eat_word("_") {
                Pattern::Wildcard
            } else {
                let path = self.path();
                let mut fields = Vec::new();
                if self.eat("(") {
                    while !self.eat(")") {
                        let w = self.word();
                        fields.push(if w == "_" { FieldPat::Wildcard } else { FieldPat::Bind(w) });
                        self.eat(",");
                    }
                }
                Pattern::Ctor { path, fields }
            };
            self.want("=>");
            let body =
                if self.is("{") { ArmBody::Block(self.block()) } else { ArmBody::Expr(self.expr(false)) };
            self.eat(",");
            arms.push(Arm { pat, body });
        }
        MatchExpr { scrutinee, arms }
    }

    /// An expression; before a block, a `{` does not start a struct literal.
    fn expr(&mut self, before_block: bool) -> Expr {
        self.binary(0, before_block)
    }

    fn binary(&mut self, level: usize, before_block: bool) -> Expr {
        if level == 5 {
            return self.unary(before_block);
        }
        let mut left = self.binary(level + 1, before_block);
        while self.same_line() {
            let op = match (level, self.peek()) {
                (0, Tok::Word(w)) if w == "or" => BinOp::Or,
                (1, Tok::Word(w)) if w == "and" => BinOp::And,
                (2, Tok::Sym("==")) => BinOp::Eq,
                (2, Tok::Sym("!=")) => BinOp::Ne,
                (2, Tok::Sym("<")) => BinOp::Lt,
                (2, Tok::Sym("<=")) => BinOp::Le,
                (2, Tok::Sym(">")) => BinOp::Gt,
                (2, Tok::Sym(">=")) => BinOp::Ge,
                (3, Tok::Sym("+")) => BinOp::Add,
                (3, Tok::Sym("-")) => BinOp::Sub,
                (4, Tok::Sym("*")) => BinOp::Mul,
                (4, Tok::Sym("/")) => BinOp::Div,
                (4, Tok::Sym("%")) => BinOp::Rem,
                _ => break,
            };
            self.at += 1;
            let right = self.binary(level + 1, before_block);
            left = Expr::Binary(Box::new(left), op, Box::new(right));
        }
        left
    }

    fn unary(&mut self, before_block: bool) -> Expr {
        if self.eat("-") {
            return Expr::Unary(UnOp::Neg, Box::new(self.unary(before_block)));
        }
        if self.eat_word("not") {
            return Expr::Unary(UnOp::Not, Box::new(self.unary(before_block)));
        }
        if self.eat("&") {
            let op = if self.eat_word("mut") { UnOp::RefMut } else { UnOp::Ref };
            return Expr::Unary(op, Box::new(self.unary(before_block)));
        }
        let mut e = self.primary(before_block);
        while self.same_line() {
            if self.eat("(") {
                e = Expr::Call(Box::new(e), self.list(")"));
            } else if self.eat("[") {
                let index = self.expr(false);
                self.want("]");
                e = Expr::Index(Box::new(e), Box::new(index));
            } else if self.eat(".") {
                e = Expr::Field(Box::new(e), self.word());
            } else if self.eat("?") {
                e = Expr::Try(Box::new(e));
            } else if self.eat_word("as") {
                e = Expr::Cast(Box::new(e), self.ty());
            } else {
                break;
            }
        }
        e
    }

    fn list(&mut self, end: &str) -> Vec<Expr> {
        let mut out = Vec::new();
        while !self.eat(end) {
            out.push(self.expr(false));
            self.eat(",");
        }
        out
    }

    fn primary(&mut self, before_block: bool) -> Expr {
        let t = self.peek();
        self.at += 1;
        match t {
            Tok::Int(n) => Expr::Int(n),
            Tok::Str(s) => Expr::Str(s),
            Tok::Char(c) => Expr::Char(c),
            Tok::Sym("(") => {
                if self.eat(")") {
                    return Expr::Unit;
                }
                let e = self.expr(false);
                self.want(")");
                e
            }
            Tok::Sym("[") => Expr::Array(self.list("]")),
            Tok::Word(w) if w == "true" || w == "false" => Expr::Bool(w == "true"),
            Tok::Word(w) => {
                let upper = w.chars().next().is_some_and(char::is_uppercase);
                if upper && !before_block && self.same_line() && self.eat("{") {
                    let mut fields = Vec::new();
                    while !self.eat("}") {
                        let name = self.word();
                        self.want(":");
                        fields.push(FieldInit { name, value: self.expr(false) });
                        self.eat(",");
                    }
                    return Expr::Struct { path: vec![w], fields };
                }
                Expr::Var(w)
            }
            other => panic!("expected an expression, found {other:?}"),
        }
    }
}

fn target(e: Expr) -> LValue {
    match e {
        Expr::Var(x) => LValue::Var(x),
        Expr::Field(base, f) => LValue::Field(Box::new(target(*base)), f),
        Expr::Index(base, i) => LValue::Index(Box::new(target(*base)), i),
        other => panic!("not a place: {other:?}"),
    }
}

fn parse(src: &str) -> Module {
    let mut r = Reader { toks: tokens(src), at: 0 };
    r.module()
}
// ---- packages --------------------------------------------------------------------------------------

fn index(files: &[(&str, &str)]) -> Vec<SourceFile> {
    files.iter().map(|(p, s)| SourceFile { path: p.to_string(), module: parse(s) }).collect()
}

/// Loads a main module with what it imports.
fn load_with(
    std: Option<&[(&str, &str)]>,
    project: &[(&str, &str)],
    main: &str,
) -> Result<Loaded, LoadError> {
    let std_index = std.map(index);
    let project_index = index(project);
    let sources = Sources {
        std: std_index.as_ref(),
        project: &project_index,
        root: "pkg",
        label: "package root pkg",
    };
    let mut modules = vec![parse(main)];
    for f in sources.resolve_source_imports(&modules[0])? {
        modules.push(parse(match f {
            Found::Std(i) => std.expect("a standard library")[i].1,
            Found::Project(i) => project[i].1,
        }));
    }
    load_modules(&modules)
}

/// The constructors of a body: their type, tag and number of fields.
fn collect_ctors(c: &Core, out: &mut Vec<(marv::ir::Hash, u32, usize)>) {
    match c {
        Core::Ctor { ty, tag, fields } => out.push((*ty, *tag, fields.len())),
        Core::Let { value, body } => {
            collect_ctors(value, out);
            collect_ctors(body, out);
        }
        Core::Lam { body, .. } => collect_ctors(body, out),
        Core::Match { branches, .. } => branches.iter().for_each(|b| collect_ctors(&b.body, out)),
        Core::Loop { cond, body, .. } => {
            collect_ctors(cond, out);
            collect_ctors(body, out);
        }
        _ => {}
    }
}

fn ctors_of(l: &Loaded, name: &str) -> Vec<(marv::ir::Hash, u32, usize)> {
    let d = l.items.iter().find(|d| d.name == name).unwrap_or_else(|| panic!("no def `{name}`"));
    let mut out = Vec::new();
    if let Some(body) = &d.def.body {
        collect_ctors(body, &mut out);
    }
    out
}

fn named_defs(l: &Loaded) -> Vec<(String, Def)> {
    l.items.iter().map(|d| (d.name.clone(), d.def.clone())).collect()
}

const PALETTE: &str = "\
mod std.palette

enum Color {
    Red,
    Rgb(i64),
}
";

const APP: &str =
    "mod app\nimport math (double)\n\npure fn main() -> i64 {\n    double(21)\n}\n";

const MATH: &str = "mod math\n\npure fn double(x: i64) -> i64 {\n    (x * 2)\n}\n";

#[test]
fn single_file_path_resolves_imported_enum() {
    let main = "mod main\nimport std.palette (Color)\n\npure fn wrap(x: i64) -> Color {\n    \
         Color.Rgb(x)\n}\n\npure fn brightness(c: Color) -> i64 {\n    match c {\n        \
         Color.Red => 100,\n        Color.Rgb(v) => v,\n    }\n}\n";
    let l = load_with(Some(&[("std/palette.mv", PALETTE)]), &[], main)
        .unwrap_or_else(|e| panic!("load: {}", e.message()));
    let color = symbol_hash("std.palette.Color");
    let ctors = ctors_of(&l, "wrap");
    assert!(
        ctors.contains(&(color, 1, 1)),
        "`Color.Rgb(x)` is a tag-1 Ctor of std.palette.Color: {ctors:?}"
    );
}

#[test]
fn local_source_imports_are_runnable_buildable_and_committable() {
    let l = load_with(None, &[("math.mv", MATH)], APP)
        .unwrap_or_else(|e| panic!("load: {}", e.message()));
    assert!(
        l.items.iter().any(|d| d.name == "math.double"),
        "imported bodies are part of the loaded definition set"
    );
    assert_eq!(l.main_path, "app");
    let names: Vec<&str> = l.items.iter().map(|d| d.qualified.as_str()).collect();
    assert_eq!(names, ["app.main", "math.double"]);
    let p = cl::compile_hashed_reachable(
        &l.runtime_defs(),
        &l.runtime_aliases(),
        &l.world,
        &cl::Options::default(),
        "",
    )
    .unwrap_or_else(|e| panic!("compile package: {}", e.message()));
    assert_eq!(p.entry_arity(""), Ok(0));
    assert_eq!(p.functions.len(), 2);
}

#[test]
fn manifest_package_loads_local_path_dependency() {
    let main =
        "mod app.main\nimport util.math (double)\n\npure fn main() -> i64 {\n    double(21)\n}\n";
    let util = "mod util.math\n\npure fn double(x: i64) -> i64 {\n    (x * 2)\n}\n";
    let l = load_with(None, &[("util/src/math.mv", util)], main)
        .unwrap_or_else(|e| panic!("load: {}", e.message()));
    assert_eq!(l.main_path, "app.main");
    assert!(
        l.items.iter().any(|d| d.name == "util.math.double"),
        "dependency bodies are part of the module set"
    );
    assert!(l.items.iter().any(|d| d.qualified == "app.main.main"));
}

#[test]
fn missing_local_import_is_a_clear_load_error() {
    let err = match load_with(None, &[], APP) {
        Err(e) => e.message(),
        Ok(_) => panic!("load should fail when a local import is missing"),
    };
    assert!(
        err.contains("cannot resolve import `math`"),
        "error names the missing import: {err}"
    );
    assert_eq!(
        err,
        "cannot resolve import `math`: no source module with that `mod` path was found in package \
         root pkg"
    );
}

#[test]
fn an_ambiguous_import_is_a_clear_load_error() {
    let err = match load_with(None, &[("a.mv", MATH), ("b.mv", MATH)], APP) {
        Err(e) => e.message(),
        Ok(_) => panic!("load should fail when two files declare a module"),
    };
    assert_eq!(
        err,
        "ambiguous import `math` under pkg: 2 source files declare that `mod` path (a.mv, b.mv)"
    );
}

#[test]
fn unresolvable_imported_enum_is_a_clear_error() {
    let option = "mod std.option\n\nenum Option[T] {\n    None,\n    Some(T),\n}\n";
    let main = "mod main\nimport std.palette (Color)\n\npure fn wrap(x: i64) -> Color {\n    \
         Color.Rgb(x)\n}\n";
    let err = match load_with(Some(&[("std/option.mv", option)]), &[], main) {
        Err(e) => e.message(),
        Ok(_) => panic!("load should fail when the imported enum is unresolvable"),
    };
    assert!(
        err.contains("cannot resolve `Color`") && err.contains("std.palette"),
        "error names the import and its module: {err}"
    );
}

#[test]
fn imports_are_followed_once_and_in_order() {
    let files = [
        ("a.mv", "mod a\nimport c (h)\n\npure fn f() -> i64 {\n    h()\n}\n"),
        ("b.mv", "mod b\nimport c (h)\nimport main (run)\n\npure fn g() -> i64 {\n    h()\n}\n"),
        ("c.mv", "mod c\n\npure fn h() -> i64 {\n    7\n}\n"),
    ];
    let project = index(&files);
    let sources = Sources { std: None, project: &project, root: "r", label: "l" };
    let main = parse("mod main\nimport b (g)\nimport a (f)\nimport std.x (y)\n\npure fn run() -> i64 {\n    (f() + g())\n}\n");
    assert_eq!(
        sources.resolve_source_imports(&main),
        Ok(vec![Found::Project(1), Found::Project(0), Found::Project(2)])
    );
}

#[test]
fn files_are_told_apart_by_their_names() {
    assert_eq!(kind_of_file("a.core.json"), Ok(FileKind::Core));
    assert_eq!(kind_of_file("dir/a.mv"), Ok(FileKind::Source));
    let e = kind_of_file("a.txt").expect_err("an unknown kind");
    assert_eq!(e, LoadError::UnknownKind("a.txt".to_string()));
    assert_eq!(
        e.message(),
        "a.txt: unrecognized extension (expected `.mv` source or `.core.json`)"
    );
    assert_eq!(LoadError::Io("gone".to_string()).message(), "gone");
}

#[test]
fn proof_targets_are_those_with_something_to_prove() {
    let src = "\
mod m

pure fn plain(x: i64) -> i64 {
    x
}

pure fn bounded(x: i64) -> i64
    ensures (result >= 0)
{
    var i: i64 = 0
    while (i < x)
        invariant (i >= 0)
    {
        i = (i + 1)
    }
    i
}
";
    let l = load_modules(&vec![parse(src)]).unwrap_or_else(|e| panic!("{}", e.message()));
    assert_eq!(l.verify_targets(&None), [1]);
    assert_eq!(l.verify_targets(&Some("bounded".to_string())), [1]);
    assert_eq!(l.verify_targets(&Some("m.bounded".to_string())), [1]);
    assert!(l.verify_targets(&Some("other".to_string())).is_empty());
    assert!(has_loop_invariant(&l.items[1].def));
    assert!(!has_loop_invariant(&l.items[0].def));
}

#[test]
fn a_pinned_program_holds_what_its_root_leads_to() {
    let src = "mod m\n\npure fn main() -> i64 {\n    helper()\n}\n\npure fn helper() -> i64 {\n    7\n}\n\npure fn stray() -> i64 {\n    9\n}\n";
    let l = load_modules(&vec![parse(src)]).unwrap_or_else(|e| panic!("{}", e.message()));
    let hash = |i: usize| content_hash(&l.items[i].def);
    let resolved = |i: usize, deps: Vec<marv::ir::Hash>| ResolvedDef {
        hash: hash(i),
        def: l.items[i].def.clone(),
        deps,
    };
    let all = vec![
        resolved(0, vec![hash(1)]),
        resolved(1, Vec::new()),
        resolved(2, Vec::new()),
    ];
    let p = pin_loaded(&l, &all, &Vec::new(), "main").expect("a program");
    let names: Vec<&str> = p.defs.iter().map(|d| d.name.as_str()).collect();
    assert!(names.contains(&"m.main") && names.contains(&"m.helper"));
    assert!(!names.contains(&"m.stray"), "{names:?}");
    assert_eq!(p.defs_for_backend().len(), 2);
    assert_eq!(root_hashes(&l, &vec![hash(0), hash(1), hash(2)], "stray"), [hash(2)]);

    let missing = marv::ir::Hash([7; 32]);
    let broken = vec![resolved(0, vec![missing]), resolved(1, Vec::new()), resolved(2, Vec::new())];
    let e = pin_loaded(&l, &broken, &Vec::new(), "main").expect_err("a hash that is nowhere");
    assert!(e.contains(&missing.to_b3()), "{e}");
}

#[test]
fn a_core_snapshot_is_loaded_under_its_module() {
    let l = load_modules(&vec![parse(MATH)]).unwrap_or_else(|e| panic!("{}", e.message()));
    let defs = vec![CoreDef {
        name: "double".to_string(),
        def: l.items[0].def.clone(),
        params: vec!["x".to_string()],
    }];
    let c = load_core("math".to_string(), &defs, World::new());
    assert_eq!(c.main_path, "math");
    assert_eq!(c.items[0].qualified, "math.double");
    assert_eq!(c.items[0].hash, symbol_hash("math.double"));
    assert_eq!(named_defs(&c), named_defs(&l));
}

// ---- arguments ------------------------------------------------------------------------------------------

fn strings(v: &[&str]) -> Vec<String> {
    v.iter().map(|s| s.to_string()).collect()
}

#[test]
fn the_first_argument_is_the_command() {
    for (args, want) in [
        (vec![], Command::Missing),
        (vec!["-h"], Command::Help),
        (vec!["--help"], Command::Help),
        (vec!["help"], Command::Help),
        (vec!["fmt"], Command::Fmt),
        (vec!["check", "x.mv"], Command::Check),
        (vec!["build"], Command::Build),
        (vec!["run"], Command::Run),
        (vec!["resolve-impl"], Command::ResolveImpl),
        (vec!["verify"], Command::Verify),
        (vec!["commit"], Command::Commit),
        (vec!["store"], Command::Store),
        (vec!["frob"], Command::Unknown("frob".to_string())),
    ] {
        assert_eq!(command_of(&strings(&args)), want);
    }
}

#[test]
fn an_invocation_has_flags_a_file_and_operands() {
    let inv = parse_invocation(&strings(&[
        "--target", "wasm", "--run", "--release", "--entry", "main", "--grant", "Net,Fs", "-o",
        "a.wasm", "--emit", "object", "--store", "dir", "x.mv", "1", "--", "--2",
    ]))
    .expect("an invocation");
    assert_eq!(inv.target, "wasm");
    assert!(inv.run && inv.release);
    assert_eq!(inv.entry, "main");
    assert_eq!(inv.grant, ["Net", "Fs"]);
    assert_eq!(inv.out.as_deref(), Some("a.wasm"));
    assert_eq!(inv.emit.as_deref(), Some("object"));
    assert_eq!(inv.store_dir.as_deref(), Some("dir"));
    assert_eq!(inv.file.as_deref(), Some("x.mv"));
    assert_eq!(inv.args, ["1", "--2"]);
    assert_eq!(
        parse_invocation(&strings(&["--nope"])),
        Err("unknown flag `--nope`".to_string())
    );
    assert_eq!(
        parse_invocation(&strings(&["--entry"])),
        Err("--entry requires a value".to_string())
    );
}

#[test]
fn integer_arguments_are_counted_and_read() {
    assert_eq!(parse_int_args(&strings(&["1", "-2", "+3"]), 3), Ok(vec![1, -2, 3]));
    assert_eq!(
        parse_int_args(&strings(&["1"]), 2),
        Err("entry expects 2 integer argument(s), got 1".to_string())
    );
    assert_eq!(
        parse_int_args(&strings(&["1", "x"]), 2),
        Err("argument 1 `x` is not an integer".to_string())
    );
    assert_eq!(parse_integer("9223372036854775807"), Some(i64::MAX));
    assert_eq!(parse_integer("-9223372036854775808"), Some(i64::MIN));
    assert_eq!(parse_integer("9223372036854775808"), None);
    assert_eq!(parse_integer(""), None);
    assert_eq!(parse_integer("-"), None);
    assert_eq!(parse_integer("1 "), None);
}

#[test]
fn targets_and_artifacts_are_named() {
    assert_eq!(target_of("native-cranelift"), Ok(Target::NativeCranelift));
    assert_eq!(target_of("llvm"), Ok(Target::NativeLlvm));
    assert_eq!(target_of("wasm"), Ok(Target::WasmComponent));
    assert_eq!(target_of("wasm-component"), Ok(Target::WasmComponent));
    assert_eq!(target_of("wasm-core"), Ok(Target::WasmCore));
    assert_eq!(
        target_of("jvm"),
        Err("unsupported target `jvm` (have `native-cranelift`, `native-llvm`, \
             `wasm-component`, `wasm-core`)"
            .to_string())
    );
    let with = |v: &[&str]| parse_invocation(&strings(v)).expect("an invocation");
    assert_eq!(native_emit_kind(&with(&["x.mv"])), Ok(None));
    assert_eq!(
        native_emit_kind(&with(&["-o", "x", "x.mv"])),
        Ok(Some(NativeEmit::Executable))
    );
    assert_eq!(
        native_emit_kind(&with(&["--emit", "object", "x.mv"])),
        Ok(Some(NativeEmit::Object))
    );
    assert_eq!(
        native_emit_kind(&with(&["--emit", "dll", "x.mv"])),
        Err("unsupported native --emit `dll` (have `object`, `exe`)".to_string())
    );
    assert_eq!(
        native_emit_kind(&with(&["--run", "-o", "x", "x.mv"])),
        Err("--run cannot be combined with native --out/--emit AOT output".to_string())
    );
    assert_eq!(check_llvm(&with(&["--run", "x.mv"])), Ok(()));
    assert_eq!(
        check_llvm(&with(&["--emit", "exe", "x.mv"])),
        Err("native-llvm does not support --emit yet (use --run or --out)".to_string())
    );
    assert_eq!(
        check_llvm(&with(&["--run", "-o", "x", "x.mv"])),
        Err("--run cannot be combined with native-llvm --out".to_string())
    );
    assert_eq!(default_wasm_out("a.core.json"), "a.wasm");
    assert_eq!(default_object_out("a.mv"), "a.o");
    assert_eq!(default_exe_out("a.mv", false), "a");
    assert_eq!(default_exe_out("a", true), "a.exe");
}

#[test]
fn the_other_commands_read_their_arguments() {
    assert_eq!(
        parse_one_file(&strings(&["--def", "f", "x.mv"]), "--def"),
        Ok((Some("f".to_string()), "x.mv".to_string()))
    );
    assert_eq!(
        parse_one_file(&strings(&[]), "--def"),
        Err("expected a file".to_string())
    );
    assert_eq!(
        parse_one_file(&strings(&["x.mv", "--store"]), "--store"),
        Err("--store requires a value".to_string())
    );
    assert_eq!(parse_store_dir(&strings(&["gc"])), Ok(".marv".to_string()));
    assert_eq!(parse_store_dir(&strings(&["gc", "--store", "d"])), Ok("d".to_string()));
    assert_eq!(
        parse_store_dir(&strings(&["gc", "d"])),
        Err("unexpected argument `d`".to_string())
    );
    assert_eq!(store_action("audit"), Ok(StoreAction::Audit));
    assert_eq!(store_action("gc"), Ok(StoreAction::Gc));
    assert_eq!(
        store_action("rm"),
        Err("unknown action `rm` (expected `audit` or `gc`)".to_string())
    );
    assert_eq!(check_file(&strings(&["--x", "a.mv"])), Ok("a.mv".to_string()));
    assert_eq!(
        check_file(&strings(&["a.mv", "b.mv"])),
        Err("expected exactly one file".to_string())
    );
    assert_eq!(resolve_impl_file(&strings(&["a.mv"])), Ok("a.mv".to_string()));
    assert_eq!(
        resolve_impl_file(&strings(&["a.core.json"])),
        Err("expected a `.mv` source file".to_string())
    );
    let f = parse_fmt(&strings(&["--check", "a.mv"])).expect("a request");
    assert!(f.check && !f.write);
    assert_eq!(f.files, ["a.mv"]);
    assert_eq!(
        parse_fmt(&strings(&["--check", "--write"])),
        Err("--check and --write are mutually exclusive".to_string())
    );
    assert_eq!(fmt_step(true, false, true), FmtStep::Keep);
    assert_eq!(fmt_step(true, false, false), FmtStep::Report);
    assert_eq!(fmt_step(false, true, false), FmtStep::Rewrite);
    assert_eq!(fmt_step(false, true, true), FmtStep::Keep);
    assert_eq!(fmt_step(false, false, true), FmtStep::Print);
}

#[test]
fn words_are_trimmed_and_split() {
    assert!(has_prefix("--run", "--") && !has_prefix("-", "--"));
    assert!(has_suffix("a.mv", ".mv") && !has_suffix("mv", ".mv"));
    assert_eq!(drop_suffix("a.mv", ".mv"), Some("a"));
    assert_eq!(drop_suffix("a.rs", ".mv"), None);
    assert_eq!(trim("  a b \t\n"), "a b");
    assert_eq!(trim_start("  a "), "a ");
    assert_eq!(split_parts("Net,Fs", ','), ["Net", "Fs"]);
}

#[test]
fn the_modules_of_a_project_are_said_to_come_from_somewhere() {
    assert_eq!(package_label("app", "/p/app"), "package `app` at /p/app");
    assert_eq!(source_root_label("/p"), "the source root /p");
}

// ---- reports --------------------------------------------------------------------------------------------

#[test]
fn a_build_is_reported() {
    let artifact = WasmArtifact {
        bytes: vec![0; 9],
        imports: vec![CapImport {
            cap: "Net".to_string(),
            op: 2,
            params: 1,
            returns_value: false,
        }],
        exports: vec![
            ExportInfo { name: "m.f".to_string(), arity: 2 },
            ExportInfo { name: "m.g".to_string(), arity: 0 },
        ],
    };
    assert_eq!(
        wasm_report("x.mv", "x.wasm", false, "wasm-component", &artifact),
        [
            "marv build: x.mv: wrote x.wasm (9 bytes) via wasm-component",
            "  capabilities required (host imports):",
            "    Net::op2 (1 arg(s))",
            "  exports: m.f/2, m.g/0",
        ]
    );
    let pure = WasmArtifact { bytes: Vec::new(), imports: Vec::new(), exports: Vec::new() };
    assert_eq!(
        wasm_report("x.mv", "x.wasm", true, "wasm-core", &pure),
        [
            "marv build: x.mv: wrote x.wasm (0 bytes) from pinned hashes via wasm-core",
            "  capabilities required: none (pure — imports nothing)",
            "  exports: ",
        ]
    );
    assert_eq!(
        native_report("x.mv", false, "native-cranelift", 1),
        "marv build: x.mv: compiled via native-cranelift (entry takes 1 word argument(s))"
    );
    assert_eq!(
        executable_report("x.mv", "x", true, "native-llvm", 0),
        "marv build: x.mv: wrote x from pinned hashes via native-llvm executable (entry takes 0 \
         word argument(s))"
    );
    assert_eq!(
        object_report("x.mv", "x.o", 10, false),
        "marv build: x.mv: wrote x.o (10 bytes) via native-cranelift object"
    );
    assert_eq!(check_link_arity(4), Ok(()));
    assert_eq!(
        check_link_arity(5),
        Err("native executable wrapper supports up to four entry arguments, got 5".to_string())
    );
    let c = object_runtime_c("m_f", 2);
    assert!(c.contains("extern int64_t m_f(int64_t a0, int64_t a1);"), "{c}");
    assert!(c.contains("marv_rt_bounds_fail"));
}

#[test]
fn a_proof_is_reported() {
    assert_eq!(
        verify_report("f", &VerifyOutcome::Proved),
        ["proved   f  (Tier 2: holds for all inputs)"]
    );
    let failed = VerifyOutcome::Failed {
        obligation: "result >= 0".to_string(),
        counterexample: vec![("x".to_string(), "-1".to_string())],
        message: "ensures can fail".to_string(),
    };
    assert_eq!(
        verify_report("f", &failed),
        [
            "FAILED   f  — ensures can fail",
            "    obligation: result >= 0",
            "    counterexample: { x = -1 }",
        ]
    );
    assert!(is_refuted(&failed) && !is_refuted(&VerifyOutcome::Proved));
    for o in [
        VerifyOutcome::Unsupported { reason: "floats".to_string() },
        VerifyOutcome::SolverUnavailable { reason: "floats".to_string() },
    ] {
        assert_eq!(
            verify_report("f", &o),
            ["unsupported f  — floats", "    fallback: runtime-checked (Tier 1)"]
        );
    }
}

#[test]
fn a_commit_is_reported() {
    let h = "b3:0123456789abcdef0123";
    assert_eq!(
        commit_line("f", h, CommitStatus::New),
        "  + f  b3:0123456789ab…  (new — frozen & reviewed)"
    );
    assert_eq!(
        commit_line("f", h, CommitStatus::Existing { reviewed: true }),
        "  = f  b3:0123456789ab…  (already in store — already reviewed)"
    );
    assert_eq!(
        commit_line("f", "b3:01", CommitStatus::Existing { reviewed: false }),
        "  = f  b3:01…  (already in store)"
    );
    assert_eq!(rebound_line("f"), "  ~ f  (name rebound to a new hash)");
    assert_eq!(
        commit_summary("x.mv", 1, 2, 3, ".marv"),
        "marv commit: x.mv: 1 new, 2 already in store (3 defs total in .marv)"
    );
}

#[test]
fn the_selected_implementations_are_reported() {
    let cmp = Selection {
        param: "T".to_string(),
        interface: "Ord".to_string(),
        type_key: "i64".to_string(),
        methods: vec![
            ("cmp".to_string(), "m.cmp$Ord$i64".to_string()),
            ("le".to_string(), "m.le$Ord$i64".to_string()),
        ],
    };
    let show = Selection {
        param: "U".to_string(),
        interface: "Show".to_string(),
        type_key: "bool".to_string(),
        methods: Vec::new(),
    };
    assert_eq!(
        resolution_report("max@i64,bool", "max", &vec![cmp, show]),
        [
            "max@i64,bool (instantiates `max`)",
            "    T: Ord = i64  ->  impl Ord[i64]",
            "        cmp -> m.cmp$Ord$i64",
            "        le -> m.le$Ord$i64",
            "    U: Show = bool  ->  impl Show[bool]",
        ]
    );
    assert_eq!(
        resolution_report("id@i64", "id", &Vec::new()),
        ["id@i64 (instantiates `id`)", "    (no bounded type parameters)"]
    );
}
