//! Lowering of marv source.

use marv::hash::symbol_hash;
use marv::ir::{
    Atom, Branch, CmpOp, Core, Def, DefKind, EffectRow, IntTy, Literal, Pred, PrimOp, Type,
};
use marv::lower::{lower_module, lower_modules, DefEntry, LoweredModule};
use marv::lower_error::LowerError;
use marv::syntax::{
    Arm, ArmBody, BinOp, Block, Bound, Else, EnumDecl, ErrorDecl, Expr, Field, FieldInit, FieldPat,
    FnDecl, Generic, IfExpr, ImplDecl, Import, InterfaceDecl, Item, LValue, MatchExpr, MethodSig,
    Module, Param, Pattern, SType, Stmt, StructDecl, Tail, UnOp, Variant,
};

// ---- a reader of marv source ------------------------------------------------------------

#[derive(Debug, Clone, PartialEq)]
enum Tok {
    Word(String),
    Int(i64),
    Str(String),
    Char(char),
    Doc(String),
    Sym(&'static str),
    End,
}

const SYMBOLS: [&str; 30] = [
    "->", "=>", "==", "!=", "<=", ">=", "(", ")", "{", "}", "[", "]", ",", ":", ".", "=", "<", ">",
    "+", "-", "*", "/", "%", "&", "!", "?", ";", "|", "@", "#",
];

struct Reader {
    toks: Vec<(Tok, usize)>,
    at: usize,
}

fn tokens(src: &str) -> Vec<(Tok, usize)> {
    let mut out = Vec::new();
    for (line, text) in src.lines().enumerate() {
        let chars: Vec<char> = text.chars().collect();
        let mut i = 0;
        while i < chars.len() {
            let c = chars[i];
            let rest: String = chars[i..].iter().collect();
            if c.is_whitespace() {
                i += 1;
            } else if let Some(doc) = rest.strip_prefix("///") {
                out.push((Tok::Doc(doc.trim().to_string()), line));
                break;
            } else if rest.starts_with("//") {
                break;
            } else if c.is_ascii_digit() {
                let mut n = 0i64;
                while i < chars.len() && (chars[i].is_ascii_digit() || chars[i] == '_') {
                    if let Some(d) = chars[i].to_digit(10) {
                        n = n * 10 + i64::from(d);
                    }
                    i += 1;
                }
                out.push((Tok::Int(n), line));
            } else if c.is_alphabetic() || c == '_' {
                let mut w = String::new();
                while i < chars.len() && (chars[i].is_alphanumeric() || chars[i] == '_') {
                    w.push(chars[i]);
                    i += 1;
                }
                out.push((Tok::Word(w), line));
            } else if c == '"' {
                let mut s = String::new();
                i += 1;
                while chars[i] != '"' {
                    s.push(chars[i]);
                    i += 1;
                }
                i += 1;
                out.push((Tok::Str(s), line));
            } else if c == '\'' {
                out.push((Tok::Char(chars[i + 1]), line));
                i += 3;
            } else {
                let s = SYMBOLS.iter().find(|s| rest.starts_with(**s)).expect("a symbol");
                out.push((Tok::Sym(s), line));
                i += s.len();
            }
        }
    }
    out
}

impl Reader {
    fn peek(&self) -> Tok {
        self.toks.get(self.at).map(|t| t.0.clone()).unwrap_or(Tok::End)
    }

    /// Whether the next token stands on the line of the last one.
    fn same_line(&self) -> bool {
        self.at > 0 && self.at < self.toks.len() && self.toks[self.at].1 == self.toks[self.at - 1].1
    }

    fn is(&self, s: &str) -> bool {
        matches!(self.peek(), Tok::Sym(x) if x == s)
    }

    fn is_word(&self, w: &str) -> bool {
        matches!(self.peek(), Tok::Word(x) if x == w)
    }

    fn eat(&mut self, s: &str) -> bool {
        let hit = self.is(s);
        if hit {
            self.at += 1;
        }
        hit
    }

    fn eat_word(&mut self, w: &str) -> bool {
        let hit = self.is_word(w);
        if hit {
            self.at += 1;
        }
        hit
    }

    fn want(&mut self, s: &str) {
        if !self.eat(s) {
            panic!("expected `{s}`, found {:?} at token {}", self.peek(), self.at);
        }
    }

    fn word(&mut self) -> String {
        match self.peek() {
            Tok::Word(w) => {
                self.at += 1;
                w
            }
            other => panic!("expected a name, found {other:?}"),
        }
    }

    fn path(&mut self) -> Vec<String> {
        let mut p = vec![self.word()];
        while self.eat(".") {
            p.push(self.word());
        }
        p
    }

    fn module(&mut self) -> Module {
        assert!(self.eat_word("mod"), "a module starts with `mod`");
        let name = self.path();
        let mut imports = Vec::new();
        let mut items = Vec::new();
        let mut docs = Vec::new();
        loop {
            match self.peek() {
                Tok::End => break,
                Tok::Doc(d) => {
                    docs.push(d);
                    self.at += 1;
                }
                _ if self.eat_word("import") => {
                    let path = self.path();
                    let mut names = Vec::new();
                    self.want("(");
                    while !self.eat(")") {
                        names.push(self.word());
                        self.eat(",");
                    }
                    imports.push(Import { path, names });
                }
                _ => {
                    let d = docs.drain(..).collect();
                    items.push(self.item(d));
                }
            }
        }
        Module { name, imports, items }
    }

    fn item(&mut self, docs: Vec<String>) -> Item {
        let linear = self.eat_word("linear");
        if self.eat_word("struct") {
            let name = self.word();
            let generics = self.generics();
            self.want("{");
            let mut fields = Vec::new();
            while !self.eat("}") {
                let name = self.word();
                self.want(":");
                fields.push(Field { name, ty: self.ty() });
                self.eat(",");
            }
            return Item::Struct(StructDecl { name, generics, linear, fields });
        }
        if self.eat_word("enum") {
            let name = self.word();
            let generics = self.generics();
            self.want("{");
            let mut variants = Vec::new();
            while !self.eat("}") {
                let name = self.word();
                let mut fields = Vec::new();
                if self.eat("(") {
                    while !self.eat(")") {
                        fields.push(self.ty());
                        self.eat(",");
                    }
                }
                variants.push(Variant { name, fields });
                self.eat(",");
            }
            return Item::Enum(EnumDecl { name, generics, variants });
        }
        if self.eat_word("error") {
            let name = self.word();
            self.want("{");
            let mut variants = Vec::new();
            while !self.eat("}") {
                variants.push(self.word());
                self.eat(",");
            }
            return Item::Error(ErrorDecl { name, variants });
        }
        let is_capability = self.eat_word("capability");
        if self.eat_word("interface") {
            let name = self.word();
            let generics = self.generics();
            self.want("{");
            let mut methods = Vec::new();
            while !self.eat("}") {
                assert!(self.eat_word("fn"), "a method");
                let name = self.word();
                let params = self.params();
                let ret = if self.eat("->") { Some(self.ty()) } else { None };
                methods.push(MethodSig { name, params, ret });
            }
            return Item::Interface(InterfaceDecl { name, generics, is_capability, methods });
        }
        if self.eat_word("impl") {
            let interface = self.path();
            let mut args = Vec::new();
            if self.eat("[") {
                while !self.eat("]") {
                    args.push(self.ty());
                    self.eat(",");
                }
            }
            self.want("{");
            let mut methods = Vec::new();
            while !self.eat("}") {
                methods.push(self.function(Vec::new()));
            }
            return Item::Impl(ImplDecl { interface, args, methods });
        }
        Item::Fn(self.function(docs))
    }

    fn function(&mut self, docs: Vec<String>) -> FnDecl {
        let mut is_unsafe = false;
        let mut foreign = false;
        loop {
            if self.eat_word("pure") {
            } else if self.eat_word("unsafe") {
                is_unsafe = true;
            } else if self.eat_word("extern") {
                foreign = true;
            } else {
                break;
            }
        }
        assert!(self.eat_word("fn"), "expected a function, found {:?}", self.peek());
        let name = self.word();
        let generics = self.generics();
        let params = self.params();
        let ret = if self.eat("->") { Some(self.ty()) } else { None };
        let mut pre = Vec::new();
        let mut post = Vec::new();
        loop {
            if self.eat_word("requires") {
                pre.push(self.expr(false));
            } else if self.eat_word("ensures") {
                post.push(self.expr(false));
            } else {
                break;
            }
        }
        let body = if foreign { None } else { Some(self.block()) };
        FnDecl { name, generics, params, ret, pre, post, body, docs, is_unsafe }
    }

    fn generics(&mut self) -> Vec<Generic> {
        let mut out = Vec::new();
        if self.eat("[") {
            while !self.eat("]") {
                let name = self.word();
                let bound = if self.eat(":") { Some(Bound { path: self.path() }) } else { None };
                out.push(Generic { name, bound });
                self.eat(",");
            }
        }
        out
    }

    fn params(&mut self) -> Vec<Param> {
        let mut out = Vec::new();
        self.want("(");
        while !self.eat(")") {
            let name = self.word();
            self.want(":");
            out.push(Param { name, ty: self.ty() });
            self.eat(",");
        }
        out
    }

    fn ty(&mut self) -> SType {
        if self.eat("(") {
            self.want(")");
            return SType::Unit;
        }
        if self.eat("&") {
            let mutable = self.eat_word("mut");
            return SType::Ref { mutable, inner: Box::new(self.ty()) };
        }
        if self.eat("!") {
            let inner = self.ty();
            return SType::ErrorUnion(if inner == SType::Unit { None } else { Some(Box::new(inner)) });
        }
        if self.eat("?") {
            return SType::Optional(Box::new(self.ty()));
        }
        if self.eat("[") {
            if let Tok::Int(n) = self.peek() {
                self.at += 1;
                self.want("]");
                return SType::Array { len: n as u64, elem: Box::new(self.ty()) };
            }
            self.want("]");
            return SType::Slice(Box::new(self.ty()));
        }
        let path = self.path();
        if self.same_line() && self.eat("[") {
            let mut args = Vec::new();
            while !self.eat("]") {
                args.push(self.ty());
                self.eat(",");
            }
            return SType::Generic { path, args };
        }
        SType::Named(path)
    }

    fn block(&mut self) -> Block {
        self.want("{");
        let mut stmts = Vec::new();
        let mut tail = None;
        while !self.eat("}") {
            if self.eat_word("let") {
                let (name, ty, value) = self.binding();
                stmts.push(Stmt::Let { name, ty, value });
            } else if self.eat_word("var") {
                let (name, ty, value) = self.binding();
                stmts.push(Stmt::Var { name, ty, value });
            } else if self.eat_word("while") {
                let cond = self.expr(true);
                let mut invariants = Vec::new();
                while self.eat_word("invariant") {
                    invariants.push(self.expr(true));
                }
                let body = self.block();
                stmts.push(Stmt::While { cond, invariants, body });
            } else if self.eat_word("for") {
                let binder = self.word();
                assert!(self.eat_word("in"), "`for x in e`");
                let iter = self.expr(true);
                let body = self.block();
                stmts.push(Stmt::For { binder, iter, body });
            } else if self.eat_word("return") {
                let value =
                    if self.is("}") || !self.same_line() { None } else { Some(self.expr(false)) };
                tail = Some(Tail::Return(value));
            } else if self.eat_word("if") {
                tail = Some(Tail::If(Box::new(self.conditional())));
            } else if self.eat_word("match") {
                tail = Some(Tail::Match(Box::new(self.matching())));
            } else {
                let e = self.expr(false);
                if self.eat("=") {
                    let value = self.expr(false);
                    stmts.push(Stmt::Assign { target: target(e), value });
                } else {
                    tail = Some(Tail::Expr(e));
                }
            }
        }
        Block { stmts, tail }
    }

    fn binding(&mut self) -> (String, Option<SType>, Expr) {
        let name = self.word();
        let ty = if self.eat(":") { Some(self.ty()) } else { None };
        self.want("=");
        (name, ty, self.expr(false))
    }

    fn conditional(&mut self) -> IfExpr {
        let cond = self.expr(true);
        let yes = self.block();
        let no = if self.eat_word("else") {
            if self.eat_word("if") {
                Some(Else::If(Box::new(self.conditional())))
            } else {
                Some(Else::Block(self.block()))
            }
        } else {
            None
        };
        IfExpr { cond, yes, no }
    }

    fn matching(&mut self) -> MatchExpr {
        let scrutinee = self.expr(true);
        let mut arms = Vec::new();
        self.want("{");
        while !self.eat("}") {
            let pat = if self.eat_word("_") {
                Pattern::Wildcard
            } else {
                let path = self.path();
                let mut fields = Vec::new();
                if self.eat("(") {
                    while !self.eat(")") {
                        let w = self.word();
                        fields.push(if w == "_" { FieldPat::Wildcard } else { FieldPat::Bind(w) });
                        self.eat(",");
                    }
                }
                Pattern::Ctor { path, fields }
            };
            self.want("=>");
            let body =
                if self.is("{") { ArmBody::Block(self.block()) } else { ArmBody::Expr(self.expr(false)) };
            self.eat(",");
            arms.push(Arm { pat, body });
        }
        MatchExpr { scrutinee, arms }
    }

    /// An expression; before a block, a `{` does not start a struct literal.
    fn expr(&mut self, before_block: bool) -> Expr {
        self.binary(0, before_block)
    }

    fn binary(&mut self, level: usize, before_block: bool) -> Expr {
        if level == 5 {
            return self.unary(before_block);
        }
        let mut left = self.binary(level + 1, before_block);
        while self.same_line() {
            let op = match (level, self.peek()) {
                (0, Tok::Word(w)) if w == "or" => BinOp::Or,
                (1, Tok::Word(w)) if w == "and" => BinOp::And,
                (2, Tok::Sym("==")) => BinOp::Eq,
                (2, Tok::Sym("!=")) => BinOp::Ne,
                (2, Tok::Sym("<")) => BinOp::Lt,
                (2, Tok::Sym("<=")) => BinOp::Le,
                (2, Tok::Sym(">")) => BinOp::Gt,
                (2, Tok::Sym(">=")) => BinOp::Ge,
                (3, Tok::Sym("+")) => BinOp::Add,
                (3, Tok::Sym("-")) => BinOp::Sub,
                (4, Tok::Sym("*")) => BinOp::Mul,
                (4, Tok::Sym("/")) => BinOp::Div,
                (4, Tok::Sym("%")) => BinOp::Rem,
                _ => break,
            };
            self.at += 1;
            let right = self.binary(level + 1, before_block);
            left = Expr::Binary(Box::new(left), op, Box::new(right));
        }
        left
    }

    fn unary(&mut self, before_block: bool) -> Expr {
        if self.eat("-") {
            return Expr::Unary(UnOp::Neg, Box::new(self.unary(before_block)));
        }
        if self.eat_word("not") {
            return Expr::Unary(UnOp::Not, Box::new(self.unary(before_block)));
        }
        if self.eat("&") {
            let op = if self.eat_word("mut") { UnOp::RefMut } else { UnOp::Ref };
            return Expr::Unary(op, Box::new(self.unary(before_block)));
        }
        let mut e = self.primary(before_block);
        while self.same_line() {
            if self.eat("(") {
                e = Expr::Call(Box::new(e), self.list(")"));
            } else if self.eat("[") {
                let index = self.expr(false);
                self.want("]");
                e = Expr::Index(Box::new(e), Box::new(index));
            } else if self.eat(".") {
                e = Expr::Field(Box::new(e), self.word());
            } else if self.eat("?") {
                e = Expr::Try(Box::new(e));
            } else if self.eat_word("as") {
                e = Expr::Cast(Box::new(e), self.ty());
            } else {
                break;
            }
        }
        e
    }

    fn list(&mut self, end: &str) -> Vec<Expr> {
        let mut out = Vec::new();
        while !self.eat(end) {
            out.push(self.expr(false));
            self.eat(",");
        }
        out
    }

    fn primary(&mut self, before_block: bool) -> Expr {
        let t = self.peek();
        self.at += 1;
        match t {
            Tok::Int(n) => Expr::Int(n),
            Tok::Str(s) => Expr::Str(s),
            Tok::Char(c) => Expr::Char(c),
            Tok::Sym("(") => {
                if self.eat(")") {
                    return Expr::Unit;
                }
                let e = self.expr(false);
                self.want(")");
                e
            }
            Tok::Sym("[") => Expr::Array(self.list("]")),
            Tok::Word(w) if w == "true" || w == "false" => Expr::Bool(w == "true"),
            Tok::Word(w) => {
                let upper = w.chars().next().is_some_and(char::is_uppercase);
                if upper && !before_block && self.same_line() && self.eat("{") {
                    let mut fields = Vec::new();
                    while !self.eat("}") {
                        let name = self.word();
                        self.want(":");
                        fields.push(FieldInit { name, value: self.expr(false) });
                        self.eat(",");
                    }
                    return Expr::Struct { path: vec![w], fields };
                }
                Expr::Var(w)
            }
            other => panic!("expected an expression, found {other:?}"),
        }
    }
}

fn target(e: Expr) -> LValue {
    match e {
        Expr::Var(x) => LValue::Var(x),
        Expr::Field(base, f) => LValue::Field(Box::new(target(*base)), f),
        Expr::Index(base, i) => LValue::Index(Box::new(target(*base)), i),
        other => panic!("not a place: {other:?}"),
    }
}

fn parse(src: &str) -> Module {
    let mut r = Reader { toks: tokens(src), at: 0 };
    r.module()
}

// ---- what tests ask of a lowered module -----------------------------------------------------

fn try_lower(src: &str) -> Result<LoweredModule, LowerError> {
    lower_module(&parse(src))
}

fn lower(src: &str) -> LoweredModule {
    try_lower(src).unwrap_or_else(|e| panic!("lower failed: {}\n{src}", e.message()))
}

fn lower_err(src: &str) -> LowerError {
    try_lower(src).expect_err("lowering should fail")
}

fn hashes(src: &str) -> Vec<marv::ir::Hash> {
    lower(src).defs.iter().map(|d| d.hash).collect()
}

fn hash_of(src: &str, name: &str) -> String {
    def(&lower(src), name).hash.to_hex()
}

fn only_def(src: &str) -> Def {
    let m = lower(src);
    assert_eq!(m.defs.len(), 1, "expected exactly one definition");
    m.defs.into_iter().next().unwrap().def
}

fn def<'a>(m: &'a LoweredModule, name: &str) -> &'a DefEntry {
    m.defs
        .iter()
        .find(|d| d.name == name)
        .unwrap_or_else(|| panic!("no def `{name}` (have: {:?})", names(m)))
}

/// The body of a function inside its parameters.
fn fn_body(m: &LoweredModule, name: &str) -> Core {
    let mut body = def(m, name).def.body.clone().expect("fn body");
    while let Core::Lam { body: inner, .. } = body {
        body = *inner;
    }
    body
}

fn find_cast(c: &Core) -> Option<(Atom, Type)> {
    match c {
        Core::Cast { value, to } => Some((value.clone(), to.clone())),
        Core::Let { value, body } => find_cast(value).or_else(|| find_cast(body)),
        Core::Match { branches, .. } => branches.iter().find_map(|b| find_cast(&b.body)),
        Core::Lam { body, .. } => find_cast(body),
        Core::Loop { cond, body, .. } => find_cast(cond).or_else(|| find_cast(body)),
        _ => None,
    }
}

fn has_prim(c: &Core, op: PrimOp) -> bool {
    match c {
        Core::Prim { op: o, .. } => *o == op,
        Core::Let { value, body } => has_prim(value, op) || has_prim(body, op),
        Core::Match { branches, .. } => branches.iter().any(|b| has_prim(&b.body, op)),
        Core::Lam { body, .. } => has_prim(body, op),
        Core::Loop { cond, body, .. } => has_prim(cond, op) || has_prim(body, op),
        _ => false,
    }
}

const COLOR: &str = "\
mod demo

enum Color {
    Red,
    Green,
    Blue,
}

pure fn rank(c: Color) -> i64 {
    match c {
        Color.Red => 1,
        Color.Green => 2,
        Color.Blue => 3,
    }
}
";

fn peel_to_match(mut c: Core) -> Core {
    loop {
        match c {
            Core::Lam { body, .. } => c = *body,
            other => return other,
        }
    }
}

fn collect_ctors(c: &Core) -> Vec<(marv::ir::Hash, u32, usize)> {
    let mut out = Vec::new();
    fn walk(c: &Core, out: &mut Vec<(marv::ir::Hash, u32, usize)>) {
        match c {
            Core::Ctor { ty, tag, fields } => out.push((*ty, *tag, fields.len())),
            Core::Let { value, body } => {
                walk(value, out);
                walk(body, out);
            }
            Core::Lam { body, .. } => walk(body, out),
            Core::Match { branches, .. } => branches.iter().for_each(|b| walk(&b.body, out)),
            Core::Loop { cond, body, .. } => {
                walk(cond, out);
                walk(body, out);
            }
            _ => {}
        }
    }
    walk(c, &mut out);
    out
}

fn assert_unresolved_option(err: LowerError) {
    match err {
        LowerError::UnresolvedImportedEnum { name, module } => {
            assert_eq!(name, "Option");
            assert_eq!(module, "std.option");
        }
        other => panic!("expected UnresolvedImportedEnum, got: {other:?}"),
    }
}

const SRC: &str = "\
mod m

error ParseError { Empty, Overflow }

fn digit(b: i64) -> !i64 {
    if (b < 0) {
        ParseError.Empty
    } else {
        b
    }
}

fn sum(x: i64) -> !i64 {
    let a = digit(x)?
    a
}
";

fn contains_raise(c: &Core, err: marv::ir::Hash) -> bool {
    match c {
        Core::Raise { error, .. } => *error == err,
        Core::Let { value, body } => contains_raise(value, err) || contains_raise(body, err),
        Core::Lam { body, .. } => contains_raise(body, err),
        Core::Match { branches, .. } => branches.iter().any(|b| contains_raise(&b.body, err)),
        Core::Loop { cond, body, .. } => contains_raise(cond, err) || contains_raise(body, err),
        _ => false,
    }
}

fn arrow_ret(t: &Type) -> &Type {
    match t {
        Type::Arrow { ret, .. } if matches!(**ret, Type::Arrow { .. }) => arrow_ret(ret),
        Type::Arrow { ret, .. } => ret,
        other => other,
    }
}

fn names(m: &LoweredModule) -> Vec<&str> {
    m.defs.iter().map(|d| d.name.as_str()).collect()
}

const MAX: &str = "\
mod demo

enum Ordering {
    Lt,
    Eq,
    Gt,
}

interface Ord[T] {
    fn cmp(a: T, b: T) -> Ordering
}

impl Ord[i32] {
    fn cmp(a: i32, b: i32) -> Ordering {
        if (a < b) {
            Ordering.Lt
        } else {
            Ordering.Gt
        }
    }
}

fn max[T: Ord](a: T, b: T) -> T {
    match cmp(a, b) {
        Ordering.Lt => b,
        Ordering.Eq => a,
        Ordering.Gt => a,
    }
}

fn main() -> i32 {
    max(3, 7)
}
";

fn ty_has_var(t: &Type) -> bool {
    match t {
        Type::Var(_) => true,
        Type::Array(e, _) | Type::Slice(e) | Type::Linear(e) | Type::Ref { of: e, .. } => {
            ty_has_var(e)
        }
        Type::Tuple(es) => es.iter().any(ty_has_var),
        Type::Arrow { param, ret, .. } => ty_has_var(param) || ty_has_var(ret),
        Type::Nominal { args, .. } => args.iter().any(ty_has_var),
        _ => false,
    }
}

fn globals(c: &Core) -> Vec<marv::ir::Hash> {
    let mut out = Vec::new();
    walk(c, &mut out);
    out
}

fn walk(c: &Core, out: &mut Vec<marv::ir::Hash>) {
    let atom = |a: &Atom, out: &mut Vec<marv::ir::Hash>| {
        if let Atom::Global(h) = a {
            out.push(*h);
        }
    };
    match c {
        Core::Atom(a) => atom(a, out),
        Core::Let { value, body } => {
            walk(value, out);
            walk(body, out);
        }
        Core::Lam { body, .. } => walk(body, out),
        Core::App { func, arg } => {
            atom(func, out);
            atom(arg, out);
        }
        Core::Ctor { fields, .. } => fields.iter().for_each(|a| atom(a, out)),
        Core::Array { items, .. } => items.iter().for_each(|a| atom(a, out)),
        Core::IndexSet { base, index, value } => {
            atom(base, out);
            atom(index, out);
            atom(value, out);
        }
        Core::ListNew {
            alloc, capacity, ..
        } => {
            atom(alloc, out);
            atom(capacity, out);
        }
        Core::ListPush { alloc, list, value } => {
            atom(alloc, out);
            atom(list, out);
            atom(value, out);
        }
        Core::ListPop { list } => atom(list, out),
        Core::ListSet { list, index, value } => {
            atom(list, out);
            atom(index, out);
            atom(value, out);
        }
        Core::Proj { base, .. } => atom(base, out),
        Core::Match {
            scrutinee,
            branches,
        } => {
            atom(scrutinee, out);
            branches.iter().for_each(|b| walk(&b.body, out));
        }
        Core::Prim { args, .. } => args.iter().for_each(|a| atom(a, out)),
        Core::Cast { value, .. } => atom(value, out),
        Core::Ref { of, .. } => atom(of, out),
        Core::Perform { cap, args, .. } => {
            atom(cap, out);
            args.iter().for_each(|a| atom(a, out));
        }
        Core::Raise { args, .. } => args.iter().for_each(|a| atom(a, out)),
        Core::Return { value } => atom(value, out),
        Core::Loop {
            state, cond, body, ..
        } => {
            state.iter().for_each(|a| atom(a, out));
            walk(cond, out);
            walk(body, out);
        }
    }
}

#[derive(Default)]
struct ListCounts {
    new: usize,
    pushes: usize,
    new_capacity: Option<Atom>,
    push_values: Vec<Atom>,
}

fn count_lists(c: &Core, counts: &mut ListCounts) {
    match c {
        Core::ListNew { capacity, .. } => {
            counts.new += 1;
            counts.new_capacity = Some(capacity.clone());
        }
        Core::ListPush { value, .. } => {
            counts.pushes += 1;
            counts.push_values.push(value.clone());
        }
        _ => {}
    }

    match c {
        Core::Let { value, body } => {
            count_lists(value, counts);
            count_lists(body, counts);
        }
        Core::Lam { body, .. } | Core::Loop { body, .. } => count_lists(body, counts),
        Core::Match { branches, .. } => {
            for branch in branches {
                count_lists(&branch.body, counts);
            }
        }
        _ => {}
    }
}

fn has_ctor(c: &Core, ty: marv::ir::Hash) -> bool {
    match c {
        Core::Ctor { ty: found, .. } if *found == ty => true,
        Core::Let { value, body } => has_ctor(value, ty) || has_ctor(body, ty),
        Core::Lam { body, .. } | Core::Loop { body, .. } => has_ctor(body, ty),
        Core::Match { branches, .. } => branches.iter().any(|b| has_ctor(&b.body, ty)),
        _ => false,
    }
}

fn has_entry_hash_sentinel(c: &Core) -> bool {
    match c {
        Core::Ctor { ty, fields, .. } if *ty == symbol_hash("std.collections.Entry") => {
            fields.first() == Some(&Atom::Lit(Literal::Int(0)))
        }
        Core::Let { value, body } => {
            has_entry_hash_sentinel(value) || has_entry_hash_sentinel(body)
        }
        Core::Lam { body, .. } | Core::Loop { body, .. } => has_entry_hash_sentinel(body),
        Core::Match { branches, .. } => branches.iter().any(|b| has_entry_hash_sentinel(&b.body)),
        _ => false,
    }
}

fn find_loop(c: &Core) -> Option<&Core> {
    fn walk<'a>(c: &'a Core, found: &mut Option<&'a Core>) {
        if found.is_some() {
            return;
        }
        if matches!(c, Core::Loop { .. }) {
            *found = Some(c);
            return;
        }
        match c {
            Core::Let { value, body } => {
                walk(value, found);
                walk(body, found);
            }
            Core::Loop { cond, body, .. } => {
                walk(cond, found);
                walk(body, found);
            }
            Core::Match { branches, .. } => branches.iter().for_each(|b| walk(&b.body, found)),
            Core::Lam { body, .. } => walk(body, found),
            _ => {}
        }
    }
    let mut found = None;
    walk(c, &mut found);
    found
}

const SUM_TO: &str = "\
mod demo

pure fn sum_to(n: i64) -> i64 {
    var sum: i64 = 0
    var i: i64 = n
    while (i > 0) {
        sum = (sum + i)
        i = (i - 1)
    }
    sum
}
";

fn innermost(c: &Core) -> &Core {
    let mut cur = c;
    while let Core::Let { body, .. } = cur {
        cur = body;
    }
    cur
}

fn count(c: &Core, ctors: &mut usize, projs: &mut usize) {
    match c {
        Core::Ctor { fields, .. } => {
            *ctors += 1;
            let _ = fields;
        }
        Core::Proj { .. } => *projs += 1,
        _ => {}
    }
    match c {
        Core::Let { value, body } => {
            count(value, ctors, projs);
            count(body, ctors, projs);
        }
        Core::Match { branches, .. } => {
            for b in branches {
                count(&b.body, ctors, projs);
            }
        }
        Core::Lam { body, .. } | Core::Loop { body, .. } => count(body, ctors, projs),
        _ => {}
    }
}

const POINT: &str = "struct Point { x: i64, y: i64 }";

fn has_index_set(c: &Core) -> bool {
    match c {
        Core::IndexSet { .. } => true,
        Core::Let { value, body } => has_index_set(value) || has_index_set(body),
        Core::Match { branches, .. } => branches.iter().any(|b| has_index_set(&b.body)),
        Core::Lam { body, .. } | Core::Loop { body, .. } => has_index_set(body),
        _ => false,
    }
}

fn find_ref(c: &Core) -> Option<bool> {
    match c {
        Core::Ref { mutable, .. } => Some(*mutable),
        Core::Let { value, body } => find_ref(value).or_else(|| find_ref(body)),
        Core::Match { branches, .. } => branches.iter().find_map(|b| find_ref(&b.body)),
        Core::Lam { body, .. } => find_ref(body),
        Core::Loop { cond, body, .. } => find_ref(cond).or_else(|| find_ref(body)),
        _ => None,
    }
}

// ---- tests ---------------------------------------------------------------------------------

#[test]
fn alpha_equivalent_renamed_locals_hash_identically() {
    let a = "\
mod m

pure fn f(a: i32, b: i32) -> i32 {
    let s = (a + b)
    (s * a)
}
";
    let b = "\
mod m

pure fn f(first: i32, second: i32) -> i32 {
  let total = first+second
  total*first
}
";
    assert_eq!(hashes(a), hashes(b));
}

#[test]
fn alpha_equivalent_if_and_calls_hash_identically() {
    let a = "\
mod demo

pure fn classify(n: i32) -> i32 {
    if (n < 0) {
        neg(n)
    } else {
        n
    }
}
";
    let b = "\
mod demo

pure fn classify(value: i32) -> i32 {
    if value < 0 {
        neg(value)
    } else {
        value
    }
}
";
    assert_eq!(hashes(a), hashes(b));
}

#[test]
fn renaming_a_called_global_changes_the_hash() {
    let a = "\
mod demo

pure fn classify(n: i32) -> i32 {
    if (n < 0) {
        neg(n)
    } else {
        n
    }
}
";
    let b = "\
mod demo

pure fn classify(n: i32) -> i32 {
    if (n < 0) {
        negate(n)
    } else {
        n
    }
}
";
    assert_ne!(hashes(a), hashes(b));
}

#[test]
fn structurally_identical_structs_dedupe() {
    let m = lower(
        "\
mod m

struct Point { x: i32, y: i32 }

struct Pair { first: i32, second: i32 }
",
    );
    assert_eq!(m.defs[0].hash, m.defs[1].hash);
}

#[test]
fn field_order_is_significant() {
    let a = lower("mod m\nstruct S { x: i32, y: bool }\n");
    let b = lower("mod m\nstruct S { x: bool, y: i32 }\n");
    assert_ne!(a.defs[0].hash, b.defs[0].hash);
}

#[test]
fn linear_struct_differs_from_plain() {
    let a = lower("mod m\nstruct S { x: i32 }\n");
    let b = lower("mod m\nlinear struct S { x: i32 }\n");
    assert_ne!(a.defs[0].hash, b.defs[0].hash);
}

#[test]
fn a_function_name_is_not_part_of_its_identity() {
    let a = only_def("mod m\npure fn add(a: i32, b: i32) -> i32 {\n    (a + b)\n}\n");
    let b = only_def("mod m\npure fn plus(a: i32, b: i32) -> i32 {\n    (a + b)\n}\n");
    assert_eq!(a.content_hash(), b.content_hash());
}

#[test]
fn lowering_is_deterministic() {
    let src = "mod m\npure fn f(a: i32) -> i32 {\n    (a + a)\n}\n";
    assert_eq!(hashes(src), hashes(src));
}

#[test]
fn golden_curried_arithmetic() {
    let def = only_def("mod m\npure fn add(a: i32, b: i32) -> i32 {\n    (a + b)\n}\n");

    let i32t = || Type::Int(IntTy::I32);
    let expected = Def {
        kind: DefKind::Fn,
        ty: Type::Arrow {
            param: Box::new(i32t()),
            ret: Box::new(Type::Arrow {
                param: Box::new(i32t()),
                ret: Box::new(i32t()),
                effects: EffectRow::empty(),
            }),
            effects: EffectRow::empty(),
        },
        pre: vec![],
        post: vec![],
        body: Some(Core::Lam {
            param: i32t(),
            effects: EffectRow::empty(),
            body: Box::new(Core::Lam {
                param: i32t(),
                effects: EffectRow::empty(),
                body: Box::new(Core::Prim {
                    op: PrimOp::Add,
                    args: vec![Atom::Var(1), Atom::Var(0)],
                }),
            }),
        }),
    };
    assert_eq!(def, expected);
}

#[test]
fn golden_anf_hoists_nested_calls() {
    let def = only_def("mod m\npure fn f(a: i32) -> i32 {\n    g(h(a))\n}\n");

    let expected_body = Core::Lam {
        param: Type::Int(IntTy::I32),
        effects: EffectRow::empty(),
        body: Box::new(Core::Let {
            value: Box::new(Core::App {
                func: Atom::Global(symbol_hash("h")),
                arg: Atom::Var(0),
            }),
            body: Box::new(Core::App {
                func: Atom::Global(symbol_hash("g")),
                arg: Atom::Var(0),
            }),
        }),
    };

    assert_eq!(def.body.as_ref().unwrap(), &expected_body);
}

#[test]
fn golden_if_lowers_to_bool_match() {
    let def = only_def(
        "mod m\npure fn pick(c: bool) -> i32 {\n    if c {\n        1\n    } else {\n        0\n    }\n}\n",
    );

    let expected_body = Core::Lam {
        param: Type::Bool,
        effects: EffectRow::empty(),
        body: Box::new(Core::Match {
            scrutinee: Atom::Var(0),
            branches: vec![
                Branch {
                    binds: 0,
                    body: Core::Atom(Atom::Lit(Literal::Int(0))),
                },
                Branch {
                    binds: 0,
                    body: Core::Atom(Atom::Lit(Literal::Int(1))),
                },
            ],
        }),
    };
    assert_eq!(def.body.as_ref().unwrap(), &expected_body);
}

#[test]
fn golden_method_call_desugars_and_anf_normalizes() {
    let def = only_def("mod m\nfn run(io: Io) -> () {\n    io.write(\"hi\")\n}\n");

    let write = Atom::Global(symbol_hash("write"));
    let io_ty = Type::Nominal {
        def: symbol_hash("Io"),
        args: vec![],
    };
    let expected_body = Core::Lam {
        param: io_ty,
        effects: EffectRow::empty(),
        body: Box::new(Core::Let {
            value: Box::new(Core::App {
                func: write,
                arg: Atom::Var(0),
            }),

            body: Box::new(Core::App {
                func: Atom::Var(0),
                arg: Atom::Lit(Literal::Str("hi".to_string())),
            }),
        }),
    };
    assert_eq!(def.body.as_ref().unwrap(), &expected_body);
}

#[test]
fn golden_field_projection_resolves_index() {
    let m = lower(
        "\
mod g

struct Point { x: i32, y: i32 }

pure fn gety(p: &Point) -> i32 {
    p.y
}
",
    );
    let gety = &m.defs[1].def;
    let point_ty = Type::Ref {
        mutable: false,
        of: Box::new(Type::Nominal {
            def: symbol_hash("g.Point"),
            args: vec![],
        }),
    };
    let expected_body = Core::Lam {
        param: point_ty,
        effects: EffectRow::empty(),
        body: Box::new(Core::Proj {
            base: Atom::Var(0),
            idx: 1,
        }),
    };
    assert_eq!(gety.body.as_ref().unwrap(), &expected_body);
}

#[test]
fn unresolved_projection_is_an_honest_error() {
    let module = parse("mod m\nfn f(p: Unknown) -> i32 {\n    p.field\n}\n");
    match lower_module(&module) {
        Err(LowerError::UnresolvedProjection { field }) => assert_eq!(field, "field"),
        other => panic!("expected UnresolvedProjection, got {other:?}"),
    }
}

#[test]
fn def_entry_names_are_preserved() {
    let m = lower("mod m\npure fn answer() -> i32 {\n    42\n}\n");
    let entry: &DefEntry = &m.defs[0];
    assert_eq!(entry.name, "answer");
}

#[test]
fn cast_lowers_to_cast_node_with_target_type() {
    let m = lower("mod m\n\nfn f(n: i64) -> u8 {\n    (n as u8)\n}\n");
    let (_, to) = find_cast(&fn_body(&m, "f")).expect("a Cast node");
    assert_eq!(to, Type::Int(IntTy::U8));
}

#[test]
fn char_literal_lowers_to_char_lit() {
    let m = lower("mod m\n\nfn f() -> char {\n    'A'\n}\n");
    match fn_body(&m, "f") {
        Core::Atom(Atom::Lit(Literal::Char(c))) => assert_eq!(c, 'A'),
        other => panic!("expected a char literal, got {other:?}"),
    }
}

#[test]
fn len_builtin_lowers_to_prim_len() {
    let m = lower("mod m\n\nfn f(s: str) -> usize {\n    len(s)\n}\n");
    assert!(
        has_prim(&fn_body(&m, "f"), PrimOp::Len),
        "len(x) must lower to Prim::Len"
    );
}

#[test]
fn a_local_named_len_shadows_the_builtin() {
    let m = lower("mod m\n\nfn f(len: i64, s: i64) -> i64 {\n    s\n}\n\nfn g(s: str) -> usize {\n    len(s)\n}\n");

    assert!(has_prim(&fn_body(&m, "g"), PrimOp::Len));
}

#[test]
fn alpha_equivalent_casts_hash_identically() {
    let a = lower("mod m\n\nfn f(x: i64) -> u8 {\n    (x as u8)\n}\n");
    let b = lower("mod m\n\nfn f(y: i64) -> u8 {\n    (y as u8)\n}\n");
    assert_eq!(
        def(&a, "f").hash,
        def(&b, "f").hash,
        "renaming the parameter must not change the content hash"
    );
}

#[test]
fn casts_to_different_widths_hash_differently() {
    let a = lower("mod m\n\nfn f(x: i64) -> u8 {\n    (x as u8)\n}\n");
    let b = lower("mod m\n\nfn f(x: i64) -> u16 {\n    (x as u16)\n}\n");
    assert_ne!(
        def(&a, "f").hash,
        def(&b, "f").hash,
        "the cast target type is part of identity"
    );
}

#[test]
fn doc_comments_do_not_change_the_content_hash() {
    let undocumented = "mod m\n\nfn f(x: i32) -> i32 {\n    x\n}\n";
    let documented = "mod m\n\n/// Identity on i32.\n///\n/// Second paragraph.\nfn f(x: i32) -> i32 {\n    x\n}\n";
    assert_eq!(
        hash_of(undocumented, "f"),
        hash_of(documented, "f"),
        "doc comments must not be part of the Core identity"
    );
}

#[test]
fn changing_doc_text_does_not_change_the_hash() {
    let a = "mod m\n\n/// One wording.\nfn f() {}\n";
    let b = "mod m\n\n/// A completely different wording entirely.\nfn f() {}\n";
    assert_eq!(hash_of(a, "f"), hash_of(b, "f"));
}

#[test]
fn enum_def_is_recorded_with_variant_metadata() {
    let m = lower(COLOR);
    let e = def(&m, "Color");
    assert_eq!(e.def.kind, DefKind::Enum);
    let variants = e.enum_variants.as_ref().expect("enum variant metadata");
    let names: Vec<&str> = variants.iter().map(|v| v.name.as_str()).collect();
    assert_eq!(names, ["Red", "Green", "Blue"]);

    assert!(variants.iter().all(|v| v.fields.is_empty()));
}

#[test]
fn match_lowers_to_tag_ordered_branches() {
    let m = lower(COLOR);
    let body = def(&m, "rank").def.body.clone().expect("fn body");

    let mat = match body {
        Core::Lam { body, .. } => *body,
        other => panic!("expected a lambda, got {other:?}"),
    };
    match mat {
        Core::Match { branches, .. } => {
            assert_eq!(branches.len(), 3, "all three variants covered");

            let lits: Vec<i64> = branches
                .iter()
                .map(|b| match &b.body {
                    Core::Atom(Atom::Lit(Literal::Int(n))) => *n,
                    other => panic!("branch body not an int literal: {other:?}"),
                })
                .collect();
            assert_eq!(lits, [1, 2, 3]);
            assert!(branches.iter().all(|b| b.binds == 0));
        }
        other => panic!("expected a Match, got {other:?}"),
    }
}

#[test]
fn arm_order_does_not_change_tag_order() {
    let reordered = "\
mod demo

enum Color {
    Red,
    Green,
    Blue,
}

pure fn rank(c: Color) -> i64 {
    match c {
        Color.Blue => 3,
        Color.Red => 1,
        Color.Green => 2,
    }
}
";
    assert_eq!(
        def(&lower(COLOR), "rank").hash,
        def(&lower(reordered), "rank").hash
    );
}

#[test]
fn payload_variant_binds_and_projects() {
    let src = "\
mod demo

enum Box {
    Empty,
    Full(i64),
}

pure fn unwrap(b: Box, fallback: i64) -> i64 {
    match b {
        Box.Empty => fallback,
        Box.Full(x) => x,
    }
}

pure fn make() -> Box {
    Box.Full(7)
}
";
    let m = lower(src);

    let body = def(&m, "make").def.body.clone().expect("body");

    let inner = match body {
        Core::Lam { body, .. } => *body,
        other => panic!("expected lambda, got {other:?}"),
    };
    match inner {
        Core::Ctor { tag, fields, .. } => {
            assert_eq!(tag, 1, "Full is the second variant");
            assert_eq!(fields, vec![Atom::Lit(Literal::Int(7))]);
        }
        other => panic!("expected a Ctor, got {other:?}"),
    }

    let unwrap_body = def(&m, "unwrap").def.body.clone().expect("body");
    let mat = peel_to_match(unwrap_body);
    match mat {
        Core::Match { branches, .. } => {
            assert_eq!(branches.len(), 2);
            assert_eq!(branches[0].binds, 0, "Empty binds nothing");
            assert_eq!(branches[1].binds, 1, "Full binds its payload");
        }
        other => panic!("expected Match, got {other:?}"),
    }
}

#[test]
fn variant_names_are_not_identity() {
    let a = COLOR;
    let b = "\
mod demo

enum Color {
    X,
    Y,
    Z,
}

pure fn rank(c: Color) -> i64 {
    match c {
        Color.X => 1,
        Color.Y => 2,
        Color.Z => 3,
    }
}
";
    assert_eq!(def(&lower(a), "Color").hash, def(&lower(b), "Color").hash);
    assert_eq!(def(&lower(a), "rank").hash, def(&lower(b), "rank").hash);
}

#[test]
fn enum_identity_ignores_enum_name() {
    let a = "mod demo\n\nenum Color {\n    Red,\n    Green,\n    Blue,\n}\n";
    let b = "mod demo\n\nenum Hue {\n    A,\n    B,\n    C,\n}\n";
    assert_eq!(def(&lower(a), "Color").hash, def(&lower(b), "Hue").hash);
}

#[test]
fn imported_enum_nullary_ctor_errors_clearly() {
    assert_unresolved_option(lower_err(
        "mod demo\nimport std.option (Option)\n\npure fn none() -> Option[i64] {\n    \
         Option.None\n}\n",
    ));
}

#[test]
fn imported_enum_payload_ctor_errors_clearly() {
    assert_unresolved_option(lower_err(
        "mod demo\nimport std.option (Option)\n\npure fn some(x: i64) -> Option[i64] {\n    \
         Option.Some(x)\n}\n",
    ));
}

#[test]
fn imported_enum_match_pattern_errors_clearly() {
    assert_unresolved_option(lower_err(
        "mod demo\nimport std.option (Option)\n\npure fn or_zero(opt: Option[i64]) -> i64 {\n    \
         match opt {\n        Option.Some(x) => x,\n        Option.None => 0,\n    }\n}\n",
    ));
}

#[test]
fn error_decl_lowers_to_error_def_with_variants() {
    let m = lower(SRC);
    let e = def(&m, "ParseError");
    assert_eq!(e.def.kind, DefKind::Error);
    let variants = e.enum_variants.as_ref().expect("error variant metadata");
    assert_eq!(
        variants.iter().map(|v| v.name.as_str()).collect::<Vec<_>>(),
        vec!["Empty", "Overflow"]
    );

    assert!(variants.iter().all(|v| v.fields.is_empty()));
}

#[test]
fn referencing_an_error_variant_lowers_to_raise() {
    let m = lower(SRC);
    let digit = def(&m, "digit");
    assert!(
        contains_raise(
            digit.def.body.as_ref().unwrap(),
            symbol_hash("m.ParseError")
        ),
        "`ParseError.Empty` should lower to a `Raise` of `m.ParseError`"
    );
}

#[test]
fn error_union_return_lowers_to_result_nominal() {
    let m = lower(SRC);
    let digit = def(&m, "digit");

    let ret = arrow_ret(&digit.def.ty);
    match ret {
        Type::Nominal { def, args } => {
            assert_eq!(*def, symbol_hash("Result"));
            assert_eq!(args.len(), 2, "Result[success, error-union]");
            assert_eq!(args[0], Type::Int(IntTy::I64), "success type is i64");
            assert_eq!(
                args[1],
                Type::Nominal {
                    def: symbol_hash("@error-union"),
                    args: vec![]
                },
                "second arg is the inferred-error-set marker"
            );
        }
        other => panic!("expected Result nominal return, got {other:?}"),
    }
}

#[test]
fn try_is_a_value_passthrough() {
    let with_try = lower(SRC);
    let without_try = lower(&SRC.replace("digit(x)?", "digit(x)"));
    assert_eq!(
        def(&with_try, "sum").def.body,
        def(&without_try, "sum").def.body,
        "`e?` and `e` lower to the same Core (success-value pass-through)"
    );
}

#[test]
fn impl_method_lowers_under_a_mangled_name() {
    let m = lower(MAX);

    let cmp = def(&m, "cmp$Ord$i32");
    assert_eq!(cmp.def.kind, DefKind::Fn);
    assert!(!names(&m).contains(&"cmp"));
}

#[test]
fn generic_call_requests_a_specialized_instance() {
    let m = lower(MAX);

    assert_eq!(def(&m, "max").def.kind, DefKind::Fn);

    let inst = def(&m, "max@i32");
    assert_eq!(inst.def.kind, DefKind::Fn);
}

#[test]
fn interface_is_recorded_and_carries_no_type_var() {
    let m = lower(MAX);

    let iface = m
        .interfaces
        .iter()
        .find(|i| i.name == "Ord")
        .expect("Ord interface recorded");
    assert_eq!(iface.methods, vec!["cmp".to_string()]);

    let imp = m
        .impls
        .iter()
        .find(|i| i.interface == "Ord" && i.type_key == "i32")
        .expect("impl Ord[i32] recorded");
    assert!(imp
        .methods
        .iter()
        .any(|(meth, def)| meth == "cmp" && def == "demo.cmp$Ord$i32"));

    let inst = def(&m, "max@i32");
    assert!(
        !ty_has_var(&inst.def.ty),
        "instance arrow still has Type::Var"
    );
}

#[test]
fn instantiation_records_the_bound_and_concrete_type() {
    let m = lower(MAX);
    let inst = m
        .instantiations
        .iter()
        .find(|i| i.instance == "max@i32")
        .expect("instantiation recorded");
    assert_eq!(inst.generic, "max");
    assert_eq!(inst.args.len(), 1);
    let arg = &inst.args[0];
    assert_eq!(arg.param, "T");
    assert_eq!(arg.type_key, "i32");
    assert_eq!(arg.bound.as_deref(), Some("Ord"));
}

#[test]
fn specialized_body_dispatches_the_interface_method_to_the_impl() {
    let m = lower(MAX);
    let body = def(&m, "max@i32").def.body.clone().expect("instance body");

    let target = symbol_hash("demo.cmp$Ord$i32");
    let undispatched = symbol_hash("cmp");
    assert!(
        globals(&body).contains(&target),
        "instance does not call the resolved impl method"
    );
    assert!(
        !globals(&body).contains(&undispatched),
        "instance still references the un-dispatched interface method"
    );
}

#[test]
fn generic_struct_field_lowers_to_a_type_var() {
    let m = lower("mod demo\n\nstruct Pair[T] {\n    a: T,\n    b: T,\n}\n");
    let pair = def(&m, "Pair");

    match &pair.def.ty {
        Type::Tuple(fields) => {
            assert_eq!(fields, &vec![Type::Var(0), Type::Var(0)]);
        }
        other => panic!("expected a tuple struct body, got {other:?}"),
    }
}

#[test]
fn list_literal_lowers_to_new_then_pushes() {
    let src = "\
mod demo

import std.io (Alloc)
import std.collections (List)

fn make(alloc: Alloc) -> List[i64] {
    List { alloc: alloc, items: [3, 5, 8] }
}
";
    let body = fn_body(&lower(src), "make");
    let mut counts = ListCounts::default();
    count_lists(&body, &mut counts);

    assert_eq!(counts.new, 1, "literal allocates exactly one list header");
    assert_eq!(counts.pushes, 3, "one push per literal item");
    assert_eq!(
        counts.new_capacity,
        Some(Atom::Lit(Literal::Int(3))),
        "initial capacity matches the item count"
    );
    assert_eq!(
        counts.push_values,
        vec![
            Atom::Lit(Literal::Int(3)),
            Atom::Lit(Literal::Int(5)),
            Atom::Lit(Literal::Int(8)),
        ],
        "items are pushed in source order"
    );
}

#[test]
fn list_literal_requires_explicit_alloc() {
    let src = "\
mod demo

import std.collections (List)

fn make() -> List[i64] {
    List { items: [1] }
}
";
    assert!(matches!(
        try_lower(src),
        Err(LowerError::CollectionLiteralMissingAlloc { kind: "List" })
    ));
}

#[test]
fn set_literal_lowers_with_explicit_alloc() {
    let src = "\
mod demo

import std.io (Alloc)
import std.collections (Set)

fn make(alloc: Alloc) -> Set[str] {
    Set { alloc: alloc, items: [\"red\", \"blue\"] }
}
";
    let body = fn_body(&lower(src), "make");
    let globals = globals(&body);
    assert!(
        globals.contains(&symbol_hash("std.collections.set_with_capacity")),
        "set literal should call set_with_capacity"
    );
    assert!(
        globals.contains(&symbol_hash("std.collections.set_insert")),
        "set literal should insert each item through the public set operation"
    );
}

#[test]
fn map_literal_lowers_to_backing_entries() {
    let src = "\
mod demo

import std.io (Alloc)
import std.collections (Map)

fn make(alloc: Alloc) -> Map[str, i64] {
    Map { alloc: alloc, keys: [\"red\", \"blue\"], values: [1, 2] }
}
";
    let body = fn_body(&lower(src), "make");
    let mut counts = ListCounts::default();
    count_lists(&body, &mut counts);

    assert_eq!(
        counts.new, 1,
        "map literal allocates one backing entry list"
    );
    assert_eq!(counts.pushes, 2, "one entry per key/value pair");
    assert_eq!(
        counts.new_capacity,
        Some(Atom::Lit(Literal::Int(2))),
        "entry-list capacity matches the key/value pair count"
    );
    assert!(
        has_ctor(&body, symbol_hash("std.collections.Map")),
        "map literal should construct the std Map value"
    );
    assert!(
        has_ctor(&body, symbol_hash("std.collections.Entry")),
        "map literal should construct std Entry values"
    );
    assert!(
        has_entry_hash_sentinel(&body),
        "map literal entries should carry the hash-0 compatibility sentinel"
    );
}

#[test]
fn collection_literals_require_explicit_alloc() {
    let set_src = "\
mod demo

import std.collections (Set)

fn make() -> Set[str] {
    Set { items: [\"red\"] }
}
";
    assert!(matches!(
        try_lower(set_src),
        Err(LowerError::CollectionLiteralMissingAlloc { kind: "Set" })
    ));

    let map_src = "\
mod demo

import std.collections (Map)

fn make() -> Map[str, i64] {
    Map { keys: [\"red\"], values: [1] }
}
";
    assert!(matches!(
        try_lower(map_src),
        Err(LowerError::CollectionLiteralMissingAlloc { kind: "Map" })
    ));
}

#[test]
fn map_literal_rejects_mismatched_keys_and_values() {
    let src = "\
mod demo

import std.io (Alloc)
import std.collections (Map)

fn make(alloc: Alloc) -> Map[str, i64] {
    Map { alloc: alloc, keys: [\"red\", \"blue\"], values: [1] }
}
";
    assert!(matches!(
        try_lower(src),
        Err(LowerError::MapLiteralLengthMismatch { keys: 2, values: 1 })
    ));
}

#[test]
fn while_lowers_to_a_loop_with_two_carried_vars() {
    let m = lower(SUM_TO);
    let body = fn_body(&m, "sum_to");
    let lp = find_loop(&body).expect("a `while` lowers to a Core::Loop");
    match lp {
        Core::Loop {
            state,
            inv,
            body,
            ..
        } => {
            assert_eq!(state.len(), 2, "two `var`s are carried");
            assert!(inv.is_none(), "no invariant clause here");

            let terminal = innermost(body);
            match terminal {
                Core::Ctor { tag, fields, .. } => {
                    assert_eq!(*tag, 0);
                    assert_eq!(fields.len(), 2, "body yields the two next values");
                }
                other => panic!("loop body should end in the carried-state tuple, got {other:?}"),
            }
        }
        other => panic!("expected a Loop, got {other:?}"),
    }
}

#[test]
fn loop_invariant_lowers_to_a_pred() {
    let src = "mod demo\n\npure fn run(n: i64) -> i64 {\n    var i: i64 = n\n    while (i > 0)\n        invariant (i >= 0)\n    {\n        i = (i - 1)\n    }\n    i\n}\n";
    let m = lower(src);
    let body = fn_body(&m, "run");
    let lp = find_loop(&body).expect("loop");
    match lp {
        Core::Loop { inv, .. } => {
            assert!(
                matches!(inv.as_deref(), Some(Pred::Cmp(CmpOp::Ge, _, _))),
                "the `invariant (i >= 0)` lowers to a `Ge` comparison Pred"
            );
        }
        _ => unreachable!(),
    }
}

#[test]
fn alpha_equivalent_loops_hash_identically() {
    let a = lower(SUM_TO);
    let renamed = "\
mod demo

pure fn sum_to(total: i64) -> i64 {
    var acc: i64 = 0
    var k: i64 = total
    while (k > 0) {
        acc = (acc + k)
        k = (k - 1)
    }
    acc
}
";
    let b = lower(renamed);
    assert_eq!(
        def(&a, "sum_to").hash,
        def(&b, "sum_to").hash,
        "alpha-equivalent loops must have identical content hashes"
    );
}

#[test]
fn for_desugars_to_a_loop() {
    let src = "mod demo\n\npure fn total(xs: []i64) -> i64 {\n    var sum: i64 = 0\n    for x in xs {\n        sum = (sum + x)\n    }\n    sum\n}\n";
    let m = lower(src);
    let body = fn_body(&m, "total");
    assert!(
        find_loop(&body).is_some(),
        "a `for` loop desugars to a Core::Loop"
    );
}

#[test]
fn loop_body_with_an_if_tail_threads_carried_vars_through_the_join() {
    let src = "mod demo\n\npure fn run(n: i64) -> i64 {\n    var i: i64 = n\n    while (i > 0) {\n        if (i > 5) {\n            i = (i - 1)\n        } else {\n            i = (i - 2)\n        }\n    }\n    i\n}\n";
    let m = lower(src);
    let body = fn_body(&m, "run");
    let lp = find_loop(&body).expect("the branch-tail `while` lowers to a Core::Loop");
    let Core::Loop {
        state, body: lbody, ..
    } = lp
    else {
        unreachable!()
    };

    assert_eq!(state.len(), 1, "one `var` is carried");

    match innermost(lbody) {
        Core::Match { branches, .. } => {
            assert_eq!(branches.len(), 2, "an `if`/`else` is a two-arm bool match");
            for br in branches {
                match innermost(&br.body) {
                    Core::Ctor { tag, fields, .. } => {
                        assert_eq!(*tag, 0);
                        assert_eq!(fields.len(), 1, "every branch yields the carried tuple");
                    }
                    other => panic!("branch should end in the carried-state tuple, got {other:?}"),
                }
            }
        }
        other => panic!("loop body terminal should be the branch-join Match, got {other:?}"),
    }
}

#[test]
fn loop_body_with_a_match_tail_lowers() {
    let src = "mod demo\n\nenum Bit {\n    Lo,\n    Hi,\n}\n\npure fn pick(i: i64) -> Bit {\n    if (i > 0) {\n        Bit.Hi\n    } else {\n        Bit.Lo\n    }\n}\n\npure fn run(n: i64) -> i64 {\n    var i: i64 = n\n    var acc: i64 = 0\n    while (i > 0) {\n        i = (i - 1)\n        let b: Bit = pick(i)\n        match b {\n            Bit.Lo => { acc = (acc + 1) }\n            Bit.Hi => { acc = (acc + 2) }\n        }\n    }\n    acc\n}\n";
    let m = lower(src);
    let body = fn_body(&m, "run");
    let lp = find_loop(&body).expect("the match-tail `while` lowers to a Core::Loop");
    let Core::Loop {
        state, body: lbody, ..
    } = lp
    else {
        unreachable!()
    };

    assert_eq!(state.len(), 2, "two `var`s are carried");
    match innermost(lbody) {
        Core::Match { branches, .. } => {
            assert_eq!(branches.len(), 2, "the enum has two variants");
            for br in branches {
                match innermost(&br.body) {
                    Core::Ctor { fields, .. } => {
                        assert_eq!(fields.len(), 2, "every arm yields the two carried values");
                    }
                    other => panic!("arm should end in the carried-state tuple, got {other:?}"),
                }
            }
        }
        other => panic!("loop body terminal should be the branch-join Match, got {other:?}"),
    }
}

#[test]
fn outer_carried_var_shadowed_in_one_branch_is_still_carried() {
    let src = "mod demo\n\npure fn run(n: i64) -> i64 {\n    var i: i64 = n\n    var x: i64 = 0\n    while (i > 0) {\n        i = (i - 1)\n        if (i > 2) {\n            x = (x + 10)\n        } else {\n            let x: i64 = 99\n            i = ((i - x) + x)\n        }\n    }\n    x\n}\n";
    let m = lower(src);
    let body = fn_body(&m, "run");
    let lp = find_loop(&body).expect("the shadowing branch-join `while` lowers to a Core::Loop");
    let Core::Loop { state, .. } = lp else {
        unreachable!()
    };
    assert_eq!(
        state.len(),
        2,
        "`i` and the outer `x` are both carried despite the else-branch `let x` shadow"
    );
}

#[test]
fn loop_body_ending_in_return_lowers_to_core_return() {
    let src = "mod demo\n\npure fn run(n: i64) -> i64 {\n    var i: i64 = n\n    while (i > 0) {\n        i = (i - 1)\n        if (i == 2) {\n            return i\n        }\n    }\n    0\n}\n";
    let m = lower(src);
    let body = fn_body(&m, "run");
    let lp = find_loop(&body).expect("the early-return `while` lowers to a Core::Loop");
    let Core::Loop { body: lbody, .. } = lp else {
        unreachable!()
    };
    match innermost(lbody) {
        Core::Match { branches, .. } => {
            assert!(
                branches
                    .iter()
                    .any(|br| matches!(innermost(&br.body), Core::Return { .. })),
                "one loop-body branch should lower to Core::Return"
            );
        }
        other => panic!("loop body terminal should be a branch join, got {other:?}"),
    }
}

#[test]
fn struct_literal_lowers_to_ctor_in_declaration_order() {
    let src = format!(
        "mod demo\n\n{POINT}\n\npure fn make() -> Point {{\n    Point {{ y: 2, x: 1 }}\n}}\n"
    );
    let m = lower(&src);
    match fn_body(&m, "make") {
        Core::Ctor { tag, fields, .. } => {
            assert_eq!(tag, 0, "products use tag 0");
            assert_eq!(
                fields,
                vec![Atom::Lit(Literal::Int(1)), Atom::Lit(Literal::Int(2))],
                "fields are in declaration order x=1, y=2"
            );
        }
        other => panic!("expected a Ctor, got {other:?}"),
    }
}

#[test]
fn struct_literal_field_write_order_is_canonical() {
    let in_order = lower(&format!(
        "mod demo\n\n{POINT}\n\npure fn make() -> Point {{\n    Point {{ x: 1, y: 2 }}\n}}\n"
    ));
    let reordered = lower(&format!(
        "mod demo\n\n{POINT}\n\npure fn make() -> Point {{\n    Point {{ y: 2, x: 1 }}\n}}\n"
    ));
    assert_eq!(
        def(&in_order, "make").hash,
        def(&reordered, "make").hash,
        "field write-order must not affect identity"
    );
}

#[test]
fn index_lowers_to_prim_index() {
    let src = "mod demo\n\npure fn first(xs: []i64) -> i64 {\n    xs[0]\n}\n";
    match fn_body(&lower(src), "first") {
        Core::Prim { op, args } => {
            assert_eq!(op, PrimOp::Index);
            assert_eq!(args.len(), 2);

            assert_eq!(args[0], Atom::Var(0));
            assert_eq!(args[1], Atom::Lit(Literal::Int(0)));
        }
        other => panic!("expected a Prim Index, got {other:?}"),
    }
}

#[test]
fn var_reassignment_rebinds_in_anf() {
    let src = "mod demo\n\npure fn run() -> i64 {\n    var x = 1\n    x = (x + 1)\n    x\n}\n";
    let body = fn_body(&lower(src), "run");
    match &body {
        Core::Let { value, .. } => match value.as_ref() {
            Core::Prim { op, .. } => assert_eq!(*op, PrimOp::Add),
            other => panic!("expected the reassignment's `+` Prim, got {other:?}"),
        },
        other => panic!("expected a Let spine, got {other:?}"),
    }
}

#[test]
fn field_assignment_rebuilds_the_aggregate() {
    let src = format!(
        "mod demo\n\n{POINT}\n\npure fn run() -> Point {{\n    var p = Point {{ x: 1, y: 2 }}\n    p.x = 9\n    p\n}}\n"
    );
    let body = fn_body(&lower(&src), "run");
    let (mut ctors, mut projs) = (0, 0);
    count(&body, &mut ctors, &mut projs);
    assert_eq!(ctors, 2, "the literal and the field-update rebuild");
    assert_eq!(
        projs, 1,
        "the untouched field is projected from the old value"
    );
}

#[test]
fn assignment_to_let_is_rejected() {
    let src = "mod demo\n\npure fn run() -> i64 {\n    let x = 1\n    x = 2\n    x\n}\n";
    assert!(matches!(
        try_lower(src),
        Err(LowerError::AssignToImmutable { .. })
    ));
}

#[test]
fn slice_index_store_lowers_to_index_set() {
    let src = "mod demo\n\npure fn run(xs: []i64) -> () {\n    var ys = xs\n    ys[0] = 1\n    return\n}\n";
    let body = fn_body(&lower(src), "run");
    assert!(
        has_index_set(&body),
        "a slice element store must lower to a `Core::IndexSet`"
    );
}

#[test]
fn unknown_struct_literal_is_rejected() {
    let src = "mod demo\n\npure fn run() -> i64 {\n    let p = Nope { x: 1 }\n    0\n}\n";
    assert!(matches!(
        try_lower(src),
        Err(LowerError::UnknownStruct { .. })
    ));
}

#[test]
fn struct_literal_missing_field_is_rejected() {
    let src =
        format!("mod demo\n\n{POINT}\n\npure fn run() -> Point {{\n    Point {{ x: 1 }}\n}}\n");
    assert!(matches!(
        try_lower(&src),
        Err(LowerError::MissingStructField { .. })
    ));
}

#[test]
fn struct_literal_unknown_field_is_rejected() {
    let src = format!(
        "mod demo\n\n{POINT}\n\npure fn run() -> Point {{\n    Point {{ x: 1, y: 2, z: 3 }}\n}}\n"
    );
    assert!(matches!(
        try_lower(&src),
        Err(LowerError::UnknownField { .. })
    ));
}

#[test]
fn neg_lowers_to_prim_neg() {
    let m = lower("mod m\n\nfn f(n: i64) -> i64 {\n    -n\n}\n");
    assert!(
        has_prim(&fn_body(&m, "f"), PrimOp::Neg),
        "-e must lower to Prim::Neg"
    );
}

#[test]
fn not_lowers_to_prim_not() {
    let m = lower("mod m\n\nfn f(p: bool) -> bool {\n    not p\n}\n");
    assert!(
        has_prim(&fn_body(&m, "f"), PrimOp::Not),
        "not e must lower to Prim::Not"
    );
}

#[test]
fn ref_lowers_to_ref_node() {
    let m = lower("mod m\n\nfn f(n: i64) -> i64 {\n    let r = &n\n    n\n}\n");
    assert_eq!(
        find_ref(&fn_body(&m, "f")),
        Some(false),
        "&e must lower to a shared Core::Ref"
    );
}

#[test]
fn ref_mut_lowers_to_mutable_ref_node() {
    let m = lower("mod m\n\nfn f(n: i64) -> i64 {\n    let r = &mut n\n    n\n}\n");
    assert_eq!(
        find_ref(&fn_body(&m, "f")),
        Some(true),
        "&mut e must lower to a mutable Core::Ref"
    );
}

#[test]
fn alpha_equivalent_unaries_hash_identically() {
    let a = lower("mod m\n\nfn f(x: i64) -> i64 {\n    -x\n}\n");
    let b = lower("mod m\n\nfn f(y: i64) -> i64 {\n    -y\n}\n");
    assert_eq!(
        def(&a, "f").hash,
        def(&b, "f").hash,
        "renaming the parameter must not change the content hash"
    );
}

#[test]
fn shared_and_mutable_refs_hash_differently() {
    let a = lower("mod m\n\nfn f(n: i64) -> i64 {\n    let r = &n\n    n\n}\n");
    let b = lower("mod m\n\nfn f(n: i64) -> i64 {\n    let r = &mut n\n    n\n}\n");
    assert_ne!(
        def(&a, "f").hash,
        def(&b, "f").hash,
        "&T and &mut T are distinct identities"
    );
}

#[test]
fn neg_and_sub_hash_differently() {
    let neg = lower("mod m\n\nfn f(x: i64) -> i64 {\n    -x\n}\n");
    let sub = lower("mod m\n\nfn f(x: i64) -> i64 {\n    (0 - x)\n}\n");
    assert_ne!(
        def(&neg, "f").hash,
        def(&sub, "f").hash,
        "unary Neg and binary Sub are distinct primitives"
    );
}

#[test]
fn unsafe_extern_fn_lowers_to_bodyless_signature() {
    let module = try_lower(
        "\
mod demo

/// SAFETY: the host symbol follows the marv i64 ABI.
unsafe extern fn host_add_one(x: i64) -> i64
",
    )
    .expect("lower unsafe extern declaration");

    assert_eq!(module.defs.len(), 1);
    let def = &module.defs[0].def;
    assert_eq!(def.kind, DefKind::Fn);
    assert!(def.body.is_none(), "extern declarations have no Core body");
}

#[test]
fn safe_function_cannot_directly_call_ffi_declaration() {
    let err = try_lower(
        "\
mod demo

/// SAFETY: the host symbol follows the marv i64 ABI.
unsafe extern fn host_add_one(x: i64) -> i64

fn accidental(x: i64) -> i64 {
    host_add_one(x)
}
",
    )
    .unwrap_err();

    assert_eq!(
        err,
        LowerError::UnsafeFfiOutsideUnsafe {
            name: "demo.host_add_one".to_string()
        }
    );
}

#[test]
fn unsafe_function_can_hold_direct_ffi_call_boundary() {
    let module = try_lower(
        "\
mod demo

/// SAFETY: the host symbol follows the marv i64 ABI.
unsafe extern fn host_add_one(x: i64) -> i64

/// SAFETY: callers use this audited wrapper to cross the host boundary.
unsafe fn call_host(x: i64) -> i64 {
    host_add_one(x)
}
",
    )
    .expect("lower audited FFI wrapper");

    assert_eq!(module.defs.len(), 2);
    assert!(module.defs[0].def.body.is_none());
    assert!(module.defs[1].def.body.is_some());
}

const OPTION: &str = "\
mod std.option

enum Option[T] {
    None,
    Some(T),
}
";

const RESULT: &str = "\
mod std.result
import std.option (Option)

enum Result[T, E] {
    Ok(T),
    Err(E),
}

pure fn ok[T, E](r: Result[T, E]) -> Option[T] {
    match r {
        Result.Ok(x) => Option.Some(x),
        Result.Err(e) => Option.None,
    }
}
";

#[test]
fn std_prelude_lowers_cross_module() {
    let lowered = lower_modules(&vec![parse(OPTION), parse(RESULT)])
        .unwrap_or_else(|e| panic!("lower prelude: {}", e.message()));
    assert_eq!(lowered.len(), 2);
    let body = def(&lowered[1], "ok").def.body.clone().expect("`ok` lowered to a body");
    let option = symbol_hash("std.option.Option");
    let ctors = collect_ctors(&body);
    assert!(
        ctors.contains(&(option, 1, 1)),
        "`Option.Some(x)` is a tag-1, one-field Ctor of std.option.Option: {ctors:?}"
    );
    assert!(
        ctors.contains(&(option, 0, 0)),
        "`Option.None` is a tag-0, nullary Ctor of std.option.Option: {ctors:?}"
    );
}

#[test]
fn cross_module_generic_instance_lands_in_the_defining_module() {
    let ord = parse(&MAX.replace("mod demo", "mod std.ord"));
    let app =
        parse("mod app\nimport std.ord (Ordering)\n\nfn main() -> i32 {\n    max(3, 7)\n}\n");
    let lowered = lower_modules(&vec![ord, app])
        .unwrap_or_else(|e| panic!("lower prelude + app: {}", e.message()));
    let ord_mod = lowered.iter().find(|m| m.module == ["std", "ord"]).expect("std.ord module");
    assert!(
        ord_mod.defs.iter().any(|d| d.name == "max@i32"),
        "max@i32 instance not emitted into the defining module (have: {:?})",
        names(ord_mod)
    );
    let app_mod = lowered.iter().find(|m| m.module == ["app"]).unwrap();
    assert!(
        app_mod.instantiations.is_empty(),
        "the instance should be recorded against the defining module"
    );
    assert!(ord_mod.instantiations.iter().any(|i| i.instance == "max@i32"));
}

#[test]
fn imported_names_stand_for_the_names_of_their_module() {
    let util = parse("mod util.math\n\npure fn double(x: i64) -> i64 {\n    (x * 2)\n}\n");
    let app = parse(
        "mod app\nimport util.math (double)\nimport util.kinds (Kind)\n\nfn main(k: Kind) -> i64 {\n    double(21)\n}\n",
    );
    let lowered = lower_modules(&vec![util, app])
        .unwrap_or_else(|e| panic!("lower: {}", e.message()));
    assert_eq!(
        fn_body(&lowered[1], "main"),
        Core::App {
            func: Atom::Global(symbol_hash("util.math.double")),
            arg: Atom::Lit(Literal::Int(21)),
        }
    );
    match &def(&lowered[1], "main").def.ty {
        Type::Arrow { param, .. } => assert_eq!(
            **param,
            Type::Nominal { def: symbol_hash("util.kinds.Kind"), args: Vec::new() }
        ),
        other => panic!("expected a function type, got {other:?}"),
    }
}

/// Whether every variable of a term at a depth is bound.
fn is_closed(c: &Core, d: u32) -> bool {
    let ok = |a: &Atom| !matches!(a, Atom::Var(i) if *i >= d);
    let all = |v: &Vec<Atom>| v.iter().all(|a| !matches!(a, Atom::Var(i) if *i >= d));
    match c {
        Core::Atom(a) => ok(a),
        Core::Let { value, body } => is_closed(value, d) && is_closed(body, d + 1),
        Core::Lam { body, .. } => is_closed(body, d + 1),
        Core::App { func, arg } => ok(func) && ok(arg),
        Core::Ctor { fields, .. } => all(fields),
        Core::Array { items, .. } => all(items),
        Core::IndexSet { base, index, value } => ok(base) && ok(index) && ok(value),
        Core::Proj { base, .. } => ok(base),
        Core::Match { scrutinee, branches } => {
            ok(scrutinee) && branches.iter().all(|b| is_closed(&b.body, d + b.binds))
        }
        Core::Prim { args, .. } => all(args),
        Core::Cast { value, .. } => ok(value),
        Core::Ref { of, .. } => ok(of),
        Core::Perform { cap, args, .. } => ok(cap) && all(args),
        Core::Raise { args, .. } => all(args),
        Core::Loop { state, cond, body, .. } => {
            let k = d + state.len() as u32;
            all(state) && is_closed(cond, k) && is_closed(body, k)
        }
        Core::ListNew { alloc, capacity, .. } => ok(alloc) && ok(capacity),
        Core::ListPush { alloc, list, value } => ok(alloc) && ok(list) && ok(value),
        Core::ListPop { list } => ok(list),
        Core::ListSet { list, index, value } => ok(list) && ok(index) && ok(value),
        Core::Return { value } => ok(value),
    }
}

const PAIRS: &str = "\
mod pairs

fn pairs(xs: []i64, ys: []i64) -> i64 {
    var n = 0
    for x in xs {
        for y in ys {
            n = (n + (x * y))
        }
    }
    n
}
";

#[test]
fn lowered_functions_are_closed() {
    assert!(!is_closed(&Core::Atom(Atom::Var(0)), 0));
    for src in [COLOR, SRC, MAX, SUM_TO, PAIRS] {
        let m = lower(src);
        for d in &m.defs {
            if let Some(c) = &d.def.body {
                assert!(is_closed(c, 0), "{}: {c:?}", d.name);
            }
        }
    }
}

#[test]
fn nested_for_loops_count_with_positions_of_their_own() {
    let m = lower(PAIRS);
    let body = fn_body(&m, "pairs");
    let Some(Core::Loop { state, body, .. }) = find_loop(&body) else {
        panic!("an outer loop");
    };
    assert_eq!(state.len(), 2, "the sum and the outer position");
    let Some(Core::Loop { state, .. }) = find_loop(body) else {
        panic!("an inner loop");
    };
    assert_eq!(state.len(), 2, "the sum and the inner position");
}

#[test]
fn the_state_of_a_loop_has_a_type_of_its_own() {
    let state = symbol_hash("@loop-state");
    for name in ["", "loop-state", "m.loop-state", "m.@loop-state"] {
        assert_ne!(symbol_hash(name), state, "{name:?}");
    }
}

const COLLECTIONS: &str = "mod std.collections\n\nstruct Cell { at: i64 }\n";

const ITER: &str = "\
mod std.iter

import std.collections (List)

struct IndexIter[T] { items: List[T] }

fn from_list[T](xs: List[T]) -> IndexIter[T] {
    IndexIter { items: xs }
}

fn iter_len[T](it: IndexIter[T]) -> usize {
    count(it)
}

fn iter_get[T](it: IndexIter[T], i: usize) -> T {
    item(it, i)
}
";

#[test]
fn for_over_index_iter_uses_iter_protocol_wrappers() {
    let app = "\
mod app

import std.io (Alloc)
import std.collections (List)
import std.iter (IndexIter, from_list)

fn exercise(alloc: Alloc) -> i64 {
    let xs: List[i64] = List { alloc: alloc, items: [2, 4, 6] }
    let it: IndexIter[i64] = from_list(xs)
    var total: i64 = 0
    for x in it {
        total = (total + x)
    }
    total
}
";
    let mods = lower_modules(&vec![parse(COLLECTIONS), parse(ITER), parse(app)])
        .unwrap_or_else(|e| panic!("lower std + app: {}", e.message()));
    let app = mods.iter().find(|m| m.module == ["app"]).expect("app");
    let body = def(app, "exercise").def.body.clone().expect("fn body");
    let globals = globals(&body);
    assert!(
        globals.contains(&symbol_hash("std.iter.iter_len@i64")),
        "for over IndexIter should call the specialized iter_len wrapper"
    );
    assert!(
        globals.contains(&symbol_hash("std.iter.iter_get@i64")),
        "for over IndexIter should call the specialized iter_get wrapper"
    );
    assert!(!has_prim(&body, PrimOp::Len), "the iterator tells its length itself");
    assert!(!has_prim(&body, PrimOp::Index), "the iterator gives its elements itself");

    let iter_mod = mods.iter().find(|m| m.module == ["std", "iter"]).expect("std.iter");
    assert!(
        iter_mod.defs.iter().any(|d| d.name == "iter_len@i64"),
        "iter_len@i64 instance should be generated in std.iter"
    );
    assert!(
        iter_mod.defs.iter().any(|d| d.name == "iter_get@i64"),
        "iter_get@i64 instance should be generated in std.iter"
    );
}

#[test]
fn renamed_programs_are_lowered_to_the_same_definitions() {
    let util = "\
mod util

import demo (max)

/// Twice the larger one.
fn twice(a: i32, b: i32) -> i32 {
    let m = max(a, b)
    var sum = 0
    var i = 0
    while (i < 2) {
        sum = (sum + m)
        i = (i + 1)
    }
    sum
}
";
    let renamed_util = "\
mod util

import demo (max)

/// The larger one, two times over.
fn twice(left: i32, right: i32) -> i32 {
    let larger = max(left, right)
    var total = 0
    var round = 0
    while (round < 2) {
        total = (total + larger)
        round = (round + 1)
    }
    total
}
";
    let renamed_max = MAX
        .replace("fn cmp(a: i32, b: i32)", "fn cmp(x: i32, y: i32)")
        .replace("if (a < b)", "if (x < y)")
        .replace("fn max[T: Ord](a: T, b: T)", "fn max[T: Ord](p: T, q: T)")
        .replace("match cmp(a, b)", "match cmp(p, q)")
        .replace("Lt => b,", "Lt => q,")
        .replace("Eq => a,", "Eq => p,")
        .replace("Gt => a,", "Gt => p,");
    assert_ne!(renamed_max, MAX);
    let lowered = |v: [&str; 2]| {
        let ms: Vec<Module> = v.iter().map(|s| parse(s)).collect();
        lower_modules(&ms).unwrap_or_else(|e| panic!("lower failed: {}", e.message()))
    };
    let before = lowered([MAX, util]);
    let after = lowered([&renamed_max, renamed_util]);
    assert_eq!(before, after);
    assert!(before[0].defs.iter().any(|d| d.name == "max@i32"), "{:?}", names(&before[0]));
    assert!(before[1].defs.iter().any(|d| d.name == "twice"), "{:?}", names(&before[1]));
}

#[test]
fn rewritten_docs_change_no_hash() {
    let before = "mod demo\n\n/// One.\nfn f(n: i64) -> i64 {\n    var x = n\n    var i = 0\n    while (i < 2) {\n        x = (x + 1)\n        var x = 5\n        i = (i + x)\n    }\n    x\n}\n";
    let after = before.replace("/// One.", "/// Two.\n/// Three.");
    assert_ne!(before, after);
    assert_eq!(lower(before), lower(&after));
    assert_eq!(lower(before), lower(before));
}

#[test]
fn loops_that_assign_and_redeclare_a_name_can_be_renamed() {
    let with = |x: &str, t: &str, i: &str| {
        format!(
            "\
mod demo

fn f(n: i64) -> i64 {{
    var {x} = n
    var {i} = 0
    while ({i} < 2) {{
        {x} = ({x} + 1)
        var {x} = 5
        var {t} = {i}
        while ({t} < 3) {{
            {t} = ({t} + {x})
            var {t} = 7
            {i} = ({i} + {t})
        }}
        {i} = ({i} + 1)
    }}
    {x}
}}
"
        )
    };
    let one = with("x", "t", "i");
    for other in [with("total", "step", "round"), with("t", "i", "x"), with("x", "other", "i")] {
        assert_eq!(hash_of(&one, "f"), hash_of(&other, "f"), "{other}");
    }
}

#[test]
fn a_variable_that_a_loop_no_longer_carries_changes_the_hash() {
    let with = |y: &str| {
        format!(
            "\
mod demo

fn f(n: i64) -> i64 {{
    var x = n
    var i = 0
    while (i < 2) {{
        x = (x + 1)
        var {y} = 5
        i = (i + {y})
    }}
    x
}}
"
        )
    };
    assert_ne!(hash_of(&with("x"), "f"), hash_of(&with("y"), "f"));
}

#[test]
fn the_order_of_arms_that_ask_for_instances_does_not_matter() {
    let with = |arms: &str| {
        format!(
            "\
mod demo

enum Side {{
    Left,
    Right,
}}

fn id[T](x: T) -> T {{
    x
}}

fn pick(s: Side) -> i32 {{
    match s {{
{arms}
    }}
}}
"
        )
    };
    let one = with("        Side.Left => id(1),\n        Side.Right => len(id(true)),");
    let two = with("        Side.Right => len(id(true)),\n        Side.Left => id(1),");
    assert_eq!(hash_of(&one, "pick"), hash_of(&two, "pick"));
    let asked = [lower(&one), lower(&two)].map(|m| {
        let mut v: Vec<String> = m.instantiations.iter().map(|i| i.instance.clone()).collect();
        v.sort();
        v
    });
    assert_eq!(asked[0], asked[1]);
    assert_eq!(asked[0], ["id@bool", "id@i32"]);
}

#[test]
fn a_definition_does_not_depend_on_what_was_asked_for_before() {
    let f = "\nfn f() -> i32 {\n    id(1)\n}\n";
    let g = "\nfn g() -> i32 {\n    id(2)\n}\n";
    let head = "mod demo\n\nfn id[T](x: T) -> T {\n    x\n}\n";
    let alone = format!("{head}{g}");
    let after = format!("{head}{f}{g}");
    assert_eq!(hash_of(&alone, "g"), hash_of(&after, "g"));
}
