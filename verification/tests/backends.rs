//! The backends, on programs whose results are known.

use cranelift::codegen::settings::{self, Configurable};
use cranelift_jit::{JITBuilder, JITModule};
use cranelift_module::{default_libcall_names, Module as _};
use marv::cl::{self, ClFunc, JitProgram};
use marv::cl_code::{Binary, CodegenError, Relation, Step, WithImm};
use marv::cl_jit::DefineError;
use marv::hash::symbol_hash;
use marv::ir::{Atom, Core, Def, DefKind, EffectRow, IntTy, Literal, OpId, Type};
use marv::llvm;
use marv::loaded::{load_modules, Loaded};
use marv::syntax;
use marv::syntax::{
    Arm, ArmBody, BinOp, Block, Bound, Else, EnumDecl, ErrorDecl, Expr, Field, FieldInit, FieldPat,
    FnDecl, Generic, IfExpr, ImplDecl, Import, InterfaceDecl, Item, LValue, MatchExpr, MethodSig,
    Param, Pattern, SType, Stmt, StructDecl, Tail, UnOp, Variant,
};
use marv::wasm;
use marv::world::{OpSig, World};
use wasmtime::{Config, Engine, Instance, Module, Store, Val};

// ---- a reader of marv source ------------------------------------------------------------

#[derive(Debug, Clone, PartialEq)]
enum Tok {
    Word(String),
    Int(i64),
    Str(String),
    Char(char),
    Doc(String),
    Sym(&'static str),
    End,
}

const SYMBOLS: [&str; 30] = [
    "->", "=>", "==", "!=", "<=", ">=", "(", ")", "{", "}", "[", "]", ",", ":", ".", "=", "<", ">",
    "+", "-", "*", "/", "%", "&", "!", "?", ";", "|", "@", "#",
];

struct Reader {
    toks: Vec<(Tok, usize)>,
    at: usize,
}

fn tokens(src: &str) -> Vec<(Tok, usize)> {
    let mut out = Vec::new();
    for (line, text) in src.lines().enumerate() {
        let chars: Vec<char> = text.chars().collect();
        let mut i = 0;
        while i < chars.len() {
            let c = chars[i];
            let rest: String = chars[i..].iter().collect();
            if c.is_whitespace() {
                i += 1;
            } else if let Some(doc) = rest.strip_prefix("///") {
                out.push((Tok::Doc(doc.trim().to_string()), line));
                break;
            } else if rest.starts_with("//") {
                break;
            } else if c.is_ascii_digit() {
                let mut n = 0i64;
                while i < chars.len() && (chars[i].is_ascii_digit() || chars[i] == '_') {
                    if let Some(d) = chars[i].to_digit(10) {
                        n = n * 10 + i64::from(d);
                    }
                    i += 1;
                }
                out.push((Tok::Int(n), line));
            } else if c.is_alphabetic() || c == '_' {
                let mut w = String::new();
                while i < chars.len() && (chars[i].is_alphanumeric() || chars[i] == '_') {
                    w.push(chars[i]);
                    i += 1;
                }
                out.push((Tok::Word(w), line));
            } else if c == '"' {
                let mut s = String::new();
                i += 1;
                while chars[i] != '"' {
                    s.push(chars[i]);
                    i += 1;
                }
                i += 1;
                out.push((Tok::Str(s), line));
            } else if c == '\'' {
                out.push((Tok::Char(chars[i + 1]), line));
                i += 3;
            } else {
                let s = SYMBOLS.iter().find(|s| rest.starts_with(**s)).expect("a symbol");
                out.push((Tok::Sym(s), line));
                i += s.len();
            }
        }
    }
    out
}

impl Reader {
    fn peek(&self) -> Tok {
        self.toks.get(self.at).map(|t| t.0.clone()).unwrap_or(Tok::End)
    }

    /// Whether the next token stands on the line of the last one.
    fn same_line(&self) -> bool {
        self.at > 0 && self.at < self.toks.len() && self.toks[self.at].1 == self.toks[self.at - 1].1
    }

    fn is(&self, s: &str) -> bool {
        matches!(self.peek(), Tok::Sym(x) if x == s)
    }

    fn is_word(&self, w: &str) -> bool {
        matches!(self.peek(), Tok::Word(x) if x == w)
    }

    fn eat(&mut self, s: &str) -> bool {
        let hit = self.is(s);
        if hit {
            self.at += 1;
        }
        hit
    }

    fn eat_word(&mut self, w: &str) -> bool {
        let hit = self.is_word(w);
        if hit {
            self.at += 1;
        }
        hit
    }

    fn want(&mut self, s: &str) {
        if !self.eat(s) {
            panic!("expected `{s}`, found {:?} at token {}", self.peek(), self.at);
        }
    }

    fn word(&mut self) -> String {
        match self.peek() {
            Tok::Word(w) => {
                self.at += 1;
                w
            }
            other => panic!("expected a name, found {other:?}"),
        }
    }

    fn path(&mut self) -> Vec<String> {
        let mut p = vec![self.word()];
        while self.eat(".") {
            p.push(self.word());
        }
        p
    }

    fn module(&mut self) -> syntax::Module {
        assert!(self.eat_word("mod"), "a module starts with `mod`");
        let name = self.path();
        let mut imports = Vec::new();
        let mut items = Vec::new();
        let mut docs = Vec::new();
        loop {
            match self.peek() {
                Tok::End => break,
                Tok::Doc(d) => {
                    docs.push(d);
                    self.at += 1;
                }
                _ if self.eat_word("import") => {
                    let path = self.path();
                    let mut names = Vec::new();
                    self.want("(");
                    while !self.eat(")") {
                        names.push(self.word());
                        self.eat(",");
                    }
                    imports.push(Import { path, names });
                }
                _ => {
                    let d = docs.drain(..).collect();
                    items.push(self.item(d));
                }
            }
        }
        syntax::Module { name, imports, items }
    }

    fn item(&mut self, docs: Vec<String>) -> Item {
        let linear = self.eat_word("linear");
        if self.eat_word("struct") {
            let name = self.word();
            let generics = self.generics();
            self.want("{");
            let mut fields = Vec::new();
            while !self.eat("}") {
                let name = self.word();
                self.want(":");
                fields.push(Field { name, ty: self.ty() });
                self.eat(",");
            }
            return Item::Struct(StructDecl { name, generics, linear, fields });
        }
        if self.eat_word("enum") {
            let name = self.word();
            let generics = self.generics();
            self.want("{");
            let mut variants = Vec::new();
            while !self.eat("}") {
                let name = self.word();
                let mut fields = Vec::new();
                if self.eat("(") {
                    while !self.eat(")") {
                        fields.push(self.ty());
                        self.eat(",");
                    }
                }
                variants.push(Variant { name, fields });
                self.eat(",");
            }
            return Item::Enum(EnumDecl { name, generics, variants });
        }
        if self.eat_word("error") {
            let name = self.word();
            self.want("{");
            let mut variants = Vec::new();
            while !self.eat("}") {
                variants.push(self.word());
                self.eat(",");
            }
            return Item::Error(ErrorDecl { name, variants });
        }
        let is_capability = self.eat_word("capability");
        if self.eat_word("interface") {
            let name = self.word();
            let generics = self.generics();
            self.want("{");
            let mut methods = Vec::new();
            while !self.eat("}") {
                assert!(self.eat_word("fn"), "a method");
                let name = self.word();
                let params = self.params();
                let ret = if self.eat("->") { Some(self.ty()) } else { None };
                methods.push(MethodSig { name, params, ret });
            }
            return Item::Interface(InterfaceDecl { name, generics, is_capability, methods });
        }
        if self.eat_word("impl") {
            let interface = self.path();
            let mut args = Vec::new();
            if self.eat("[") {
                while !self.eat("]") {
                    args.push(self.ty());
                    self.eat(",");
                }
            }
            self.want("{");
            let mut methods = Vec::new();
            while !self.eat("}") {
                methods.push(self.function(Vec::new()));
            }
            return Item::Impl(ImplDecl { interface, args, methods });
        }
        Item::Fn(self.function(docs))
    }

    fn function(&mut self, docs: Vec<String>) -> FnDecl {
        let mut is_unsafe = false;
        let mut foreign = false;
        loop {
            if self.eat_word("pure") {
            } else if self.eat_word("unsafe") {
                is_unsafe = true;
            } else if self.eat_word("extern") {
                foreign = true;
            } else {
                break;
            }
        }
        assert!(self.eat_word("fn"), "expected a function, found {:?}", self.peek());
        let name = self.word();
        let generics = self.generics();
        let params = self.params();
        let ret = if self.eat("->") { Some(self.ty()) } else { None };
        let mut pre = Vec::new();
        let mut post = Vec::new();
        loop {
            if self.eat_word("requires") {
                pre.push(self.expr(false));
            } else if self.eat_word("ensures") {
                post.push(self.expr(false));
            } else {
                break;
            }
        }
        let body = if foreign { None } else { Some(self.block()) };
        FnDecl { name, generics, params, ret, pre, post, body, docs, is_unsafe }
    }

    fn generics(&mut self) -> Vec<Generic> {
        let mut out = Vec::new();
        if self.eat("[") {
            while !self.eat("]") {
                let name = self.word();
                let bound = if self.eat(":") { Some(Bound { path: self.path() }) } else { None };
                out.push(Generic { name, bound });
                self.eat(",");
            }
        }
        out
    }

    fn params(&mut self) -> Vec<Param> {
        let mut out = Vec::new();
        self.want("(");
        while !self.eat(")") {
            let name = self.word();
            self.want(":");
            out.push(Param { name, ty: self.ty() });
            self.eat(",");
        }
        out
    }

    fn ty(&mut self) -> SType {
        if self.eat("(") {
            self.want(")");
            return SType::Unit;
        }
        if self.eat("&") {
            let mutable = self.eat_word("mut");
            return SType::Ref { mutable, inner: Box::new(self.ty()) };
        }
        if self.eat("!") {
            let inner = self.ty();
            return SType::ErrorUnion(if inner == SType::Unit { None } else { Some(Box::new(inner)) });
        }
        if self.eat("?") {
            return SType::Optional(Box::new(self.ty()));
        }
        if self.eat("[") {
            if let Tok::Int(n) = self.peek() {
                self.at += 1;
                self.want("]");
                return SType::Array { len: n as u64, elem: Box::new(self.ty()) };
            }
            self.want("]");
            return SType::Slice(Box::new(self.ty()));
        }
        let path = self.path();
        if self.same_line() && self.eat("[") {
            let mut args = Vec::new();
            while !self.eat("]") {
                args.push(self.ty());
                self.eat(",");
            }
            return SType::Generic { path, args };
        }
        SType::Named(path)
    }

    fn block(&mut self) -> Block {
        self.want("{");
        let mut stmts = Vec::new();
        let mut tail = None;
        while !self.eat("}") {
            if self.eat_word("let") {
                let (name, ty, value) = self.binding();
                stmts.push(Stmt::Let { name, ty, value });
            } else if self.eat_word("var") {
                let (name, ty, value) = self.binding();
                stmts.push(Stmt::Var { name, ty, value });
            } else if self.eat_word("while") {
                let cond = self.expr(true);
                let mut invariants = Vec::new();
                while self.eat_word("invariant") {
                    invariants.push(self.expr(true));
                }
                let body = self.block();
                stmts.push(Stmt::While { cond, invariants, body });
            } else if self.eat_word("for") {
                let binder = self.word();
                assert!(self.eat_word("in"), "`for x in e`");
                let iter = self.expr(true);
                let body = self.block();
                stmts.push(Stmt::For { binder, iter, body });
            } else if self.eat_word("return") {
                let value =
                    if self.is("}") || !self.same_line() { None } else { Some(self.expr(false)) };
                tail = Some(Tail::Return(value));
            } else if self.eat_word("if") {
                tail = Some(Tail::If(Box::new(self.conditional())));
            } else if self.eat_word("match") {
                tail = Some(Tail::Match(Box::new(self.matching())));
            } else {
                let e = self.expr(false);
                if self.eat("=") {
                    let value = self.expr(false);
                    stmts.push(Stmt::Assign { target: target(e), value });
                } else {
                    tail = Some(Tail::Expr(e));
                }
            }
        }
        Block { stmts, tail }
    }

    fn binding(&mut self) -> (String, Option<SType>, Expr) {
        let name = self.word();
        let ty = if self.eat(":") { Some(self.ty()) } else { None };
        self.want("=");
        (name, ty, self.expr(false))
    }

    fn conditional(&mut self) -> IfExpr {
        let cond = self.expr(true);
        let yes = self.block();
        let no = if self.eat_word("else") {
            if self.eat_word("if") {
                Some(Else::If(Box::new(self.conditional())))
            } else {
                Some(Else::Block(self.block()))
            }
        } else {
            None
        };
        IfExpr { cond, yes, no }
    }

    fn matching(&mut self) -> MatchExpr {
        let scrutinee = self.expr(true);
        let mut arms = Vec::new();
        self.want("{");
        while !self.eat("}") {
            let pat = if self.eat_word("_") {
                Pattern::Wildcard
            } else {
                let path = self.path();
                let mut fields = Vec::new();
                if self.eat("(") {
                    while !self.eat(")") {
                        let w = self.word();
                        fields.push(if w == "_" { FieldPat::Wildcard } else { FieldPat::Bind(w) });
                        self.eat(",");
                    }
                }
                Pattern::Ctor { path, fields }
            };
            self.want("=>");
            let body =
                if self.is("{") { ArmBody::Block(self.block()) } else { ArmBody::Expr(self.expr(false)) };
            self.eat(",");
            arms.push(Arm { pat, body });
        }
        MatchExpr { scrutinee, arms }
    }

    /// An expression; before a block, a `{` does not start a struct literal.
    fn expr(&mut self, before_block: bool) -> Expr {
        self.binary(0, before_block)
    }

    fn binary(&mut self, level: usize, before_block: bool) -> Expr {
        if level == 5 {
            return self.unary(before_block);
        }
        let mut left = self.binary(level + 1, before_block);
        while self.same_line() {
            let op = match (level, self.peek()) {
                (0, Tok::Word(w)) if w == "or" => BinOp::Or,
                (1, Tok::Word(w)) if w == "and" => BinOp::And,
                (2, Tok::Sym("==")) => BinOp::Eq,
                (2, Tok::Sym("!=")) => BinOp::Ne,
                (2, Tok::Sym("<")) => BinOp::Lt,
                (2, Tok::Sym("<=")) => BinOp::Le,
                (2, Tok::Sym(">")) => BinOp::Gt,
                (2, Tok::Sym(">=")) => BinOp::Ge,
                (3, Tok::Sym("+")) => BinOp::Add,
                (3, Tok::Sym("-")) => BinOp::Sub,
                (4, Tok::Sym("*")) => BinOp::Mul,
                (4, Tok::Sym("/")) => BinOp::Div,
                (4, Tok::Sym("%")) => BinOp::Rem,
                _ => break,
            };
            self.at += 1;
            let right = self.binary(level + 1, before_block);
            left = Expr::Binary(Box::new(left), op, Box::new(right));
        }
        left
    }

    fn unary(&mut self, before_block: bool) -> Expr {
        if self.eat("-") {
            return Expr::Unary(UnOp::Neg, Box::new(self.unary(before_block)));
        }
        if self.eat_word("not") {
            return Expr::Unary(UnOp::Not, Box::new(self.unary(before_block)));
        }
        if self.eat("&") {
            let op = if self.eat_word("mut") { UnOp::RefMut } else { UnOp::Ref };
            return Expr::Unary(op, Box::new(self.unary(before_block)));
        }
        let mut e = self.primary(before_block);
        while self.same_line() {
            if self.eat("(") {
                e = Expr::Call(Box::new(e), self.list(")"));
            } else if self.eat("[") {
                let index = self.expr(false);
                self.want("]");
                e = Expr::Index(Box::new(e), Box::new(index));
            } else if self.eat(".") {
                e = Expr::Field(Box::new(e), self.word());
            } else if self.eat("?") {
                e = Expr::Try(Box::new(e));
            } else if self.eat_word("as") {
                e = Expr::Cast(Box::new(e), self.ty());
            } else {
                break;
            }
        }
        e
    }

    fn list(&mut self, end: &str) -> Vec<Expr> {
        let mut out = Vec::new();
        while !self.eat(end) {
            out.push(self.expr(false));
            self.eat(",");
        }
        out
    }

    fn primary(&mut self, before_block: bool) -> Expr {
        let t = self.peek();
        self.at += 1;
        match t {
            Tok::Int(n) => Expr::Int(n),
            Tok::Str(s) => Expr::Str(s),
            Tok::Char(c) => Expr::Char(c),
            Tok::Sym("(") => {
                if self.eat(")") {
                    return Expr::Unit;
                }
                let e = self.expr(false);
                self.want(")");
                e
            }
            Tok::Sym("[") => Expr::Array(self.list("]")),
            Tok::Word(w) if w == "true" || w == "false" => Expr::Bool(w == "true"),
            Tok::Word(w) => {
                let upper = w.chars().next().is_some_and(char::is_uppercase);
                if upper && !before_block && self.same_line() && self.eat("{") {
                    let mut fields = Vec::new();
                    while !self.eat("}") {
                        let name = self.word();
                        self.want(":");
                        fields.push(FieldInit { name, value: self.expr(false) });
                        self.eat(",");
                    }
                    return Expr::Struct { path: vec![w], fields };
                }
                Expr::Var(w)
            }
            other => panic!("expected an expression, found {other:?}"),
        }
    }
}

fn target(e: Expr) -> LValue {
    match e {
        Expr::Var(x) => LValue::Var(x),
        Expr::Field(base, f) => LValue::Field(Box::new(target(*base)), f),
        Expr::Index(base, i) => LValue::Index(Box::new(target(*base)), i),
        other => panic!("not a place: {other:?}"),
    }
}

fn parse(src: &str) -> syntax::Module {
    let mut r = Reader { toks: tokens(src), at: 0 };
    r.module()
}
// ---- programs ---------------------------------------------------------------------------------

const ARITHMETIC: &str = "\
mod arithmetic

pure fn main() -> i64 {
    ((6 * 6) + (12 / 2))
}
";

const FACTORIAL: &str = "\
mod factorial

pure fn factorial(n: i64) -> i64 {
    if (n <= 1) {
        1
    } else {
        (n * factorial((n - 1)))
    }
}
";

const FIB: &str = "\
mod fib

pure fn fib(n: i64) -> i64 {
    if (n < 2) {
        n
    } else {
        (fib((n - 1)) + fib((n - 2)))
    }
}
";

const GCD: &str = "\
mod gcd

pure fn gcd(a: i64, b: i64) -> i64 {
    if (b == 0) {
        a
    } else {
        gcd(b, (a % b))
    }
}
";

const CLAMP: &str = "\
mod clamp

pure fn clamp(x: i64, lo: i64, hi: i64) -> i64 {
    if (x < lo) {
        lo
    } else if (x > hi) {
        hi
    } else {
        x
    }
}
";

const CLASSIFY: &str = "\
mod classify

pure fn classify(n: i64) -> i64 {
    if ((n >= 0) and (n < 10)) {
        1
    } else {
        0
    }
}
";

const OPS: &str = "\
mod ops

pure fn ops(a: i64, b: i64) -> i64 {
    if (a > b) {
        (((((a + b) + (a - b)) + (a * b)) + (a / b)) + (a % b))
    } else {
        (b + b)
    }
}
";

const LOOPS: &str = "\
mod loops

enum Parity {
    Even,
    Odd,
}

pure fn parity(n: i64) -> Parity {
    if ((n % 2) == 0) {
        Parity.Even
    } else {
        Parity.Odd
    }
}

pure fn sum_to(n: i64) -> i64 {
    var sum: i64 = 0
    var i: i64 = n
    while (i > 0) {
        sum = (sum + i)
        i = (i - 1)
    }
    sum
}

pure fn pow(base: i64, exp: i64) -> i64 {
    var acc: i64 = 1
    var i: i64 = exp
    while (i > 0) {
        acc = (acc * base)
        i = (i - 1)
    }
    acc
}

pure fn count_down(n: i64) -> i64 {
    var i: i64 = n
    while (i > 0) {
        i = (i - 1)
    }
    i
}

pure fn weighted(n: i64) -> i64 {
    var acc: i64 = 0
    var i: i64 = 0
    while (i < n) {
        i = (i + 1)
        if (i <= 2) {
            acc = (acc + 1)
        } else {
            acc = (acc + 7)
        }
    }
    acc
}

pure fn count_high(n: i64) -> i64 {
    var hits: i64 = 0
    var i: i64 = 0
    while (i < n) {
        i = (i + 1)
        if (i > 3) {
            hits = (hits + 1)
        }
    }
    hits
}

pure fn bucket(n: i64) -> i64 {
    var acc: i64 = 0
    var i: i64 = 0
    while (i < n) {
        i = (i + 1)
        if (i <= 3) {
            acc = (acc + 1)
        } else if (i <= 5) {
            acc = (acc + 10)
        } else {
            acc = (acc + 100)
        }
    }
    acc
}

pure fn parity_score(n: i64) -> i64 {
    var acc: i64 = 0
    var i: i64 = 0
    while (i < n) {
        i = (i + 1)
        match parity(i) {
            Parity.Even => {
                acc = (acc + 1)
            }
            Parity.Odd => {
                acc = (acc + 10)
            }
        }
    }
    acc
}

pure fn shadow(n: i64) -> i64 {
    var x: i64 = 0
    var i: i64 = 0
    while (i < n) {
        i = (i + 1)
        if (i > 3) {
            x = (x + 10)
        } else {
            let x = 7
            let unused = (x + 1)
        }
    }
    x
}

pure fn nested_weighted(n: i64) -> i64 {
    var acc: i64 = 0
    var i: i64 = 0
    while (i < n) {
        i = (i + 1)
        var j: i64 = 0
        while (j < i) {
            j = (j + 1)
            if (j < 3) {
                acc = (acc + 1)
            } else if (j > 3) {
                acc = (acc + 1)
            } else {
                acc = (acc + (i - 3))
            }
        }
    }
    acc
}
";

const RETURNS: &str = "\
mod returns

pure fn first_hit(n: i64, want: i64) -> i64 {
    var i: i64 = 0
    while (i < n) {
        if (i == want) {
            return i
        } else {
            i = (i + 1)
        }
    }
    -1
}

pure fn first_even_for() -> i64 {
    let a = [1, 3, 4, 6]
    for x in a {
        if ((x % 2) == 0) {
            return x
        }
    }
    0
}
";

const RECLAIM: &str = "\
mod reclaim

struct Pair { a: i64, b: i64 }

pure fn pair(n: i64) -> Pair {
    Pair { a: n, b: (n + 1) }
}

pure fn spread(p: Pair) -> i64 {
    (p.a + p.b)
}

pure fn churn(n: i64) -> i64 {
    var acc: i64 = 0
    var i: i64 = 0
    while (i < n) {
        acc = (acc + spread(pair(i)))
        i = (i + 1)
    }
    acc
}
";

const CASTS: &str = "\
mod casts

pure fn truncate_u8(n: i64) -> i64 {
    ((n as u8) as i64)
}

pure fn truncate_i8(n: i64) -> i64 {
    ((n as i8) as i64)
}

pure fn truncate_u16(n: i64) -> i64 {
    ((n as u16) as i64)
}

pure fn truncate_i32(n: i64) -> i64 {
    ((n as i32) as i64)
}

pure fn bool_cast(n: i64) -> i64 {
    ((n as bool) as i64)
}

pure fn char_round(n: i64) -> i64 {
    ((n as char) as i64)
}

pure fn chained(n: i64) -> i64 {
    (((n as u16) as u8) as i64)
}
";

const UNARY: &str = "\
mod unary

pure fn neg(n: i64) -> i64 {
    -n
}

pure fn abs(n: i64) -> i64 {
    if (n < 0) {
        -n
    } else {
        n
    }
}

pure fn flip(n: i64) -> i64 {
    if (not (n <= 0)) {
        1
    } else {
        0
    }
}
";

const STRUCTS: &str = "\
mod structs

struct Point { x: i64, y: i64 }

pure fn make(x: i64, y: i64) -> Point {
    Point { x: x, y: y }
}

pure fn norm(p: Point) -> i64 {
    (p.x + p.y)
}

pure fn manhattan(x: i64, y: i64) -> i64 {
    norm(make(x, y))
}
";

const COLOR: &str = "\
mod color

enum Color {
    Red,
    Green,
    Blue,
}

pure fn pick(n: i64) -> Color {
    if (n == 0) {
        Color.Red
    } else if (n == 1) {
        Color.Green
    } else {
        Color.Blue
    }
}

pure fn rank(c: Color) -> i64 {
    match c {
        Color.Red => 1,
        Color.Green => 2,
        Color.Blue => 3,
    }
}

pure fn rank_of(n: i64) -> i64 {
    rank(pick(n))
}
";

const SHAPES: &str = "\
mod shapes

enum Shape {
    Circle(i64),
    Rect(i64, i64),
}

pure fn area(s: Shape) -> i64 {
    match s {
        Shape.Circle(r) => (r * r),
        Shape.Rect(w, h) => (w * h),
    }
}

pure fn circle_area(r: i64) -> i64 {
    area(Shape.Circle(r))
}

pure fn rect_area(w: i64, h: i64) -> i64 {
    area(Shape.Rect(w, h))
}
";

const GENERICS: &str = "\
mod generics

enum Ordering {
    Lt,
    Eq,
    Gt,
}

interface Ord[T] {
    fn cmp(a: T, b: T) -> Ordering
}

impl Ord[i64] {
    fn cmp(a: i64, b: i64) -> Ordering {
        if (a < b) {
            Ordering.Lt
        } else if (a == b) {
            Ordering.Eq
        } else {
            Ordering.Gt
        }
    }
}

fn max[T: Ord](a: T, b: T) -> T {
    match cmp(a, b) {
        Ordering.Lt => b,
        Ordering.Eq => a,
        Ordering.Gt => a,
    }
}

fn min[T: Ord](a: T, b: T) -> T {
    match cmp(a, b) {
        Ordering.Lt => a,
        Ordering.Eq => a,
        Ordering.Gt => b,
    }
}

fn between[T: Ord](lo: T, x: T, hi: T) -> T {
    max(lo, min(x, hi))
}

fn max_of(a: i64, b: i64) -> i64 {
    max(a, b)
}

fn nested_clamp(lo: i64, x: i64, hi: i64) -> i64 {
    between(lo, x, hi)
}
";

const ARRAYS: &str = "\
mod arrays

pure fn sum3() -> i64 {
    let a = [10, 12, 20]
    ((a[0] + a[1]) + a[2])
}

pure fn nth(i: i64) -> i64 {
    let a = [5, 6, 7, 8]
    a[i]
}

pure fn length() -> i64 {
    let a = [5, 6, 7, 8]
    len(a)
}

pure fn sum_all() -> i64 {
    let a = [1, 2, 3, 4, 5]
    var acc: i64 = 0
    var i: i64 = 0
    while (i < len(a)) {
        acc = (acc + a[i])
        i = (i + 1)
    }
    acc
}

pure fn set_get() -> i64 {
    var a: [3]i64 = [1, 2, 3]
    a[1] = 42
    a[1]
}

pure fn set_sum(i: i64) -> i64 {
    var a: [3]i64 = [1, 2, 3]
    a[i] = 10
    ((a[0] + a[1]) + a[2])
}

pure fn sum_for() -> i64 {
    let a = [2, 4, 6, 8]
    var acc: i64 = 0
    for x in a {
        acc = (acc + x)
    }
    acc
}
";

const SLICES: &str = "\
mod slices

struct Sale { id: i64, amount: i64 }

pure fn four() -> []i64 {
    [5, 6, 7, 8]
}

pure fn three() -> []i64 {
    [1, 2, 3]
}

pure fn five() -> []i64 {
    [1, 2, 3, 4, 5]
}

pure fn evens() -> []i64 {
    [2, 4, 6, 8]
}

pure fn sales() -> []Sale {
    [Sale { id: 1, amount: 10 }, Sale { id: 2, amount: 12 }, Sale { id: 3, amount: 20 }]
}

pure fn at(s: []i64, i: i64) -> i64 {
    s[i]
}

pure fn nth(i: i64) -> i64 {
    at(four(), i)
}

pure fn count(s: []i64) -> i64 {
    len(s)
}

pure fn length() -> i64 {
    count(four())
}

pure fn add(s: []i64) -> i64 {
    var acc: i64 = 0
    var i: i64 = 0
    while (i < len(s)) {
        acc = (acc + s[i])
        i = (i + 1)
    }
    acc
}

pure fn sum_all() -> i64 {
    add(five())
}

pure fn put(s: []i64, i: i64, v: i64) -> []i64 {
    var t: []i64 = s
    t[i] = v
    t
}

pure fn set_get() -> i64 {
    at(put(three(), 1, 42), 1)
}

pure fn set_sum(i: i64) -> i64 {
    add(put(three(), i, 10))
}

pure fn amounts(s: []Sale) -> i64 {
    var acc: i64 = 0
    var i: i64 = 0
    while (i < len(s)) {
        acc = (acc + s[i].amount)
        i = (i + 1)
    }
    acc
}

pure fn total() -> i64 {
    amounts(sales())
}

pure fn add_for(s: []i64) -> i64 {
    var acc: i64 = 0
    for x in s {
        acc = (acc + x)
    }
    acc
}

pure fn sum_for() -> i64 {
    add_for(evens())
}

pure fn pairs_for(s: []i64, t: []i64) -> i64 {
    var acc: i64 = 0
    for x in s {
        for y in t {
            acc = (acc + (x * y))
        }
    }
    acc
}

pure fn nested_for() -> i64 {
    pairs_for(three(), tens())
}

pure fn tens() -> []i64 {
    [10, 20]
}

pure fn sum3() -> i64 {
    let s = triple()
    ((at(s, 0) + at(s, 1)) + at(s, 2))
}

pure fn triple() -> []i64 {
    [10, 12, 20]
}

pure fn twice_for(s: []i64) -> i64 {
    var acc: i64 = 0
    for x in s {
        acc = (acc + x)
    }
    for y in s {
        acc = (acc + (y * 10))
    }
    acc
}

pure fn rescan_for() -> i64 {
    twice_for(three())
}
";

const PRUNED: &str = "\
mod pruned

pure fn double(x: i64) -> i64 {
    (x + x)
}

fn nudge(x: i64) -> i64 {
    x.bump()
}
";

const LISTS: &str = "\
mod lists

import std.io (Alloc)
import std.collections (List)

fn build(alloc: Alloc) -> List[i64] {
    List { alloc: alloc, items: [3, 5, 8] }
}

fn exercise(alloc: Alloc) -> i64 {
    let xs = build(alloc)
    var acc: i64 = 0
    for x in xs {
        acc = (acc + x)
    }
    (acc + len(xs))
}
";

type Cases = Vec<(&'static str, &'static str, Vec<i64>, i64)>;

/// Programs that every backend compiles, with what their entries give.
fn shared_cases() -> Cases {
    vec![
        (ARITHMETIC, "main", vec![], 42),
        (FACTORIAL, "factorial", vec![0], 1),
        (FACTORIAL, "factorial", vec![5], 120),
        (FACTORIAL, "factorial", vec![10], 3_628_800),
        (FIB, "fib", vec![0], 0),
        (FIB, "fib", vec![1], 1),
        (FIB, "fib", vec![10], 55),
        (FIB, "fib", vec![15], 610),
        (GCD, "gcd", vec![48, 36], 12),
        (GCD, "gcd", vec![17, 5], 1),
        (GCD, "gcd", vec![100, 0], 100),
        (CLAMP, "clamp", vec![5, 0, 10], 5),
        (CLAMP, "clamp", vec![-3, 0, 10], 0),
        (CLAMP, "clamp", vec![99, 0, 10], 10),
        (CLASSIFY, "classify", vec![5], 1),
        (CLASSIFY, "classify", vec![-1], 0),
        (CLASSIFY, "classify", vec![10], 0),
        (OPS, "ops", vec![20, 6], 165),
        (OPS, "ops", vec![3, 8], 16),
        (LOOPS, "sum_to", vec![0], 0),
        (LOOPS, "sum_to", vec![1], 1),
        (LOOPS, "sum_to", vec![5], 15),
        (LOOPS, "sum_to", vec![10], 55),
        (LOOPS, "sum_to", vec![100], 5050),
        (LOOPS, "pow", vec![2, 10], 1024),
        (LOOPS, "pow", vec![3, 4], 81),
        (LOOPS, "pow", vec![5, 0], 1),
        (LOOPS, "count_down", vec![7], 0),
        (LOOPS, "count_down", vec![0], 0),
        (LOOPS, "weighted", vec![5], 23),
        (LOOPS, "weighted", vec![0], 0),
        (LOOPS, "count_high", vec![5], 2),
        (LOOPS, "count_high", vec![2], 0),
        (LOOPS, "bucket", vec![6], 123),
        (LOOPS, "bucket", vec![3], 3),
        (LOOPS, "parity_score", vec![5], 32),
        (LOOPS, "parity_score", vec![4], 22),
        (LOOPS, "shadow", vec![6], 30),
        (LOOPS, "shadow", vec![2], 0),
        (LOOPS, "nested_weighted", vec![4], 9),
        (LOOPS, "nested_weighted", vec![3], 5),
        (RECLAIM, "churn", vec![10], 100),
        (CASTS, "truncate_u8", vec![300], 44),
        (CASTS, "truncate_u8", vec![255], 255),
        (CASTS, "truncate_u8", vec![256], 0),
        (CASTS, "truncate_i8", vec![200], -56),
        (CASTS, "truncate_i8", vec![127], 127),
        (CASTS, "truncate_i8", vec![128], -128),
        (CASTS, "truncate_u16", vec![70000], 4464),
        (CASTS, "truncate_i32", vec![4_294_967_301], 5),
        (CASTS, "bool_cast", vec![0], 0),
        (CASTS, "bool_cast", vec![7], 1),
        (CASTS, "char_round", vec![65], 65),
        (CASTS, "chained", vec![300], 44),
        (UNARY, "neg", vec![5], -5),
        (UNARY, "neg", vec![-3], 3),
        (UNARY, "abs", vec![-7], 7),
        (UNARY, "abs", vec![4], 4),
        (UNARY, "flip", vec![5], 1),
        (UNARY, "flip", vec![0], 0),
        (STRUCTS, "manhattan", vec![3, 4], 7),
        (STRUCTS, "manhattan", vec![10, 20], 30),
        (STRUCTS, "manhattan", vec![-5, 5], 0),
        (COLOR, "rank_of", vec![0], 1),
        (COLOR, "rank_of", vec![1], 2),
        (COLOR, "rank_of", vec![2], 3),
        (SHAPES, "circle_area", vec![5], 25),
        (SHAPES, "circle_area", vec![0], 0),
        (SHAPES, "rect_area", vec![3, 4], 12),
        (SHAPES, "rect_area", vec![7, 6], 42),
        (GENERICS, "max_of", vec![3, 7], 7),
        (GENERICS, "max_of", vec![7, 3], 7),
        (GENERICS, "max_of", vec![5, 5], 5),
        (GENERICS, "max_of", vec![-4, -9], -4),
        (GENERICS, "nested_clamp", vec![1, 5, 3], 3),
        (GENERICS, "nested_clamp", vec![1, -2, 3], 1),
        (ARRAYS, "sum3", vec![], 42),
        (ARRAYS, "nth", vec![0], 5),
        (ARRAYS, "nth", vec![3], 8),
        (ARRAYS, "length", vec![], 4),
        (ARRAYS, "sum_all", vec![], 15),
        (ARRAYS, "set_get", vec![], 42),
        (ARRAYS, "set_sum", vec![0], 15),
        (ARRAYS, "set_sum", vec![1], 14),
        (ARRAYS, "set_sum", vec![2], 13),
        (ARRAYS, "sum_for", vec![], 20),
        (SLICES, "nth", vec![0], 5),
        (SLICES, "nth", vec![3], 8),
        (SLICES, "length", vec![], 4),
        (SLICES, "sum_all", vec![], 15),
        (SLICES, "set_get", vec![], 42),
        (SLICES, "set_sum", vec![0], 15),
        (SLICES, "set_sum", vec![1], 14),
        (SLICES, "set_sum", vec![2], 13),
        (SLICES, "total", vec![], 42),
        (SLICES, "sum_for", vec![], 20),
        (SLICES, "nested_for", vec![], 180),
        (SLICES, "rescan_for", vec![], 66),
        (SLICES, "sum3", vec![], 42),
    ]
}

/// Programs that use what only the WebAssembly backend has.
fn wasm_cases() -> Cases {
    vec![
        (RETURNS, "first_hit", vec![5, 3], 3),
        (RETURNS, "first_hit", vec![5, 9], -1),
        (RETURNS, "first_even_for", vec![], 4),
        (RECLAIM, "churn", vec![200_000], 40_000_000_000),
        (LISTS, "exercise", vec![0], 19),
    ]
}

/// Positions outside a length.
fn oob_cases() -> Vec<(&'static str, &'static str, Vec<i64>)> {
    vec![
        (SLICES, "nth", vec![4]),
        (SLICES, "nth", vec![-1]),
        (SLICES, "set_sum", vec![3]),
        (ARRAYS, "nth", vec![4]),
    ]
}

fn load(src: &str) -> Loaded {
    load_modules(&vec![parse(src)]).unwrap_or_else(|e| panic!("{}\n{src}", e.message()))
}

/// The definitions of the module itself, by their bare names.
fn own_defs(l: &Loaded) -> Vec<(String, Def)> {
    l.items.iter().filter(|d| d.own).map(|d| (d.bare.clone(), d.def.clone())).collect()
}

// ---- WebAssembly --------------------------------------------------------------------------------

/// An engine that reserves no more memory than a module has.
fn small_engine() -> Engine {
    let mut config = Config::new();
    config.memory_reservation(0);
    config.memory_reservation_for_growth(0);
    config.memory_guard_size(0);
    Engine::new(&config).expect("an engine")
}

/// Instantiates a module without imports and calls an export.
fn call(bytes: &[u8], name: &str, args: &[i64]) -> Result<i64, String> {
    let engine = small_engine();
    let module = Module::new(&engine, bytes).map_err(|e| e.to_string())?;
    let mut store = Store::new(&engine, ());
    let instance = Instance::new(&mut store, &module, &[]).map_err(|e| e.to_string())?;
    let f = instance.get_func(&mut store, name).ok_or("no such export".to_string())?;
    let params: Vec<Val> = args.iter().map(|a| Val::I64(*a)).collect();
    let mut results = [Val::I64(0)];
    f.call(&mut store, &params, &mut results).map_err(|e| e.to_string())?;
    Ok(results[0].unwrap_i64())
}

fn module_imports(bytes: &[u8]) -> Vec<(String, String)> {
    let module = Module::new(&Engine::default(), bytes).expect("a module");
    module.imports().map(|i| (i.module().to_string(), i.name().to_string())).collect()
}

fn checked() -> wasm::Options {
    wasm::Options { bounds_checks: true }
}

fn unchecked() -> wasm::Options {
    wasm::Options { bounds_checks: false }
}

// ---- the native backend --------------------------------------------------------------------------

/// How a run of steps ends.
#[derive(Debug, PartialEq, Eq)]
enum Stop {
    Value(i64),
    OutOfBounds { index: i64, len: i64 },
    Trap,
}

struct Machine<'a> {
    program: &'a JitProgram,
    memory: Vec<i64>,
}

impl<'a> Machine<'a> {
    fn run(&mut self, f: usize, args: &[i64]) -> Stop {
        let code = &self.program.functions[f];
        assert_eq!(args.len(), code.words, "the words of `{}`", code.symbol);
        let mut params: Vec<Vec<usize>> = vec![(0..args.len()).collect()];
        let mut numbers = vec![usize::MAX; code.steps.len()];
        let mut start = vec![0usize];
        let mut values = args.len();
        for (i, s) in code.steps.iter().enumerate() {
            match s {
                Step::Block => {
                    params.push(Vec::new());
                    start.push(usize::MAX);
                }
                Step::Param(b) => {
                    params[*b as usize].push(values);
                    values += 1;
                }
                Step::Switch(b) => start[*b as usize] = i + 1,
                Step::Const(_) | Step::Binary(..) | Step::WithImm(..) | Step::Negate(_)
                | Step::Compare(..) | Step::Widen(_) | Step::Narrow(_) | Step::Load(..)
                | Step::Alloc(_) | Step::Call(..) => {
                    numbers[i] = values;
                    values += 1;
                }
                _ => {}
            }
        }
        let mut held = vec![0i64; values];
        for (i, a) in args.iter().enumerate() {
            held[params[0][i]] = *a;
        }
        let mut at = 0usize;
        loop {
            let mut goto: Option<(u32, Vec<u32>)> = None;
            let v = |n: &u32| held[*n as usize];
            let made: Option<i64> = match &code.steps[at] {
                Step::Const(n) => Some(*n),
                Step::Binary(op, a, b) => {
                    let (a, b) = (v(a), v(b));
                    Some(match op {
                        Binary::Add => a.wrapping_add(b),
                        Binary::Sub => a.wrapping_sub(b),
                        Binary::Mul => a.wrapping_mul(b),
                        Binary::Div => a / b,
                        Binary::Rem => a % b,
                        Binary::And => a & b,
                        Binary::Or => a | b,
                    })
                }
                Step::WithImm(op, a, n) => {
                    let a = v(a);
                    Some(match op {
                        WithImm::Add => a.wrapping_add(*n),
                        WithImm::Mul => a.wrapping_mul(*n),
                        WithImm::Xor => a ^ n,
                        WithImm::Shl => a << n,
                        WithImm::ShrSigned => a >> n,
                        WithImm::ShrUnsigned => ((a as u64) >> n) as i64,
                    })
                }
                Step::Negate(a) => Some(v(a).wrapping_neg()),
                Step::Compare(r, a, b) => {
                    let (a, b) = (v(a), v(b));
                    Some(i64::from(match r {
                        Relation::Equal => a == b,
                        Relation::NotEqual => a != b,
                        Relation::SignedLess => a < b,
                        Relation::SignedLessOrEqual => a <= b,
                        Relation::SignedGreater => a > b,
                        Relation::SignedGreaterOrEqual => a >= b,
                        Relation::UnsignedLess => (a as u64) < (b as u64),
                    }))
                }
                Step::Widen(a) => Some(v(a)),
                Step::Narrow(a) => Some(v(a) & 0xffff_ffff),
                Step::Load(a, off) => Some(self.memory[((v(a) + i64::from(*off)) / 8) as usize]),
                Step::Store(x, a, off) => {
                    let slot = ((v(a) + i64::from(*off)) / 8) as usize;
                    self.memory[slot] = v(x);
                    None
                }
                Step::Alloc(n) => {
                    let base = self.memory.len();
                    self.memory.resize(base + v(n).max(0) as usize, 0);
                    Some(base as i64 * 8)
                }
                Step::Call(f, args) => {
                    let args: Vec<i64> = args.iter().map(v).collect();
                    match self.run(*f, &args) {
                        Stop::Value(n) => Some(n),
                        other => return other,
                    }
                }
                Step::BoundsFail(i, n) => return Stop::OutOfBounds { index: v(i), len: v(n) },
                Step::Jump(b, args) => {
                    goto = Some((*b, args.clone()));
                    None
                }
                Step::Branch(c, yes, no, args) => {
                    goto = Some(if v(c) != 0 { (*yes, Vec::new()) } else { (*no, args.clone()) });
                    None
                }
                Step::Table(t, arms, other) => {
                    let b = arms.get(v(t) as usize).copied().unwrap_or(*other);
                    goto = Some((b, Vec::new()));
                    None
                }
                Step::Trap => return Stop::Trap,
                Step::Return(x) => return Stop::Value(v(x)),
                Step::Block | Step::Param(_) | Step::Switch(_) | Step::Seal(_) => None,
            };
            if let Some(n) = made {
                held[numbers[at]] = n;
            }
            at += 1;
            if let Some((b, args)) = goto {
                let passed: Vec<i64> = args.iter().map(|a| held[*a as usize]).collect();
                let into = &params[b as usize];
                assert_eq!(into.len(), passed.len(), "arguments of block {b}");
                for (slot, x) in into.iter().zip(passed) {
                    held[*slot] = x;
                }
                at = start[b as usize];
            }
        }
    }
}

/// Runs the steps of an entry.
fn run(p: &JitProgram, entry: &str, args: &[i64]) -> Stop {
    let i = p.check_args(entry, args.len()).unwrap_or_else(|e| panic!("{}", e.message()));
    Machine { program: p, memory: Vec::new() }.run(i, args)
}

fn native_module(verify: &str) -> JITModule {
    let mut flags = settings::builder();
    flags.set("use_colocated_libcalls", "false").expect("a flag");
    flags.set("is_pic", "false").expect("a flag");
    flags.set("enable_verifier", verify).expect("a flag");
    let isa = cranelift_native::builder().expect("this machine").finish(settings::Flags::new(flags));
    JITModule::new(JITBuilder::with_isa(isa.expect("a target"), default_libcall_names()))
}

// ---- tests ------------------------------------------------------------------------------------------

#[test]
fn wasm_agrees_with_interpreter() {
    let mut cases = shared_cases();
    cases.extend(wasm_cases());
    for (src, entry, args, expected) in cases {
        let l = load(src);
        let artifact = wasm::compile_hashed_reachable(
            &l.runtime_defs(),
            &l.runtime_aliases(),
            &l.world,
            &wasm::Options::default(),
            entry,
        )
        .unwrap_or_else(|e| panic!("{entry}: {}", e.message()));
        let name = format!("{}.{entry}", l.main_path);
        assert_eq!(call(&artifact.bytes, &name, &args), Ok(expected), "{entry}({args:?})");
    }
}

#[test]
fn interpreter_and_cranelift_agree() {
    for (src, entry, args, expected) in shared_cases() {
        let l = load(src);
        let p = cl::compile(&l.main_path, &own_defs(&l), &l.world)
            .unwrap_or_else(|e| panic!("{entry}: {}", e.message()));
        assert_eq!(run(&p, entry, &args), Stop::Value(expected), "{entry}({args:?})");
        let hashed = cl::compile_hashed_reachable(
            &l.runtime_defs(),
            &l.runtime_aliases(),
            &l.world,
            &cl::Options::default(),
            entry,
        )
        .unwrap_or_else(|e| panic!("{entry}: {}", e.message()));
        assert_eq!(run(&hashed, entry, &args), Stop::Value(expected), "{entry}({args:?}) by hash");
    }
}

#[test]
fn the_code_generator_accepts_every_plan() {
    let mut done: Vec<&str> = Vec::new();
    for (src, _, _, _) in shared_cases() {
        if done.contains(&src) {
            continue;
        }
        done.push(src);
        let l = load(src);
        for checks in [true, false] {
            let opts = cl::Options { bounds_checks: checks };
            let p = cl::compile_with(&l.main_path, &own_defs(&l), &l.world, &opts)
                .unwrap_or_else(|e| panic!("{}", e.message()));
            let mut m = native_module("true");
            let links = p.define_in(&mut m).unwrap_or_else(|e| panic!("{e:?}\n{src}"));
            for (name, id) in
                [("marv_rt_alloc", links.alloc), ("marv_rt_bounds_fail", links.fail)]
            {
                assert_eq!(
                    m.declarations().get_name(name).map(|n| format!("{n:?}")),
                    Some(format!("Func(funcid{id})")),
                );
            }
            assert_eq!(links.ids.len(), p.functions.len());
            for (f, id) in p.functions.iter().zip(&links.ids) {
                assert_eq!(
                    m.declarations().get_name(&f.symbol).map(|n| format!("{n:?}")),
                    Some(format!("Func(funcid{id})")),
                    "{}",
                    f.symbol
                );
            }
        }
    }
}

#[test]
fn a_module_that_does_not_verify_is_refused() {
    let l = load(FACTORIAL);
    let p = cl::compile(&l.main_path, &own_defs(&l), &l.world).expect("a program");
    let e = p.define_in(&mut native_module("false")).err().expect("refused");
    assert_eq!(e, DefineError::Unverified);
    let e = e.codegen_error();
    assert_eq!(
        e,
        CodegenError::Backend("the code generator does not verify functions".to_string())
    );
}

#[test]
fn a_malformed_plan_is_refused() {
    let plan = |words: usize, steps: Vec<Step>| JitProgram {
        functions: vec![ClFunc { symbol: "m.f".to_string(), words, steps }],
        metas: Vec::new(),
        names: Vec::new(),
    };
    for steps in [
        vec![Step::Return(0)],
        vec![Step::Const(1), Step::Binary(Binary::Add, 0, 1), Step::Return(0)],
        vec![Step::Jump(1, Vec::new())],
        vec![Step::Const(1), Step::Branch(0, 0, 1, Vec::new())],
        vec![Step::Const(1), Step::Table(0, vec![2], 0)],
        vec![Step::Call(1, Vec::new()), Step::Return(0)],
        vec![Step::Param(1)],
        vec![Step::Switch(1)],
        vec![Step::Seal(1)],
        vec![Step::Store(0, 0, 0)],
        vec![Step::BoundsFail(0, 0)],
        vec![Step::Alloc(0)],
    ] {
        let e = plan(0, steps).define_in(&mut native_module("true")).err();
        assert_eq!(e, Some(DefineError::Malformed(0)));
    }
    let e = plan(70_000, vec![Step::Return(0)]).define_in(&mut native_module("true")).err();
    assert_eq!(e, Some(DefineError::Malformed(0)));
    let e = plan(4_194_304, vec![Step::Return(0)]).define_in(&mut native_module("true")).err();
    assert_eq!(e, Some(DefineError::TooLarge(0)));
    let backend = |s: &str| CodegenError::Backend(s.to_string());
    assert_eq!(DefineError::Malformed(0).codegen_error(), backend("malformed code"));
    assert_eq!(DefineError::TooLarge(0).codegen_error(), backend("function too large"));
    assert_eq!(DefineError::Generator("x".to_string()).codegen_error(), backend("x"));
    // The first of two, and only the module that verifies comes to it.
    let mut two = plan(1, vec![Step::Return(0)]);
    two.functions.push(ClFunc { symbol: "m.g".to_string(), words: 0, steps: vec![Step::Seal(9)] });
    let e = two.define_in(&mut native_module("true")).err();
    assert_eq!(e, Some(DefineError::Malformed(1)));
    assert_eq!(two.define_in(&mut native_module("false")).err(), Some(DefineError::Unverified));
    // A refused program leaves nothing behind.
    let mut m = native_module("true");
    assert!(two.define_in(&mut m).is_err());
    assert!(m.declarations().get_name("m.f").is_none());
    // One that only the code generator's own verifier refuses.
    let e = plan(0, vec![Step::Const(1)]).define_in(&mut native_module("true")).err();
    assert!(matches!(e, Some(DefineError::Generator(_))), "a block without an end");
    assert!(plan(1, vec![Step::Return(0)]).define_in(&mut native_module("true")).is_ok());
}

#[test]
fn a_symbol_is_defined_once() {
    let f = || ClFunc { symbol: "m.f".to_string(), words: 1, steps: vec![Step::Return(0)] };
    let p = JitProgram { functions: vec![f(), f()], metas: Vec::new(), names: Vec::new() };
    let e = p.define_in(&mut native_module("true")).err().expect("refused");
    let e = e.codegen_error();
    assert!(e.message().contains("m.f"), "{}", e.message());
}

#[test]
fn a_second_definition_of_a_symbol_is_refused() {
    let l = load("mod m\n\npure fn f(a: i64) -> i64 {\n    a\n}\n");
    let m = load("mod m\n\npure fn f(a: i64, b: i64) -> i64 {\n    (a + b)\n}\n");
    let mut defs = own_defs(&l);
    assert!(cl::compile(&l.main_path, &defs, &l.world).is_ok());
    defs.extend(own_defs(&l));
    assert_eq!(
        cl::compile(&l.main_path, &defs, &l.world).err(),
        Some(CodegenError::Backend("Duplicate definition of identifier: m.f".to_string()))
    );
    let mut odd = own_defs(&l);
    odd.extend(own_defs(&m));
    assert_eq!(
        cl::compile(&l.main_path, &odd, &l.world).err(),
        Some(CodegenError::Backend(
            "Function m.f signature is incompatible with previous declaration".to_string()
        ))
    );
}

#[test]
fn an_artifact_is_a_core_module() {
    let l = load(FACTORIAL);
    let opts = checked();
    let a = wasm::compile_reachable(&l.main_path, &own_defs(&l), &l.world, &opts, "factorial")
        .unwrap_or_else(|e| panic!("{}", e.message()));
    assert_eq!(a.bytes[..8], [0x00, 0x61, 0x73, 0x6d, 0x01, 0x00, 0x00, 0x00]);
}

#[test]
fn out_of_bounds_traps_under_wasm_and_errors_in_the_interpreter() {
    for (src, entry, args) in oob_cases() {
        let l = load(src);
        let artifact = wasm::compile(&l.main_path, &own_defs(&l), &l.world)
            .unwrap_or_else(|e| panic!("{}", e.message()));
        let name = format!("{}.{entry}", l.main_path);
        assert!(call(&artifact.bytes, &name, &args).is_err(), "{entry}({args:?})");
    }
}

#[test]
fn out_of_bounds_is_reported_by_native_code() {
    for (src, entry, args) in oob_cases() {
        let l = load(src);
        let p = cl::compile(&l.main_path, &own_defs(&l), &l.world)
            .unwrap_or_else(|e| panic!("{}", e.message()));
        let len = if entry == "nth" { 4 } else { 3 };
        assert_eq!(run(&p, entry, &args), Stop::OutOfBounds { index: args[0], len });
    }
}

#[test]
fn release_mode_bytes_pin_the_check_presence() {
    let l = load(SLICES);
    let d = wasm::compile_with(&l.main_path, &own_defs(&l), &l.world, &checked()).unwrap();
    let r = wasm::compile_with(&l.main_path, &own_defs(&l), &l.world, &unchecked()).unwrap();
    assert_ne!(d.bytes, r.bytes, "an indexing module must carry the bounds check in debug mode");

    let l = load(FACTORIAL);
    let d = wasm::compile_with(&l.main_path, &own_defs(&l), &l.world, &checked()).unwrap();
    let r = wasm::compile_with(&l.main_path, &own_defs(&l), &l.world, &unchecked()).unwrap();
    assert_eq!(
        d.bytes, r.bytes,
        "a module with no runtime indexing must compile identically in both modes"
    );
}

#[test]
fn release_mode_changes_native_code_at_positions_only() {
    for (src, entry, same) in [(FACTORIAL, "factorial", true), (SLICES, "nth", false)] {
        let l = load(src);
        let defs = own_defs(&l);
        let plan = |checks: bool| {
            let opts = cl::Options { bounds_checks: checks };
            cl::compile_with(&l.main_path, &defs, &l.world, &opts).expect("a plan")
        };
        let text = |checks: bool| {
            let opts = llvm::Options { bounds_checks: checks, ..llvm::Options::default() };
            let p = llvm::compile_reachable(&l.main_path, &defs, &l.world, &opts, entry);
            p.unwrap_or_else(|e| panic!("{}", e.message())).ir
        };
        assert_eq!(plan(true).functions == plan(false).functions, same, "{entry}");
        assert_eq!(text(true) == text(false), same, "{entry}");
    }
}

#[test]
fn differential_release_mode_in_bounds_results_are_unchanged() {
    for (src, entry, args, expected) in [
        (SLICES, "nth", vec![3], 8),
        (SLICES, "set_sum", vec![1], 14),
        (ARRAYS, "sum_all", vec![], 15),
    ] {
        let l = load(src);
        let artifact =
            wasm::compile_with(&l.main_path, &own_defs(&l), &l.world, &unchecked()).unwrap();
        let name = format!("{}.{entry}", l.main_path);
        assert_eq!(call(&artifact.bytes, &name, &args), Ok(expected), "{entry}({args:?})");
        let opts = cl::Options { bounds_checks: false };
        let p = cl::compile_with(&l.main_path, &own_defs(&l), &l.world, &opts).unwrap();
        assert_eq!(run(&p, entry, &args), Stop::Value(expected), "{entry}({args:?})");
    }
}

#[test]
fn a_pure_module_imports_nothing() {
    let l = load(FACTORIAL);
    let artifact = wasm::compile(&l.main_path, &own_defs(&l), &l.world).unwrap();
    assert!(
        artifact.imports.is_empty(),
        "a pure module must import no capabilities, got {:?}",
        artifact.imports
    );
    let engine = small_engine();
    let module = Module::new(&engine, &artifact.bytes).unwrap();
    assert!(Instance::new(&mut Store::new(&engine, ()), &module, &[]).is_ok());
}

/// A function that performs the first operation of a capability.
fn performer(cap: &str, ret: Type) -> (Def, World) {
    let h = symbol_hash(cap);
    let cap_ty = Type::Nominal { def: h, args: Vec::new() };
    let row = EffectRow { caps: vec![h], errors: Vec::new() };
    let def = Def {
        kind: DefKind::Fn,
        ty: Type::Arrow {
            param: Box::new(cap_ty.clone()),
            ret: Box::new(ret.clone()),
            effects: row.clone(),
        },
        pre: Vec::new(),
        post: Vec::new(),
        body: Some(Core::Lam {
            param: cap_ty,
            effects: row,
            body: Box::new(Core::Perform { cap: Atom::Var(0), op: OpId(0), args: Vec::new() }),
        }),
    };
    let mut world = World::new();
    let op = OpSig { consumes_receiver: true, params: Vec::new(), ret, errors: Vec::new() };
    world.add_cap(h, cap.to_string(), vec![op]);
    (def, world)
}

#[test]
fn a_capability_using_module_imports_that_capability() {
    let (def, world) = performer("Net", Type::Unit);
    let artifact = wasm::compile("sandbox", &[("fetch".to_string(), def)], &world).unwrap();
    assert_eq!(artifact.imports.len(), 1);
    assert_eq!(artifact.imports[0].cap, "Net");
    assert_eq!(artifact.imports[0].op, 0);
    assert_eq!(module_imports(&artifact.bytes), vec![("Net".to_string(), "op0".to_string())]);
}

#[test]
fn capability_imports_can_return_string_handles() {
    let (def, world) = performer("Http", Type::Str);
    let artifact = wasm::compile("sandbox", &[("method".to_string(), def)], &world).unwrap();
    assert_eq!(artifact.imports.len(), 1);
    assert_eq!(artifact.imports[0].cap, "Http");
    assert_eq!(artifact.imports[0].op, 0);
    assert!(artifact.imports[0].returns_value);
    Module::new(&Engine::default(), &artifact.bytes)
        .expect("string-returning import module validates");
}

#[test]
fn let_bound_capability_narrowing_imports_narrowed_ops() {
    let (io, stream) = (symbol_hash("Io"), symbol_hash("Stream"));
    let cap = |h: marv::ir::Hash| Type::Nominal { def: h, args: Vec::new() };
    let op = |params: Vec<Type>, ret: Type| OpSig {
        consumes_receiver: false,
        params,
        ret,
        errors: Vec::new(),
    };
    let mut world = World::new();
    world.add_cap(stream, "Stream".to_string(), vec![op(vec![Type::Int(IntTy::I64)], Type::Unit)]);
    let mut ops: Vec<OpSig> = (0..5).map(|_| op(Vec::new(), Type::Unit)).collect();
    ops.push(op(Vec::new(), cap(stream)));
    world.add_cap(io, "Io".to_string(), ops);

    let row = EffectRow { caps: vec![io], errors: Vec::new() };
    let three = Atom::Lit(Literal::Int(3));
    let def = Def {
        kind: DefKind::Fn,
        ty: Type::Arrow {
            param: Box::new(cap(io)),
            ret: Box::new(Type::Unit),
            effects: row.clone(),
        },
        pre: Vec::new(),
        post: Vec::new(),
        body: Some(Core::Lam {
            param: cap(io),
            effects: row,
            body: Box::new(Core::Let {
                value: Box::new(Core::Perform { cap: Atom::Var(0), op: OpId(5), args: Vec::new() }),
                body: Box::new(Core::Perform { cap: Atom::Var(0), op: OpId(0), args: vec![three] }),
            }),
        }),
    };
    let h = symbol_hash("m.main");
    let artifact = wasm::compile_hashed_reachable(
        &[(h, "m.main".to_string(), def)],
        &[("main".to_string(), h)],
        &world,
        &wasm::Options::default(),
        "main",
    )
    .unwrap_or_else(|e| panic!("{}", e.message()));

    assert_eq!(artifact.imports.len(), 2);
    assert_eq!(artifact.imports[0].cap, "Io");
    assert_eq!(artifact.imports[0].op, 5);
    assert_eq!(artifact.imports[0].params, 0);
    assert!(!artifact.imports[0].returns_value);
    assert_eq!(artifact.imports[1].cap, "Stream");
    assert_eq!(artifact.imports[1].op, 0);
    assert_eq!(artifact.imports[1].params, 1);
    assert!(!artifact.imports[1].returns_value);
    assert_eq!(
        module_imports(&artifact.bytes),
        vec![
            ("Io".to_string(), "op5".to_string()),
            ("Stream".to_string(), "op0".to_string()),
        ]
    );
}

#[test]
fn differential_reachability_pruned_compile_skips_unsupported_sibling() {
    let l = load(PRUNED);
    let defs = own_defs(&l);

    assert!(
        wasm::compile(&l.main_path, &defs, &l.world).is_err(),
        "whole-module compilation must still reject the unsupported sibling"
    );
    let opts = wasm::Options::default();
    let artifact = wasm::compile_reachable(&l.main_path, &defs, &l.world, &opts, "double")
        .unwrap_or_else(|e| panic!("pruned wasm compile: {}", e.message()));
    let exported: Vec<&str> = artifact.exports.iter().map(|e| e.name.as_str()).collect();
    assert_eq!(exported, ["pruned.double"], "only the reachable closure is exported");
    assert_eq!(call(&artifact.bytes, "pruned.double", &[21]), Ok(42));

    assert!(
        cl::compile(&l.main_path, &defs, &l.world).is_err(),
        "whole-module compilation must still reject the unsupported sibling"
    );
    let opts = cl::Options::default();
    let p = cl::compile_reachable(&l.main_path, &defs, &l.world, &opts, "double")
        .unwrap_or_else(|e| panic!("pruned native compile: {}", e.message()));
    assert_eq!(run(&p, "double", &[21]), Stop::Value(42));
}

#[test]
fn llvm_reports_reachable_unsupported_constructs() {
    let l = load(PRUNED);
    let defs = own_defs(&l);
    let opts = llvm::Options::default();
    let ok = llvm::compile_reachable(&l.main_path, &defs, &l.world, &opts, "double");
    assert!(ok.is_ok(), "unreachable unsupported sibling must be pruned");

    let err = llvm::compile_reachable(&l.main_path, &defs, &l.world, &opts, "nudge")
        .expect_err("reachable unsupported method call should fail");
    assert!(
        err.message().contains("unknown global") || err.message().contains("unsupported"),
        "unexpected error: {}",
        err.message()
    );
}

#[test]
fn llvm_compiles_what_the_other_backends_do() {
    for (src, entry, args, _) in shared_cases() {
        let l = load(src);
        let p = llvm::compile_reachable(
            &l.main_path,
            &own_defs(&l),
            &l.world,
            &llvm::Options::default(),
            entry,
        )
        .unwrap_or_else(|e| panic!("{entry}: {}", e.message()));
        assert_eq!(p.entry_arity(), args.len());
        assert!(p.ir.contains(&p.entry_symbol), "{}", p.ir);
        assert_eq!(p.check_args(args.len()), Ok(()));
        assert!(p.check_args(args.len() + 1).is_err());
    }
}

/// The LLVM text of an entry.
fn llvm_text(src: &str, entry: &str) -> String {
    let l = load(src);
    let opts = llvm::Options::default();
    llvm::compile_reachable(&l.main_path, &own_defs(&l), &l.world, &opts, entry)
        .unwrap_or_else(|e| panic!("{entry}: {}", e.message()))
        .ir
}

/// The lines of the only block of that kind.
fn block_lines<'a>(ir: &'a str, kind: &str) -> Vec<&'a str> {
    let starts = |l: &str| l.ends_with(':') && l.starts_with(kind);
    assert_eq!(ir.lines().filter(|l| starts(l)).count(), 1, "{ir}");
    ir.lines()
        .skip_while(|l| !starts(l))
        .skip(1)
        .take_while(|l| !l.ends_with(':') && !l.starts_with('}'))
        .map(str::trim)
        .collect()
}

/// Whether every block chooses by where control comes from before it does anything
/// else.
fn phis_come_first(ir: &str) -> bool {
    let mut first = true;
    for l in ir.lines() {
        if l.ends_with(':') {
            first = true;
        } else if l.contains(" = phi ") {
            if !first {
                return false;
            }
        } else {
            first = false;
        }
    }
    true
}

#[test]
fn llvm_branches_that_build_different_variants_keep_their_tags() {
    let src = "\
mod shapes

enum Shape {
    Dot,
    Line(i64),
    Rect(i64, i64),
}

pure fn pick(n: i64) -> Shape {
    if (n < 1) {
        Shape.Dot
    } else {
        Shape.Rect(n, 2)
    }
}
";
    let ir = llvm_text(src, "pick");
    assert!(phis_come_first(&ir), "{ir}");
    let end = block_lines(&ir, "if.end");
    let phis: Vec<&str> = end.iter().copied().filter(|l| l.contains(" = phi ")).collect();
    assert_eq!(phis.len(), 3, "{ir}");
    let from = |a: &str, b: &str| {
        let want = [format!("[ {a}, %if.then"), format!("[ {b}, %if.else")];
        phis.iter().filter(|l| want.iter().all(|w| l.contains(w.as_str()))).count()
    };
    assert_eq!(from("0", "2"), 2, "a field that is 2, and the tag: {ir}");
    assert!(end.iter().any(|l| l.contains("call ptr @calloc(i64 3, i64 8)")), "{ir}");
    assert_eq!(end.iter().filter(|l| l.starts_with("store i64 ")).count(), 3, "{ir}");

    let src = "\
mod colors

enum Color {
    Red,
    Green,
    Blue,
}

pure fn pick(n: i64) -> Color {
    if (n == 0) {
        Color.Red
    } else if (n == 1) {
        Color.Green
    } else {
        Color.Blue
    }
}
";
    let ir = llvm_text(src, "pick");
    assert!(phis_come_first(&ir), "{ir}");
    let phis: Vec<&str> = ir.lines().filter(|l| l.contains(" = phi ")).map(str::trim).collect();
    assert_eq!(phis.len(), 2, "the tag of either branch, then of the whole: {ir}");
    assert!(phis[0].contains("[ 1, %if.then") && phis[0].contains("[ 2, %if.else"), "{ir}");
    let chosen = phis[0].split(' ').next().expect("a name");
    assert!(phis[1].contains("[ 0, %if.then"), "{ir}");
    assert!(phis[1].contains(&format!("[ {chosen}, %if.end")), "{ir}");
    assert!(ir.contains(&format!("store i64 {}, ptr ", phis[1].split(' ').next().unwrap())), "{ir}");
}

#[test]
fn llvm_branches_that_build_one_shape_stay_values() {
    let src = "\
mod pairs

struct Pair { a: i64, b: i64 }

struct Nest { p: Pair, c: i64 }

pure fn flat(n: i64) -> i64 {
    let p = pick(n)
    (p.a + p.b)
}

pure fn pick(n: i64) -> Pair {
    if (n < 1) {
        Pair { a: 1, b: n }
    } else {
        Pair { a: n, b: 2 }
    }
}

pure fn nested(n: i64) -> Nest {
    if (n < 1) {
        let p = Pair { a: 1, b: n }
        Nest { p: p, c: 3 }
    } else {
        let p = Pair { a: n, b: 2 }
        Nest { p: p, c: 4 }
    }
}
";
    let ir = llvm_text(src, "flat");
    assert!(phis_come_first(&ir), "{ir}");
    let phis = |ir: &str| block_lines(ir, "if.end").iter().filter(|l| l.contains(" = phi ")).count();
    assert_eq!(phis(&ir), 2, "{ir}");
    let ir = llvm_text(src, "nested");
    assert!(phis_come_first(&ir), "an aggregate in a field is stored before the jump: {ir}");
    assert_eq!(phis(&ir), 2, "{ir}");
    for arm in ["if.then", "if.else"] {
        let n = block_lines(&ir, arm).iter().filter(|l| l.contains("@calloc")).count();
        assert_eq!(n, 1, "{arm}: {ir}");
    }
}

#[test]
fn native_llvm_reports_reachable_capability_perform() {
    let (def, world) = performer("Net", Type::Unit);
    let h = symbol_hash("m.main");
    let defs = [(h, "m.main".to_string(), def)];
    let aliases = [("main".to_string(), h)];
    let opts = llvm::Options::default();
    let e = llvm::compile_hashed_reachable(&defs, &aliases, &world, &opts, "main")
        .expect_err("unsupported");
    assert!(e.message().contains("unsupported: capability perform"), "{}", e.message());
}

#[test]
fn native_aot_reports_reachable_capability_perform_without_artifact() {
    let (def, world) = performer("Net", Type::Unit);
    let h = symbol_hash("m.main");
    let defs = [(h, "m.main".to_string(), def)];
    let aliases = [("main".to_string(), h)];
    let opts = cl::Options::default();
    let e = cl::compile_hashed_reachable(&defs, &aliases, &world, &opts, "main")
        .expect_err("unsupported");
    assert!(e.message().contains("unsupported: capability perform"), "{}", e.message());
}

/// The message of each backend on an entry that it refuses.
fn refusals(src: &str, entry: &str) -> Vec<String> {
    let l = load(src);
    let (defs, aliases) = (l.runtime_defs(), l.runtime_aliases());
    let in_llvm = llvm::Options::default();
    let in_cl = cl::Options::default();
    let in_wasm = wasm::Options::default();
    vec![
        llvm::compile_hashed_reachable(&defs, &aliases, &l.world, &in_llvm, entry)
            .expect_err("unsupported")
            .message(),
        cl::compile_hashed_reachable(&defs, &aliases, &l.world, &in_cl, entry)
            .expect_err("unsupported")
            .message(),
        wasm::compile_hashed_reachable(&defs, &aliases, &l.world, &in_wasm, entry)
            .expect_err("unsupported")
            .message(),
    ]
}

#[test]
fn native_llvm_reports_reachable_raise() {
    let src = "\
mod m

error Bad { Input }

fn invalid_scalar() -> !i64 {
    Bad.Input
}
";
    for e in refusals(src, "invalid_scalar") {
        assert!(e.contains("unsupported: raise"), "{e}");
    }
}

#[test]
fn native_llvm_reports_reachable_unsafe_extern_without_body() {
    let src = "\
mod m

extern fn add_one(x: i64) -> i64

unsafe fn audited_add_one(x: i64) -> i64 {
    add_one(x)
}
";
    for e in refusals(src, "audited_add_one") {
        assert!(e.contains("unsupported: function without a body"), "{e}");
    }
}

#[test]
fn an_entry_is_found_by_its_names() {
    let l = load(STRUCTS);
    let p = cl::compile(&l.main_path, &own_defs(&l), &l.world).expect("a program");
    assert_eq!(p.entry_arity("manhattan"), Ok(2));
    assert_eq!(p.entry_arity("structs.manhattan"), Ok(2));
    assert_eq!(p.entry_arity("nope"), Err(CodegenError::NoSuchEntry("nope".to_string())));
    assert_eq!(p.entry_arity(""), Err(CodegenError::NoSuchEntry("main".to_string())));
    assert_eq!(
        p.check_args("manhattan", 1),
        Err(CodegenError::ArgCount { expected: 2, got: 1 })
    );
    assert_eq!(
        CodegenError::ArgCount { expected: 2, got: 1 }.message(),
        "cranelift backend: entry expects 2 argument(s), got 1"
    );
    assert_eq!(
        CodegenError::NoSuchEntry("nope".to_string()).message(),
        "cranelift backend: no entry point `nope`"
    );
}
