//! The text of an LLVM function under construction.
//!
//! Every value is a 64-bit word. An aggregate stays a list of values as long as
//! it can, and becomes a block in memory where a single word is needed.
use vstd::prelude::*;
use vstd::string::*;

use crate::dump;
use crate::dump::show_hash;
use crate::ir::{Type, TypeView};
use crate::ops;
use crate::text;
use crate::text::{decimal_string, push_decimal};
use crate::world;

verus! {

/// Why a program was not compiled or run.
#[derive(Debug, PartialEq, Eq)]
pub enum LlvmError {
    /// A construct that is not lowered.
    Unsupported(String),
    /// A reference to something that is no function of the program.
    UnknownGlobal(crate::ir::Hash),
    /// There is no such entry point.
    NoSuchEntry(String),
    /// An entry was given another number of arguments than it takes.
    ArgCount { expected: usize, got: usize },
    /// A tool failed.
    Backend(String),
}

/// The mathematical counterpart of [`LlvmError`].
pub enum LlvmErrorView {
    Unsupported(Seq<char>),
    UnknownGlobal(Seq<u8>),
    NoSuchEntry(Seq<char>),
    ArgCount { expected: usize, got: usize },
    Backend(Seq<char>),
}

impl View for LlvmError {
    type V = LlvmErrorView;

    open spec fn view(&self) -> LlvmErrorView {
        match self {
            LlvmError::Unsupported(s) => LlvmErrorView::Unsupported(s@),
            LlvmError::UnknownGlobal(h) => LlvmErrorView::UnknownGlobal(h@),
            LlvmError::NoSuchEntry(s) => LlvmErrorView::NoSuchEntry(s@),
            LlvmError::ArgCount { expected, got } => LlvmErrorView::ArgCount {
                expected: *expected,
                got: *got,
            },
            LlvmError::Backend(s) => LlvmErrorView::Backend(s@),
        }
    }
}

/// The text of an error.
pub open spec fn llvm_error_text(e: LlvmErrorView) -> Seq<char> {
    match e {
        LlvmErrorView::Unsupported(d) => ("llvm backend: unsupported: "@ + d),
        LlvmErrorView::UnknownGlobal(h) => "llvm backend: unknown global "@ + ("b3:"@ + ops::hex_view(h)),
        LlvmErrorView::NoSuchEntry(e) => ("llvm backend: no entry point `"@ + e + "`"@),
        LlvmErrorView::ArgCount { expected, got } =>
            ("llvm backend: entry expects "@ + text::decimal(expected as nat) + " argument(s), got "@ + text::decimal(got as nat)),
        LlvmErrorView::Backend(m) => ("llvm backend: "@ + m),
    }
}

impl LlvmError {
    /// The text of an error.
    pub fn message(&self) -> (r: String)
        ensures
            r@ == llvm_error_text(self@),
    {
        match self {
            LlvmError::Unsupported(d) => {
                let mut x = "llvm backend: unsupported: ".to_owned();
                x.append(d.as_str());
                x
            },
            LlvmError::UnknownGlobal(h) => {
                let mut s = "llvm backend: unknown global ".to_owned();
                s.append(h.to_b3().as_str());
                s
            },
            LlvmError::NoSuchEntry(e) => {
                let mut x = "llvm backend: no entry point `".to_owned();
                x.append(e.as_str());
                x.append("`");
                x
            },
            LlvmError::ArgCount { expected, got } => {
                let mut s = "llvm backend: entry expects ".to_owned();
                push_decimal(&mut s, *expected as u64);
                s.append(" argument(s), got ");
                push_decimal(&mut s, *got as u64);
                s
            },
            LlvmError::Backend(m) => {
                let mut x = "llvm backend: ".to_owned();
                x.append(m.as_str());
                x
            },
        }
    }
}

pub open spec fn refused(m: Seq<char>) -> LlvmErrorView {
    LlvmErrorView::Unsupported(m)
}

pub fn refuse(m: &str) -> (r: LlvmError)
    ensures
        r@ == refused(m@),
{
    LlvmError::Unsupported(m.to_owned())
}

// ---- values -----------------------------------------------------------------------------------------

/// What a term has become: a word, nothing, a return, a call that lacks
/// arguments, or an aggregate. The tag of an aggregate is a word like its fields:
/// a number, or what a branch has chosen.
#[derive(Debug, PartialEq, Eq)]
pub enum Piece {
    Val(String),
    Unit,
    Returned,
    Partial { func: crate::ir::Hash, got: Vec<Piece> },
    Tuple { tag: String, fields: Vec<Piece> },
}

/// The mathematical counterpart of [`Piece`].
#[verifier::ext_equal]
pub enum PieceView {
    Val(Seq<char>),
    Unit,
    Returned,
    Partial { func: Seq<u8>, got: Seq<PieceView> },
    Tuple { tag: Seq<char>, fields: Seq<PieceView> },
}

impl Piece {
    pub open spec fn model(self) -> PieceView
        decreases self,
    {
        match self {
            Piece::Val(v) => PieceView::Val(v@),
            Piece::Unit => PieceView::Unit,
            Piece::Returned => PieceView::Returned,
            Piece::Partial { func, got } => PieceView::Partial { func: func@, got: pieces_view(got@) },
            Piece::Tuple { tag, fields } => PieceView::Tuple { tag: tag@, fields: pieces_view(fields@) },
        }
    }
}

/// The counterpart of a list of values, member by member.
pub open spec fn pieces_view(v: Seq<Piece>) -> Seq<PieceView>
    decreases v,
{
    Seq::new(
        v.len(),
        |i: int|
            if 0 <= i < v.len() {
                v[i].model()
            } else {
                PieceView::Unit
            },
    )
}

impl View for Piece {
    type V = PieceView;

    open spec fn view(&self) -> PieceView {
        self.model()
    }
}

/// Each member of a list's counterpart is the counterpart of the member.
pub broadcast proof fn lemma_pieces_view(v: Seq<Piece>)
    ensures
        (#[trigger] pieces_view(v)).len() == v.len(),
        forall|i: int| 0 <= i < v.len() ==> #[trigger] pieces_view(v)[i] == v[i]@,
{
    assert forall|i: int| 0 <= i < v.len() implies #[trigger] pieces_view(v)[i] == v[i]@ by {
        assert(v[i]@ == v[i].model());
    }
}

impl Clone for Piece {
    fn clone(&self) -> (r: Self)
        ensures
            r@ == self@,
        decreases self,
    {
        match self {
            Piece::Val(v) => Piece::Val(v.as_str().to_owned()),
            Piece::Unit => Piece::Unit,
            Piece::Returned => Piece::Returned,
            Piece::Partial { func, got } => Piece::Partial { func: *func, got: clone_items(got) },
            Piece::Tuple { tag, fields } => Piece::Tuple {
                tag: tag.as_str().to_owned(),
                fields: clone_items(fields),
            },
        }
    }
}

fn clone_items(v: &Vec<Piece>) -> (r: Vec<Piece>)
    ensures
        pieces_view(r@) == pieces_view(v@),
    decreases v@,
{
    let mut out: Vec<Piece> = Vec::new();
    let mut i: usize = 0;
    while i < v.len()
        invariant
            i <= v@.len(),
            out@.len() == i,
            forall|k: int| 0 <= k < i ==> #[trigger] out@[k]@ == v@[k]@,
        decreases v@.len() - i,
    {
        let c = v[i].clone();
        out.push(c);
        i = i + 1;
    }
    broadcast use lemma_pieces_view;

    assert(pieces_view(out@) =~= pieces_view(v@));
    out
}

/// A value, as it is built.
pub open spec fn item_text(x: PieceView) -> Seq<char>
    decreases x, 0nat,
{
    match x {
        PieceView::Val(v) => "Val(\""@ + v + "\")"@,
        PieceView::Unit => "Unit"@,
        PieceView::Returned => "Returned"@,
        PieceView::Partial { func, got } => "Partial { func: "@ + dump::hash_text(func) + ", got: ["@
            + items_text(got, got.len()) + "] }"@,
        PieceView::Tuple { tag, fields } => "Tuple { tag: "@ + tag + ", fields: ["@
            + items_text(fields, fields.len()) + "] }"@,
    }
}

/// The first `n` values, separated by commas.
pub open spec fn items_text(v: Seq<PieceView>, n: nat) -> Seq<char>
    decreases v, n,
{
    if n == 0 || n > v.len() {
        Seq::empty()
    } else if n == 1 {
        item_text(v[0])
    } else {
        items_text(v, (n - 1) as nat) + ", "@ + item_text(v[n - 1])
    }
}

/// A value, as it is built.
pub fn show_item(x: &Piece) -> (r: String)
    ensures
        r@ == item_text(x@),
    decreases x, 0nat,
{
    broadcast use lemma_pieces_view;

    match x {
        Piece::Val(v) => {
            let mut s = "Val(\"".to_owned();
            s.append(v.as_str());
            s.append("\")");
            s
        },
        Piece::Unit => "Unit".to_owned(),
        Piece::Returned => "Returned".to_owned(),
        Piece::Partial { func, got } => {
            let h = show_hash(func);
            let inner = show_items(got);
            let mut s = "Partial { func: ".to_owned();
            s.append(h.as_str());
            s.append(", got: [");
            s.append(inner.as_str());
            s.append("] }");
            s
        },
        Piece::Tuple { tag, fields } => {
            let inner = show_items(fields);
            let mut s = "Tuple { tag: ".to_owned();
            s.append(tag.as_str());
            s.append(", fields: [");
            s.append(inner.as_str());
            s.append("] }");
            s
        },
    }
}

fn show_items(v: &Vec<Piece>) -> (r: String)
    ensures
        r@ == items_text(pieces_view(v@), v@.len()),
    decreases v@, 0nat,
{
    broadcast use lemma_pieces_view;

    let ghost iv = pieces_view(v@);
    let mut s = String::new();
    let mut i: usize = 0;
    assert(s@ =~= Seq::empty());
    while i < v.len()
        invariant
            i <= v@.len(),
            iv == pieces_view(v@),
            iv.len() == v@.len(),
            s@ == items_text(iv, i as nat),
        decreases v@.len() - i,
    {
        if i > 0 {
            s.append(", ");
        }
        assert(iv[i as int] == v@[i as int]@);
        let t = show_item(&v[i]);
        s.append(t.as_str());
        assert(s@ =~= items_text(iv, (i + 1) as nat));
        i = i + 1;
    }
    s
}

// ---- the function being built ---------------------------------------------------------------------------

/// A function under construction: its lines, the binders in scope with their
/// types, the next numbers of a value and of a label, the block that is being
/// written, and whether it has its last instruction.
pub struct FuncBuilder {
    pub lines: Vec<String>,
    pub env: Vec<Piece>,
    pub tys: Vec<Option<Type>>,
    pub tmp: u64,
    pub label: u64,
    pub current: String,
    pub terminated: bool,
}

/// The mathematical counterpart of [`FuncBuilder`].
#[verifier::ext_equal]
pub struct LlSt {
    pub lines: Seq<Seq<char>>,
    pub env: Seq<PieceView>,
    pub tys: Seq<Option<TypeView>>,
    pub tmp: u64,
    pub label: u64,
    pub current: Seq<char>,
    pub terminated: bool,
}

impl View for FuncBuilder {
    type V = LlSt;

    open spec fn view(&self) -> LlSt {
        LlSt {
            lines: text::strings_view(self.lines@),
            env: pieces_view(self.env@),
            tys: world::opt_types_view(self.tys@),
            tmp: self.tmp,
            label: self.label,
            current: self.current@,
            terminated: self.terminated,
        }
    }
}

/// The next number.
pub open spec fn next_number(n: u64) -> u64 {
    if n < u64::MAX {
        (n + 1) as u64
    } else {
        n
    }
}

fn following(n: u64) -> (r: u64)
    ensures
        r == next_number(n),
{
    if n < u64::MAX {
        n + 1
    } else {
        n
    }
}

/// One more than a length, in decimal.
pub open spec fn one_more(n: nat) -> Seq<char> {
    text::decimal(next_number((n as usize) as u64) as nat)
}

pub fn one_more_of(n: usize) -> (r: String)
    ensures
        r@ == one_more(n as nat),
{
    decimal_string(following(n as u64))
}

/// One more instruction.
pub open spec fn line(s: LlSt, text: Seq<char>) -> LlSt {
    LlSt { lines: s.lines.push("  "@ + text), ..s }
}

/// The last instruction of a block.
pub open spec fn last_line(s: LlSt, text: Seq<char>) -> LlSt {
    LlSt { terminated: true, ..line(s, text) }
}

/// A new block.
pub open spec fn block(s: LlSt, name: Seq<char>) -> LlSt {
    LlSt { lines: s.lines.push(name + ":"@), current: name, terminated: false, ..s }
}

/// A name for a new value.
pub open spec fn value_s(s: LlSt) -> (Seq<char>, LlSt) {
    (("%t"@ + text::decimal(s.tmp as nat)), LlSt { tmp: next_number(s.tmp), ..s })
}

/// A name for a new block.
pub open spec fn name_s(prefix: Seq<char>, s: LlSt) -> (Seq<char>, LlSt) {
    ((prefix + "."@ + text::decimal(s.label as nat)), LlSt { label: next_number(s.label), ..s })
}

/// A new value, with the instruction that makes it: `before`, its name, `after`.
pub open spec fn made(after: Seq<char>, s: LlSt) -> (Seq<char>, LlSt) {
    let (t, s1) = value_s(s);
    (t, line(s1, t + after))
}

impl FuncBuilder {
    pub fn emit(&mut self, text: &str)
        ensures
            final(self)@ == line(old(self)@, text@),
    {
        let ghost before = self.lines@;
        let l = {
            let mut x = "  ".to_owned();
            x.append(text);
            x
        };
        let ghost lv = l@;
        self.lines.push(l);
        assert(text::strings_view(self.lines@) =~= text::strings_view(before).push(lv));
    }

    pub fn emit_last(&mut self, text: &str)
        ensures
            final(self)@ == last_line(old(self)@, text@),
    {
        self.emit(text);
        self.terminated = true;
    }

    pub fn push_label(&mut self, name: &str)
        ensures
            final(self)@ == block(old(self)@, name@),
    {
        let ghost before = self.lines@;
        let l = {
            let mut x = name.to_owned();
            x.append(":");
            x
        };
        let ghost lv = l@;
        self.lines.push(l);
        assert(text::strings_view(self.lines@) =~= text::strings_view(before).push(lv));
        self.current = name.to_owned();
        self.terminated = false;
    }

    pub fn value(&mut self) -> (r: String)
        ensures
            (r@, final(self)@) == value_s(old(self)@),
    {
        let n = self.tmp;
        self.tmp = following(n);
        {
            let mut x = "%t".to_owned();
            push_decimal(&mut x, n as u64);
            x
        }
    }

    pub fn name(&mut self, prefix: &str) -> (r: String)
        ensures
            (r@, final(self)@) == name_s(prefix@, old(self)@),
    {
        let n = self.label;
        self.label = following(n);
        {
            let mut x = prefix.to_owned();
            x.append(".");
            push_decimal(&mut x, n as u64);
            x
        }
    }

    pub fn make(&mut self, after: &str) -> (r: String)
        ensures
            (r@, final(self)@) == made(after@, old(self)@),
    {
        let t = self.value();
        let text = {
            let mut x = t.as_str().to_owned();
            x.append(after);
            x
        };
        self.emit(text.as_str());
        t
    }
}

// ---- instructions --------------------------------------------------------------------------------------------

/// A jump.
pub open spec fn jump(name: Seq<char>) -> Seq<char> {
    ("br label %"@ + name)
}

/// A jump to one of two blocks.
pub open spec fn ll_choice(v: Seq<char>, yes: Seq<char>, no: Seq<char>) -> Seq<char> {
    ("br i1 "@ + v + ", label %"@ + yes + ", label %"@ + no)
}

pub fn jump_to(name: &str) -> (r: String)
    ensures
        r@ == jump(name@),
{
    {
        let mut x = "br label %".to_owned();
        x.append(name);
        x
    }
}

pub fn choice_of(v: &str, yes: &str, no: &str) -> (r: String)
    ensures
        r@ == ll_choice(v@, yes@, no@),
{
    {
        let mut x = "br i1 ".to_owned();
        x.append(v);
        x.append(", label %");
        x.append(yes);
        x.append(", label %");
        x.append(no);
        x
    }
}

/// A binary operation.
pub open spec fn bin_s(op: Seq<char>, a: Seq<char>, b: Seq<char>, s: LlSt) -> (Seq<char>, LlSt) {
    made((" = "@ + op + " i64 "@ + a + ", "@ + b), s)
}

/// A comparison, as a word.
pub open spec fn compare_s(pred: Seq<char>, a: Seq<char>, b: Seq<char>, s: LlSt) -> (Seq<char>, LlSt) {
    let (c, s1) = made((" = icmp "@ + pred + " i64 "@ + a + ", "@ + b), s);
    made((" = zext i1 "@ + c + " to i64"@), s1)
}

/// A word as a condition.
pub open spec fn bit_s(v: Seq<char>, s: LlSt) -> (Seq<char>, LlSt) {
    made((" = icmp ne i64 "@ + v + ", 0"@), s)
}

/// A word cut to a width and extended again.
pub open spec fn narrow_s(v: Seq<char>, bits: u32, signed: bool, s: LlSt) -> (Seq<char>, LlSt) {
    let (t, s1) = made((" = trunc i64 "@ + v + " to i"@ + text::decimal(bits as nat)), s);
    if signed {
        made((" = sext i"@ + text::decimal(bits as nat) + " "@ + t + " to i64"@), s1)
    } else {
        made((" = zext i"@ + text::decimal(bits as nat) + " "@ + t + " to i64"@), s1)
    }
}

/// A block of memory.
pub open spec fn alloc_s(words: Seq<char>, s: LlSt) -> (Seq<char>, LlSt) {
    let (raw, s1) = made((" = call ptr @calloc(i64 "@ + words + ", i64 8)"@), s);
    made((" = ptrtoint ptr "@ + raw + " to i64"@), s1)
}

/// The address of a word of a block.
pub open spec fn address_s(base: Seq<char>, index: Seq<char>, s: LlSt) -> (Seq<char>, LlSt) {
    let (raw, s1) = made((" = inttoptr i64 "@ + base + " to ptr"@), s);
    made((" = getelementptr i64, ptr "@ + raw + ", i64 "@ + index), s1)
}

/// A word of a block.
pub open spec fn load_s(base: Seq<char>, index: Seq<char>, s: LlSt) -> (Seq<char>, LlSt) {
    let (addr, s1) = address_s(base, index, s);
    made((" = load i64, ptr "@ + addr), s1)
}

/// A word stored in a block.
pub open spec fn store_s(base: Seq<char>, index: Seq<char>, v: Seq<char>, s: LlSt) -> LlSt {
    let (addr, s1) = address_s(base, index, s);
    line(s1, ("store i64 "@ + v + ", ptr "@ + addr))
}

/// A variable of the function, with its first value.
pub open spec fn variable_s(init: Seq<char>, s: LlSt) -> (Seq<char>, LlSt) {
    let (slot, s1) = made(" = alloca i64"@, s);
    (slot, line(s1, ("store i64 "@ + init + ", ptr "@ + slot)))
}

/// The value of a variable.
pub open spec fn read_s(slot: Seq<char>, s: LlSt) -> (Seq<char>, LlSt) {
    made((" = load i64, ptr "@ + slot), s)
}

/// Words copied from block to block, in a loop.
pub open spec fn copy_s(src: Seq<char>, dst: Seq<char>, total: Seq<char>, s: LlSt) -> LlSt {
    let (slot, s1) = variable_s("0"@, s);
    let (header, s2) = name_s("copy.header"@, s1);
    let (body, s3) = name_s("copy.body"@, s2);
    let (exit, s4) = name_s("copy.exit"@, s3);
    let (k, s5) = read_s(slot, block(last_line(s4, jump(header)), header));
    let (more, s6) = compare_s("ult"@, k, total, s5);
    let (bit, s7) = bit_s(more, s6);
    let (word, s8) = load_s(src, k, block(last_line(s7, ll_choice(bit, body, exit)), body));
    let (next, s9) = bin_s("add"@, k, "1"@, store_s(dst, k, word, s8));
    block(last_line(line(s9, ("store i64 "@ + next + ", ptr "@ + slot)), jump(header)), exit)
}

/// A failure at run time.
pub open spec fn abort_s(s: LlSt) -> LlSt {
    last_line(line(s, "call void @abort()"@), "unreachable"@)
}

/// A position tested, if that is asked for.
pub open spec fn ll_bounds_s(checks: bool, base: Seq<char>, index: Seq<char>, s: LlSt) -> LlSt {
    if checks {
        let (len, s1) = load_s(base, "0"@, s);
        let (ok, s2) = compare_s("ult"@, index, len, s1);
        let (bit, s3) = bit_s(ok, s2);
        let (pass, s4) = name_s("bounds.pass"@, s3);
        let (fail, s5) = name_s("bounds.fail"@, s4);
        block(abort_s(block(last_line(s5, ll_choice(bit, pass, fail)), fail)), pass)
    } else {
        s
    }
}

impl FuncBuilder {
    pub fn bin(&mut self, op: &str, a: &str, b: &str) -> (r: String)
        ensures
            (r@, final(self)@) == bin_s(op@, a@, b@, old(self)@),
    {
        let text = {
            let mut x = " = ".to_owned();
            x.append(op);
            x.append(" i64 ");
            x.append(a);
            x.append(", ");
            x.append(b);
            x
        };
        self.make(text.as_str())
    }

    pub fn compare(&mut self, pred: &str, a: &str, b: &str) -> (r: String)
        ensures
            (r@, final(self)@) == compare_s(pred@, a@, b@, old(self)@),
    {
        let text = {
            let mut x = " = icmp ".to_owned();
            x.append(pred);
            x.append(" i64 ");
            x.append(a);
            x.append(", ");
            x.append(b);
            x
        };
        let c = self.make(text.as_str());
        let wide = {
            let mut x = " = zext i1 ".to_owned();
            x.append(c.as_str());
            x.append(" to i64");
            x
        };
        self.make(wide.as_str())
    }

    pub fn bit(&mut self, v: &str) -> (r: String)
        ensures
            (r@, final(self)@) == bit_s(v@, old(self)@),
    {
        let text = {
            let mut x = " = icmp ne i64 ".to_owned();
            x.append(v);
            x.append(", 0");
            x
        };
        self.make(text.as_str())
    }

    pub fn trunc_ext(&mut self, v: &str, bits: u32, signed: bool) -> (r: String)
        ensures
            (r@, final(self)@) == narrow_s(v@, bits, signed, old(self)@),
    {
        let text = {
            let mut x = " = trunc i64 ".to_owned();
            x.append(v);
            x.append(" to i");
            push_decimal(&mut x, bits as u64);
            x
        };
        let t = self.make(text.as_str());
        if signed {
            let wide = {
                let mut x = " = sext i".to_owned();
                push_decimal(&mut x, bits as u64);
                x.append(" ");
                x.append(t.as_str());
                x.append(" to i64");
                x
            };
            self.make(wide.as_str())
        } else {
            let wide = {
                let mut x = " = zext i".to_owned();
                push_decimal(&mut x, bits as u64);
                x.append(" ");
                x.append(t.as_str());
                x.append(" to i64");
                x
            };
            self.make(wide.as_str())
        }
    }

    pub fn alloc_words(&mut self, words: &str) -> (r: String)
        ensures
            (r@, final(self)@) == alloc_s(words@, old(self)@),
    {
        let text = {
            let mut x = " = call ptr @calloc(i64 ".to_owned();
            x.append(words);
            x.append(", i64 8)");
            x
        };
        let raw = self.make(text.as_str());
        let ptr = {
            let mut x = " = ptrtoint ptr ".to_owned();
            x.append(raw.as_str());
            x.append(" to i64");
            x
        };
        self.make(ptr.as_str())
    }

    fn address(&mut self, base: &str, index: &str) -> (r: String)
        ensures
            (r@, final(self)@) == address_s(base@, index@, old(self)@),
    {
        let text = {
            let mut x = " = inttoptr i64 ".to_owned();
            x.append(base);
            x.append(" to ptr");
            x
        };
        let raw = self.make(text.as_str());
        let addr = {
            let mut x = " = getelementptr i64, ptr ".to_owned();
            x.append(raw.as_str());
            x.append(", i64 ");
            x.append(index);
            x
        };
        self.make(addr.as_str())
    }

    pub fn load_word(&mut self, base: &str, index: &str) -> (r: String)
        ensures
            (r@, final(self)@) == load_s(base@, index@, old(self)@),
    {
        let addr = self.address(base, index);
        let text = {
            let mut x = " = load i64, ptr ".to_owned();
            x.append(addr.as_str());
            x
        };
        self.make(text.as_str())
    }

    pub fn store_word(&mut self, base: &str, index: &str, v: &str)
        ensures
            final(self)@ == store_s(base@, index@, v@, old(self)@),
    {
        let addr = self.address(base, index);
        let text = {
            let mut x = "store i64 ".to_owned();
            x.append(v);
            x.append(", ptr ");
            x.append(addr.as_str());
            x
        };
        self.emit(text.as_str());
    }

    pub fn variable(&mut self, init: &str) -> (r: String)
        ensures
            (r@, final(self)@) == variable_s(init@, old(self)@),
    {
        let slot = self.make(" = alloca i64");
        let text = {
            let mut x = "store i64 ".to_owned();
            x.append(init);
            x.append(", ptr ");
            x.append(slot.as_str());
            x
        };
        self.emit(text.as_str());
        slot
    }

    pub fn read(&mut self, slot: &str) -> (r: String)
        ensures
            (r@, final(self)@) == read_s(slot@, old(self)@),
    {
        let text = {
            let mut x = " = load i64, ptr ".to_owned();
            x.append(slot);
            x
        };
        self.make(text.as_str())
    }

    pub fn emit_jump(&mut self, name: &str)
        ensures
            final(self)@ == last_line(old(self)@, jump(name@)),
    {
        let text = jump_to(name);
        self.emit_last(text.as_str());
    }

    pub fn emit_choice(&mut self, v: &str, yes: &str, no: &str)
        ensures
            final(self)@ == last_line(old(self)@, ll_choice(v@, yes@, no@)),
    {
        let text = choice_of(v, yes, no);
        self.emit_last(text.as_str());
    }

    pub fn copy_words(&mut self, src: &str, dst: &str, total: &str)
        ensures
            final(self)@ == copy_s(src@, dst@, total@, old(self)@),
    {
        let slot = self.variable("0");
        let header = self.name("copy.header");
        let body = self.name("copy.body");
        let exit = self.name("copy.exit");
        self.emit_jump(header.as_str());
        self.push_label(header.as_str());
        let k = self.read(slot.as_str());
        let more = self.compare("ult", k.as_str(), total);
        let bit = self.bit(more.as_str());
        self.emit_choice(bit.as_str(), body.as_str(), exit.as_str());
        self.push_label(body.as_str());
        let word = self.load_word(src, k.as_str());
        self.store_word(dst, k.as_str(), word.as_str());
        let next = self.bin("add", k.as_str(), "1");
        let text = {
            let mut x = "store i64 ".to_owned();
            x.append(next.as_str());
            x.append(", ptr ");
            x.append(slot.as_str());
            x
        };
        self.emit(text.as_str());
        self.emit_jump(header.as_str());
        self.push_label(exit.as_str());
    }

    pub fn emit_abort(&mut self)
        ensures
            final(self)@ == abort_s(old(self)@),
    {
        self.emit("call void @abort()");
        self.emit_last("unreachable");
    }

    pub fn emit_bounds_check(&mut self, checks: bool, base: &str, index: &str)
        ensures
            final(self)@ == ll_bounds_s(checks, base@, index@, old(self)@),
    {
        if checks {
            let len = self.load_word(base, "0");
            let ok = self.compare("ult", index, len.as_str());
            let bit = self.bit(ok.as_str());
            let pass = self.name("bounds.pass");
            let fail = self.name("bounds.fail");
            self.emit_choice(bit.as_str(), pass.as_str(), fail.as_str());
            self.push_label(fail.as_str());
            self.emit_abort();
            self.push_label(pass.as_str());
        }
    }
}

// ---- words ---------------------------------------------------------------------------------------------------

/// The word of a value: an aggregate becomes a block.
pub open spec fn as_word_s(x: PieceView, s: LlSt) -> Result<(Seq<char>, LlSt), LlvmErrorView>
    decreases x, 1nat, 0nat,
{
    match x {
        PieceView::Val(v) => Ok((v, s)),
        PieceView::Unit => Ok(("0"@, s)),
        PieceView::Tuple { tag, fields } => {
            let (ptr, s1) = alloc_s(one_more(fields.len()), s);
            match ll_fields_s(
                fields,
                fields.len(),
                ptr,
                store_s(ptr, "0"@, tag, s1),
            ) {
                Ok(s2) => Ok((ptr, s2)),
                Err(e) => Err(e),
            }
        },
        PieceView::Returned => Err(refused("returned value used"@)),
        PieceView::Partial { func, got } => Err(refused("partially applied function escaped"@)),
    }
}

/// The first `n` fields of a block, stored.
pub open spec fn ll_fields_s(fields: Seq<PieceView>, n: nat, ptr: Seq<char>, s: LlSt) -> Result<
    LlSt,
    LlvmErrorView,
>
    decreases fields, 0nat, n,
{
    if n == 0 || n > fields.len() {
        Ok(s)
    } else {
        match ll_fields_s(fields, (n - 1) as nat, ptr, s) {
            Ok(s1) => match as_word_s(fields[n - 1], s1) {
                Ok((v, s2)) => Ok(store_s(ptr, one_more((n - 1) as nat), v, s2)),
                Err(e) => Err(e),
            },
            Err(e) => Err(e),
        }
    }
}

proof fn lemma_fields_fail(fields: Seq<PieceView>, i: nat, n: nat, ptr: Seq<char>, s: LlSt)
    requires
        i <= n <= fields.len(),
        ll_fields_s(fields, i, ptr, s) is Err,
    ensures
        ll_fields_s(fields, n, ptr, s) == ll_fields_s(fields, i, ptr, s),
    decreases n - i,
{
    if i < n {
        assert(ll_fields_s(fields, i + 1, ptr, s) == ll_fields_s(fields, i, ptr, s));
        lemma_fields_fail(fields, i + 1, n, ptr, s);
    }
}

/// What a step that leaves a word did: `want`.
pub open spec fn did_word(
    r: Result<String, LlvmError>,
    b: FuncBuilder,
    want: Result<(Seq<char>, LlSt), LlvmErrorView>,
) -> bool {
    match want {
        Ok((v, s)) => r is Ok && r->Ok_0@ == v && b@ == s,
        Err(e) => r is Err && r->Err_0@ == e,
    }
}

/// What a step did: `want`.
pub open spec fn ll_did_step(
    r: Result<(), LlvmError>,
    b: FuncBuilder,
    want: Result<LlSt, LlvmErrorView>,
) -> bool {
    match want {
        Ok(s) => r is Ok && b@ == s,
        Err(e) => r is Err && r->Err_0@ == e,
    }
}

/// What a step that leaves a value did: `want`.
pub open spec fn ll_did_item(
    r: Result<Piece, LlvmError>,
    b: FuncBuilder,
    want: Result<(PieceView, LlSt), LlvmErrorView>,
) -> bool {
    match want {
        Ok((x, s)) => r is Ok && r->Ok_0@ == x && b@ == s,
        Err(e) => r is Err && r->Err_0@ == e,
    }
}

impl FuncBuilder {
    pub fn as_word(&mut self, x: &Piece) -> (r: Result<String, LlvmError>)
        ensures
            did_word(r, *final(self), as_word_s(x@, old(self)@)),
        decreases x, 1nat,
    {
        broadcast use lemma_pieces_view;

        match x {
            Piece::Val(v) => Ok(v.as_str().to_owned()),
            Piece::Unit => Ok("0".to_owned()),
            Piece::Tuple { tag, fields } => {
                let total = one_more_of(fields.len());
                let ptr = self.alloc_words(total.as_str());
                self.store_word(ptr.as_str(), "0", tag.as_str());
                if let Err(e) = self.store_fields(fields, ptr.as_str()) {
                    return Err(e);
                }
                Ok(ptr)
            },
            Piece::Returned => Err(refuse("returned value used")),
            Piece::Partial { func: _, got: _ } => Err(refuse("partially applied function escaped")),
        }
    }

    fn store_fields(&mut self, fields: &Vec<Piece>, ptr: &str) -> (r: Result<(), LlvmError>)
        ensures
            ll_did_step(
                r,
                *final(self),
                ll_fields_s(pieces_view(fields@), fields@.len(), ptr@, old(self)@),
            ),
        decreases fields@, 0nat,
    {
        broadcast use lemma_pieces_view;

        let ghost s0 = self@;
        let ghost fv = pieces_view(fields@);
        let mut i: usize = 0;
        while i < fields.len()
            invariant
                i <= fields@.len(),
                fv == pieces_view(fields@),
                fv.len() == fields@.len(),
                s0 == old(self)@,
                ll_fields_s(fv, i as nat, ptr@, s0) == Ok::<LlSt, LlvmErrorView>(self@),
            decreases fields@.len() - i,
        {
            assert(fv[i as int] == fields@[i as int]@);
            match self.as_word(&fields[i]) {
                Ok(v) => {
                    let at = one_more_of(i);
                    self.store_word(ptr, at.as_str(), v.as_str());
                },
                Err(e) => {
                    proof {
                        lemma_fields_fail(fv, (i + 1) as nat, fields@.len(), ptr@, s0);
                    }
                    return Err(e);
                },
            }
            i = i + 1;
        }
        Ok(())
    }
}

} // verus!
