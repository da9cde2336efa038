//! WebAssembly code and modules, and their encoding.
//!
//! A module is described by plain values. [`encode`] hands it to the encoder,
//! section by section, and [`validate`] has the bytes checked.
use vstd::prelude::*;
use vstd::string::*;
use vstd::utf8::*;

use wasm_encoder::{
    BlockType, CodeSection, ConstExpr, EntityType, ExportKind, ExportSection, Function,
    FunctionSection, GlobalSection, GlobalType, ImportSection, Instruction, MemArg, MemorySection,
    MemoryType, TypeSection, ValType,
};

use crate::indices;
use crate::indices::deeper;

verus! {

// ---- instructions -------------------------------------------------------------------------------

/// 64-bit arithmetic.
#[derive(Debug, Clone, Copy, PartialEq, Eq, Structural)]
pub enum Arith {
    Add,
    Sub,
    Mul,
    DivS,
    DivU,
    RemS,
    And,
    Or,
    Xor,
    Shl,
    ShrS,
    ShrU,
}

/// 64-bit tests, whose result is a 32-bit word.
#[derive(Debug, Clone, Copy, PartialEq, Eq, Structural)]
pub enum Test {
    Eq,
    Ne,
    LtS,
    LtU,
    GtS,
    GtU,
    LeS,
    GeS,
    GeU,
    Eqz,
}

/// Instructions without an operand of their own.
#[derive(Debug, Clone, Copy, PartialEq, Eq, Structural)]
pub enum Plain {
    /// The low 32 bits of a 64-bit word.
    Wrap,
    /// A 32-bit word as an unsigned 64-bit one.
    Extend,
    Eqz32,
    Eq32,
    Or32,
    Else,
    End,
    Return,
    Unreachable,
}

/// Instructions with an index or a constant.
#[derive(Debug, Clone, Copy, PartialEq, Eq, Structural)]
pub enum Indexed {
    Get(u32),
    Put(u32),
    Tee(u32),
    GlobalGet(u32),
    GlobalSet(u32),
    Call(u32),
    Br(u32),
    BrIf(u32),
    MemorySize(u32),
    MemoryGrow(u32),
    Const(i64),
    Const32(i32),
}

/// The alignment of an access to a word, as a power of two.
pub const WORD_ALIGN: u32 = 3;

/// The one memory.
pub const MEMORY: u32 = 0;

/// The start of a block, and accesses to words of memory: at an offset, with an
/// alignment, of a memory.
#[derive(Debug, Clone, Copy, PartialEq, Eq, Structural)]
pub enum Region {
    Block,
    Loop,
    If,
    /// A conditional that leaves a 64-bit word.
    IfWord,
    Load(u64, u32, u32),
    Store(u64, u32, u32),
}

/// An instruction.
#[derive(Debug, Clone, Copy, PartialEq, Eq, Structural)]
pub enum Inst {
    Arith(Arith),
    Test(Test),
    Plain(Plain),
    Indexed(Indexed),
    Region(Region),
}

// ---- module descriptions ------------------------------------------------------------------------------

/// A function type: 64-bit words in, and one or none out.
#[derive(Debug, Clone, Copy, PartialEq, Eq, Structural)]
pub struct Signature {
    pub params: usize,
    pub result: bool,
}

/// What an export is.
#[derive(Debug, Clone, Copy, PartialEq, Eq, Structural)]
pub enum Exported {
    Func(u32),
    Memory(u32),
}

/// A function body: the runs of 64-bit locals that it has besides its parameters,
/// and its code without the final `end`.
#[derive(Debug, PartialEq, Eq)]
pub struct Body {
    pub locals: Vec<u32>,
    pub code: Vec<Inst>,
}

/// The mathematical counterpart of [`Body`].
#[verifier::ext_equal]
pub struct BodyView {
    pub locals: Seq<u32>,
    pub code: Seq<Inst>,
}

impl View for Body {
    type V = BodyView;

    open spec fn view(&self) -> BodyView {
        BodyView { locals: self.locals@, code: self.code@ }
    }
}

/// A module: import `i` has type `i`, and function `j` the type after those.
#[derive(Debug, PartialEq, Eq)]
pub struct ModuleDesc {
    pub types: Vec<Signature>,
    /// Module and field name of each import.
    pub imports: Vec<(String, String)>,
    pub exports: Vec<(String, Exported)>,
    pub bodies: Vec<Body>,
    /// Whether a section for imports stands there even if there are none.
    pub import_section: bool,
}

/// The mathematical counterpart of [`ModuleDesc`].
#[verifier::ext_equal]
pub struct ModuleView {
    pub types: Seq<Signature>,
    pub imports: Seq<(Seq<char>, Seq<char>)>,
    pub exports: Seq<(Seq<char>, Exported)>,
    pub bodies: Seq<BodyView>,
    pub import_section: bool,
}

pub open spec fn import_names(v: Seq<(String, String)>) -> Seq<(Seq<char>, Seq<char>)> {
    Seq::new(v.len(), |i: int| (v[i].0@, v[i].1@))
}

pub open spec fn export_names(v: Seq<(String, Exported)>) -> Seq<(Seq<char>, Exported)> {
    Seq::new(v.len(), |i: int| (v[i].0@, v[i].1))
}

pub open spec fn bodies_view(v: Seq<Body>) -> Seq<BodyView> {
    Seq::new(v.len(), |i: int| v[i]@)
}

impl View for ModuleDesc {
    type V = ModuleView;

    open spec fn view(&self) -> ModuleView {
        ModuleView {
            types: self.types@,
            imports: import_names(self.imports@),
            exports: export_names(self.exports@),
            bodies: bodies_view(self.bodies@),
            import_section: self.import_section,
        }
    }
}

/// A section of a module.
pub enum Section {
    Types(Seq<Signature>),
    /// Module and field name, and type, of each import.
    Imports(Seq<(Seq<char>, Seq<char>, u32)>),
    /// The type of each function.
    Functions(Seq<u32>),
    /// The initial pages of each memory.
    Memories(Seq<u64>),
    /// The initial value of each mutable 64-bit global.
    Globals(Seq<i64>),
    Exports(Seq<(Seq<char>, Exported)>),
    Code(Seq<BodyView>),
}

/// Where allocation starts. The low bytes are left unused, so that a zero
/// pointer never names a live aggregate.
pub const HEAP_START: i64 = 1024;

/// The initial size of memory, in pages.
pub const MEM_PAGES: u64 = 1;

/// The imports with their types.
pub open spec fn typed_imports(v: Seq<(Seq<char>, Seq<char>)>) -> Seq<(Seq<char>, Seq<char>, u32)> {
    Seq::new(v.len(), |i: int| (v[i].0, v[i].1, (i as usize) as u32))
}

/// The types of the functions: those after the imports'.
pub open spec fn function_types(m: ModuleView) -> Seq<u32> {
    Seq::new(
        m.bodies.len(),
        |i: int| indices::add32((m.imports.len() as usize) as u32, (i as usize) as u32),
    )
}

/// The sections of a module, in the order that the format prescribes.
pub open spec fn sections(m: ModuleView) -> Seq<Section> {
    (if m.import_section || m.imports.len() > 0 {
        seq![Section::Types(m.types), Section::Imports(typed_imports(m.imports))]
    } else {
        seq![Section::Types(m.types)]
    }) + seq![
        Section::Functions(function_types(m)),
        Section::Memories(seq![MEM_PAGES]),
        Section::Globals(seq![HEAP_START]),
        Section::Exports(m.exports),
        Section::Code(ended(m.bodies)),
    ]
}

/// A body with its final `end`.
pub open spec fn ended_body(b: BodyView) -> BodyView {
    BodyView { locals: b.locals, code: b.code.push(Inst::Plain(Plain::End)) }
}

/// Bodies with their final `end`.
pub open spec fn ended(v: Seq<BodyView>) -> Seq<BodyView> {
    Seq::new(v.len(), |i: int| ended_body(v[i]))
}

// ---- sizes ---------------------------------------------------------------------------------------------

/// The largest size of a section: the format has 32 bits for it.
pub const SIZE_LIMIT: u64 = 4_294_967_295;

/// How many bytes an unsigned number takes: seven bits a byte.
pub open spec fn leb(n: nat) -> nat
    decreases n,
{
    if n < 128 {
        1
    } else {
        1 + leb(n / 128)
    }
}

/// How many bytes hold the bits below the sign: seven a byte, and six in the last.
pub open spec fn signed_leb(n: nat) -> nat
    decreases n,
{
    if n < 64 {
        1
    } else {
        1 + signed_leb(n / 128)
    }
}

/// The bits of a signed number below its sign.
pub open spec fn magnitude(n: int) -> nat {
    if n < 0 {
        (-n - 1) as nat
    } else {
        n as nat
    }
}

/// The bytes of an access to memory behind its opcode.
pub open spec fn access_size(offset: u64, align: u32, memory: u32) -> nat {
    if memory == 0 {
        leb(align as nat) + leb(offset as nat)
    } else {
        leb((align | 64) as nat) + leb(memory as nat) + leb(offset as nat)
    }
}

/// The bytes of an instruction: its opcode, and what it takes.
pub open spec fn inst_size(i: Inst) -> nat {
    match i {
        Inst::Arith(_) => 1,
        Inst::Test(_) => 1,
        Inst::Plain(_) => 1,
        Inst::Indexed(x) => match x {
            Indexed::Get(n) => 1 + leb(n as nat),
            Indexed::Put(n) => 1 + leb(n as nat),
            Indexed::Tee(n) => 1 + leb(n as nat),
            Indexed::GlobalGet(n) => 1 + leb(n as nat),
            Indexed::GlobalSet(n) => 1 + leb(n as nat),
            Indexed::Call(n) => 1 + leb(n as nat),
            Indexed::Br(n) => 1 + leb(n as nat),
            Indexed::BrIf(n) => 1 + leb(n as nat),
            Indexed::MemorySize(n) => 1 + leb(n as nat),
            Indexed::MemoryGrow(n) => 1 + leb(n as nat),
            Indexed::Const(n) => 1 + signed_leb(magnitude(n as int)),
            Indexed::Const32(n) => 1 + signed_leb(magnitude(n as int)),
        },
        Inst::Region(x) => match x {
            Region::Load(offset, align, memory) => 1 + access_size(offset, align, memory),
            Region::Store(offset, align, memory) => 1 + access_size(offset, align, memory),
            _ => 2,
        },
    }
}

/// The bytes of the first `n` instructions.
pub open spec fn code_size(v: Seq<Inst>, n: nat) -> nat
    decreases n,
{
    if n == 0 {
        0
    } else {
        code_size(v, (n - 1) as nat) + inst_size(v[n - 1])
    }
}

/// The bytes of the first `n` runs of locals: a count and a type each.
pub open spec fn locals_size(v: Seq<u32>, n: nat) -> nat
    decreases n,
{
    if n == 0 {
        0
    } else {
        locals_size(v, (n - 1) as nat) + leb(v[n - 1] as nat) + 1
    }
}

/// The bytes of a body.
pub open spec fn body_size(b: BodyView) -> nat {
    leb(b.locals.len()) + locals_size(b.locals, b.locals.len()) + code_size(b.code, b.code.len())
}

/// The bytes of a name, with its length.
pub open spec fn name_size(s: Seq<char>) -> nat {
    leb(encode_utf8(s).len()) + encode_utf8(s).len()
}

/// The bytes of a function type.
pub open spec fn signature_size(t: Signature) -> nat {
    2 + leb(t.params as nat) + t.params as nat + if t.result {
        1nat
    } else {
        0nat
    }
}

/// The bytes of the first `n` types.
pub open spec fn types_size(v: Seq<Signature>, n: nat) -> nat
    decreases n,
{
    if n == 0 {
        0
    } else {
        types_size(v, (n - 1) as nat) + signature_size(v[n - 1])
    }
}

/// The bytes of an import: its names, what it is, and its type.
pub open spec fn import_size(x: (Seq<char>, Seq<char>, u32)) -> nat {
    name_size(x.0) + name_size(x.1) + 1 + leb(x.2 as nat)
}

/// The bytes of the first `n` imports.
pub open spec fn imports_size(v: Seq<(Seq<char>, Seq<char>, u32)>, n: nat) -> nat
    decreases n,
{
    if n == 0 {
        0
    } else {
        imports_size(v, (n - 1) as nat) + import_size(v[n - 1])
    }
}

/// The bytes of the types of the first `n` functions.
pub open spec fn functions_size(v: Seq<u32>, n: nat) -> nat
    decreases n,
{
    if n == 0 {
        0
    } else {
        functions_size(v, (n - 1) as nat) + leb(v[n - 1] as nat)
    }
}

/// The bytes of an export: its name, what it is, and its number.
pub open spec fn export_size(x: (Seq<char>, Exported)) -> nat {
    name_size(x.0) + 1 + match x.1 {
        Exported::Func(i) => leb(i as nat),
        Exported::Memory(i) => leb(i as nat),
    }
}

/// The bytes of the first `n` exports.
pub open spec fn exports_size(v: Seq<(Seq<char>, Exported)>, n: nat) -> nat
    decreases n,
{
    if n == 0 {
        0
    } else {
        exports_size(v, (n - 1) as nat) + export_size(v[n - 1])
    }
}

/// The bytes of the first `n` bodies, each with its length.
pub open spec fn bodies_size(v: Seq<BodyView>, n: nat) -> nat
    decreases n,
{
    if n == 0 {
        0
    } else {
        bodies_size(v, (n - 1) as nat) + leb(body_size(v[n - 1])) + body_size(v[n - 1])
    }
}

/// Whether a section of so many members of so many bytes has a size in 32 bits.
pub open spec fn fits(members: nat, size: nat) -> bool {
    leb(members) + size <= SIZE_LIMIT
}

/// Whether every section of a module has a size in 32 bits.
pub open spec fn encodable(m: ModuleView) -> bool {
    &&& fits(m.types.len(), types_size(m.types, m.types.len()))
    &&& fits(m.imports.len(), imports_size(typed_imports(m.imports), m.imports.len()))
    &&& fits(m.bodies.len(), functions_size(function_types(m), m.bodies.len()))
    &&& fits(m.exports.len(), exports_size(m.exports, m.exports.len()))
    &&& fits(m.bodies.len(), bodies_size(ended(m.bodies), m.bodies.len()))
}

fn leb_len(n: u64) -> (r: u64)
    ensures
        r == leb(n as nat),
        1 <= r <= 10,
{
    proof {
        lemma_leb_limit(n as nat);
    }
    let mut k: u64 = 1;
    let mut x: u64 = n;
    while x >= 128
        invariant
            1 <= k,
            leb(n as nat) == k - 1 + leb(x as nat),
            leb(n as nat) <= 10,
        decreases x,
    {
        assert(leb(x as nat) == 1 + leb(x as nat / 128));
        assert(leb(x as nat / 128) >= 1);
        x = x / 128;
        k = k + 1;
    }
    k
}

fn signed_leb_len(n: i64) -> (r: u64)
    ensures
        r == signed_leb(magnitude(n as int)),
        1 <= r <= 10,
{
    let m: u64 = if n < 0 {
        (-(n + 1)) as u64
    } else {
        n as u64
    };
    proof {
        lemma_signed_limit(m as nat);
    }
    let mut k: u64 = 1;
    let mut x: u64 = m;
    while x >= 64
        invariant
            1 <= k,
            signed_leb(m as nat) == k - 1 + signed_leb(x as nat),
            signed_leb(m as nat) <= 10,
        decreases x,
    {
        assert(signed_leb(x as nat) == 1 + signed_leb(x as nat / 128));
        assert(signed_leb(x as nat / 128) >= 1);
        x = x / 128;
        k = k + 1;
    }
    k
}

/// What `k` bytes of seven bits can tell apart.
spec fn sevens(k: nat) -> nat
    decreases k,
{
    if k == 0 {
        1
    } else {
        128 * sevens((k - 1) as nat)
    }
}

proof fn lemma_sevens()
    ensures
        sevens(10) > u64::MAX,
{
    reveal_with_fuel(sevens, 11);
}

proof fn lemma_leb_below(n: nat, k: nat)
    requires
        n < sevens(k),
        k >= 1,
    ensures
        1 <= leb(n) <= k,
    decreases k,
{
    if n >= 128 {
        if k > 1 {
            lemma_leb_below(n / 128, (k - 1) as nat);
        } else {
            assert(sevens(1) == 128) by {
                reveal_with_fuel(sevens, 2);
            }
        }
    }
}

proof fn lemma_leb_limit(n: nat)
    requires
        n <= u64::MAX,
    ensures
        1 <= leb(n) <= 10,
{
    lemma_sevens();
    lemma_leb_below(n, 10);
}

proof fn lemma_signed_limit(n: nat)
    requires
        n <= u64::MAX / 2,
    ensures
        1 <= signed_leb(n) <= 10,
{
    lemma_sevens();
    lemma_signed_below(n, 10);
}

proof fn lemma_signed_below(n: nat, k: nat)
    requires
        2 * n < sevens(k),
        k >= 1,
    ensures
        1 <= signed_leb(n) <= k,
    decreases k,
{
    if n >= 64 {
        if k > 1 {
            lemma_signed_below(n / 128, (k - 1) as nat);
        } else {
            assert(sevens(1) == 128) by {
                reveal_with_fuel(sevens, 2);
            }
        }
    }
}

proof fn lemma_leb_some(n: nat)
    ensures
        leb(n) >= 1,
{
}

fn access_len(offset: u64, align: u32, memory: u32) -> (r: u64)
    ensures
        r == access_size(offset, align, memory),
        r <= 30,
{
    if memory == 0 {
        leb_len(align as u64) + leb_len(offset)
    } else {
        leb_len((align | 64) as u64) + leb_len(memory as u64) + leb_len(offset)
    }
}

fn inst_len(i: Inst) -> (r: u64)
    ensures
        r == inst_size(i),
        1 <= r <= 31,
{
    match i {
        Inst::Arith(_) => 1,
        Inst::Test(_) => 1,
        Inst::Plain(_) => 1,
        Inst::Indexed(x) => match x {
            Indexed::Get(n) => 1 + leb_len(n as u64),
            Indexed::Put(n) => 1 + leb_len(n as u64),
            Indexed::Tee(n) => 1 + leb_len(n as u64),
            Indexed::GlobalGet(n) => 1 + leb_len(n as u64),
            Indexed::GlobalSet(n) => 1 + leb_len(n as u64),
            Indexed::Call(n) => 1 + leb_len(n as u64),
            Indexed::Br(n) => 1 + leb_len(n as u64),
            Indexed::BrIf(n) => 1 + leb_len(n as u64),
            Indexed::MemorySize(n) => 1 + leb_len(n as u64),
            Indexed::MemoryGrow(n) => 1 + leb_len(n as u64),
            Indexed::Const(n) => 1 + signed_leb_len(n),
            Indexed::Const32(n) => 1 + signed_leb_len(n as i64),
        },
        Inst::Region(x) => match x {
            Region::Load(offset, align, memory) => 1 + access_len(offset, align, memory),
            Region::Store(offset, align, memory) => 1 + access_len(offset, align, memory),
            _ => 2,
        },
    }
}

/// A size if it is within 32 bits.
pub open spec fn within(size: nat) -> Option<u64> {
    if size <= SIZE_LIMIT {
        Some(size as u64)
    } else {
        None
    }
}

fn code_len(v: &Vec<Inst>) -> (r: Option<u64>)
    ensures
        r == within(code_size(v@, v@.len())),
{
    let mut t: u64 = 0;
    let mut i: usize = 0;
    while i < v.len()
        invariant
            i <= v@.len(),
            t <= SIZE_LIMIT,
            t == code_size(v@, i as nat),
        decreases v@.len() - i,
    {
        t = t + inst_len(v[i]);
        i = i + 1;
        if t > SIZE_LIMIT {
            proof {
                lemma_code_grows(v@, i as nat, v@.len());
            }
            return None;
        }
    }
    Some(t)
}

fn locals_len(v: &Vec<u32>) -> (r: Option<u64>)
    ensures
        r == within(locals_size(v@, v@.len())),
{
    let mut t: u64 = 0;
    let mut i: usize = 0;
    while i < v.len()
        invariant
            i <= v@.len(),
            t <= SIZE_LIMIT,
            t == locals_size(v@, i as nat),
        decreases v@.len() - i,
    {
        t = t + leb_len(v[i] as u64) + 1;
        i = i + 1;
        if t > SIZE_LIMIT {
            proof {
                lemma_locals_grow(v@, i as nat, v@.len());
            }
            return None;
        }
    }
    Some(t)
}

fn body_len(b: &Body) -> (r: Option<u64>)
    ensures
        r == within(body_size(ended_body(b@))),
{
    proof {
        lemma_code_push(b.code@, Inst::Plain(Plain::End), b.code@.len());
    }
    match (locals_len(&b.locals), code_len(&b.code)) {
        (Some(l), Some(c)) => {
            let t = leb_len(b.locals.len() as u64) + l + c + 1;
            if t <= SIZE_LIMIT {
                Some(t)
            } else {
                None
            }
        },
        _ => None,
    }
}

fn name_len(s: &str) -> (r: Option<u64>)
    ensures
        r == within(name_size(s@)),
{
    let n = s.as_bytes().len() as u64;
    if n > SIZE_LIMIT {
        return None;
    }
    let t = leb_len(n) + n;
    if t <= SIZE_LIMIT {
        Some(t)
    } else {
        None
    }
}

/// The sum of two sizes, if it is within 32 bits.
fn together(a: Option<u64>, b: Option<u64>) -> (r: Option<u64>)
    ensures
        forall|x: nat, y: nat|
            #![trigger within(x), within(y)]
            a == within(x) && b == within(y) ==> r == within(x + y),
{
    match (a, b) {
        (Some(x), Some(y)) => if x <= SIZE_LIMIT && y <= SIZE_LIMIT && x + y <= SIZE_LIMIT {
            Some(x + y)
        } else {
            None
        },
        _ => None,
    }
}

fn fits_in(members: usize, size: Option<u64>) -> (r: bool)
    ensures
        forall|n: nat| size == #[trigger] within(n) ==> r == fits(members as nat, n),
{
    proof {
        lemma_leb_limit(members as nat);
    }
    match size {
        Some(n) => n <= SIZE_LIMIT && leb_len(members as u64) + n <= SIZE_LIMIT,
        None => false,
    }
}

fn types_len(v: &Vec<Signature>) -> (r: Option<u64>)
    ensures
        r == within(types_size(v@, v@.len())),
{
    let mut t: u64 = 0;
    let mut i: usize = 0;
    while i < v.len()
        invariant
            i <= v@.len(),
            t <= SIZE_LIMIT,
            t == types_size(v@, i as nat),
        decreases v@.len() - i,
    {
        let n = v[i].params as u64;
        let result: u64 = if v[i].result {
            1
        } else {
            0
        };
        i = i + 1;
        if n > SIZE_LIMIT || t + 2 + leb_len(n) + n + result > SIZE_LIMIT {
            proof {
                lemma_types_grow(v@, i as nat, v@.len());
            }
            return None;
        }
        t = t + 2 + leb_len(n) + n + result;
    }
    Some(t)
}

fn imports_len(v: &Vec<(String, String)>) -> (r: Option<u64>)
    ensures
        r == within(imports_size(typed_imports(import_names(v@)), v@.len())),
{
    let ghost w = typed_imports(import_names(v@));
    let mut t: u64 = 0;
    let mut i: usize = 0;
    while i < v.len()
        invariant
            i <= v@.len(),
            w == typed_imports(import_names(v@)),
            t <= SIZE_LIMIT,
            t == imports_size(w, i as nat),
        decreases v@.len() - i,
    {
        let a = name_len(v[i].0.as_str());
        let b = name_len(v[i].1.as_str());
        let names = together(a, b);
        assert(w[i as int] == (v@[i as int].0@, v@[i as int].1@, i as u32));
        assert(names == within(name_size(v@[i as int].0@) + name_size(v@[i as int].1@)));
        let last = 1 + leb_len((i as u32) as u64);
        i = i + 1;
        match names {
            Some(n) if t + n + last <= SIZE_LIMIT => {
                t = t + n + last;
            },
            _ => {
                proof {
                    lemma_imports_grow(w, i as nat, v@.len());
                }
                return None;
            },
        }
    }
    Some(t)
}

fn functions_len(m: &ModuleDesc) -> (r: Option<u64>)
    ensures
        r == within(functions_size(function_types(m@), m@.bodies.len())),
{
    let ghost w = function_types(m@);
    let base = m.imports.len() as u32;
    let n = m.bodies.len();
    assert(m@.imports.len() == m.imports@.len());
    assert(m@.bodies.len() == n);
    let mut t: u64 = 0;
    let mut i: usize = 0;
    while i < n
        invariant
            i <= n,
            n == m@.bodies.len(),
            w == function_types(m@),
            base == (m@.imports.len() as usize) as u32,
            t <= SIZE_LIMIT,
            t == functions_size(w, i as nat),
        decreases n - i,
    {
        assert(w[i as int] == indices::add32(base, i as u32));
        t = t + leb_len(deeper(base, i as u32) as u64);
        i = i + 1;
        if t > SIZE_LIMIT {
            proof {
                lemma_functions_grow(w, i as nat, n as nat);
            }
            return None;
        }
    }
    Some(t)
}

fn exports_len(v: &Vec<(String, Exported)>) -> (r: Option<u64>)
    ensures
        r == within(exports_size(export_names(v@), v@.len())),
{
    let ghost w = export_names(v@);
    let mut t: u64 = 0;
    let mut i: usize = 0;
    while i < v.len()
        invariant
            i <= v@.len(),
            w == export_names(v@),
            t <= SIZE_LIMIT,
            t == exports_size(w, i as nat),
        decreases v@.len() - i,
    {
        let name = name_len(v[i].0.as_str());
        assert(w[i as int] == (v@[i as int].0@, v@[i as int].1));
        let last = 1 + match v[i].1 {
            Exported::Func(k) => leb_len(k as u64),
            Exported::Memory(k) => leb_len(k as u64),
        };
        i = i + 1;
        match name {
            Some(n) if t + n + last <= SIZE_LIMIT => {
                t = t + n + last;
            },
            _ => {
                proof {
                    lemma_exports_grow(w, i as nat, v@.len());
                }
                return None;
            },
        }
    }
    Some(t)
}

fn bodies_len(v: &Vec<Body>) -> (r: Option<u64>)
    ensures
        r == within(bodies_size(ended(bodies_view(v@)), v@.len())),
{
    let ghost w = ended(bodies_view(v@));
    let mut t: u64 = 0;
    let mut i: usize = 0;
    while i < v.len()
        invariant
            i <= v@.len(),
            w == ended(bodies_view(v@)),
            t <= SIZE_LIMIT,
            t == bodies_size(w, i as nat),
        decreases v@.len() - i,
    {
        let size = body_len(&v[i]);
        assert(w[i as int] == ended_body(v@[i as int]@));
        i = i + 1;
        match size {
            Some(n) if t + leb_len(n) + n <= SIZE_LIMIT => {
                t = t + leb_len(n) + n;
            },
            _ => {
                proof {
                    lemma_bodies_grow(w, i as nat, v@.len());
                }
                return None;
            },
        }
    }
    Some(t)
}

/// Whether every section of a module has a size in 32 bits.
pub fn is_encodable(m: &ModuleDesc) -> (r: bool)
    ensures
        r == encodable(m@),
{
    let types = types_len(&m.types);
    let imports = imports_len(&m.imports);
    let functions = functions_len(m);
    let exports = exports_len(&m.exports);
    let bodies = bodies_len(&m.bodies);
    let a = fits_in(m.types.len(), types);
    let b = fits_in(m.imports.len(), imports);
    let c = fits_in(m.bodies.len(), functions);
    let d = fits_in(m.exports.len(), exports);
    let e = fits_in(m.bodies.len(), bodies);
    a && b && c && d && e
}

proof fn lemma_code_grows(v: Seq<Inst>, i: nat, n: nat)
    requires
        i <= n,
    ensures
        code_size(v, i) <= code_size(v, n),
    decreases n - i,
{
    if i < n {
        lemma_code_grows(v, i, (n - 1) as nat);
    }
}

proof fn lemma_code_push(v: Seq<Inst>, x: Inst, n: nat)
    requires
        n <= v.len(),
    ensures
        code_size(v.push(x), n) == code_size(v, n),
    decreases n,
{
    if n > 0 {
        lemma_code_push(v, x, (n - 1) as nat);
    }
}

proof fn lemma_locals_grow(v: Seq<u32>, i: nat, n: nat)
    requires
        i <= n,
    ensures
        locals_size(v, i) <= locals_size(v, n),
    decreases n - i,
{
    if i < n {
        lemma_locals_grow(v, i, (n - 1) as nat);
    }
}

proof fn lemma_types_grow(v: Seq<Signature>, i: nat, n: nat)
    requires
        i <= n,
    ensures
        types_size(v, i) <= types_size(v, n),
        types_size(v, n) >= n,
    decreases n,
{
    if n > 0 {
        lemma_types_grow(v, if i < n {
            i
        } else {
            (n - 1) as nat
        }, (n - 1) as nat);
    }
}

proof fn lemma_imports_grow(v: Seq<(Seq<char>, Seq<char>, u32)>, i: nat, n: nat)
    requires
        i <= n,
    ensures
        imports_size(v, i) <= imports_size(v, n),
        imports_size(v, n) >= n,
    decreases n,
{
    if n > 0 {
        lemma_imports_grow(v, if i < n {
            i
        } else {
            (n - 1) as nat
        }, (n - 1) as nat);
    }
}

proof fn lemma_functions_grow(v: Seq<u32>, i: nat, n: nat)
    requires
        i <= n,
    ensures
        functions_size(v, i) <= functions_size(v, n),
        functions_size(v, n) >= n,
    decreases n,
{
    if n > 0 {
        lemma_functions_grow(v, if i < n {
            i
        } else {
            (n - 1) as nat
        }, (n - 1) as nat);
        lemma_leb_some(v[n - 1] as nat);
    }
}

proof fn lemma_exports_grow(v: Seq<(Seq<char>, Exported)>, i: nat, n: nat)
    requires
        i <= n,
    ensures
        exports_size(v, i) <= exports_size(v, n),
        exports_size(v, n) >= n,
    decreases n,
{
    if n > 0 {
        lemma_exports_grow(v, if i < n {
            i
        } else {
            (n - 1) as nat
        }, (n - 1) as nat);
    }
}

proof fn lemma_bodies_grow(v: Seq<BodyView>, i: nat, n: nat)
    requires
        i <= n,
    ensures
        bodies_size(v, i) <= bodies_size(v, n),
        bodies_size(v, n) >= n,
    decreases n,
{
    if n > 0 {
        lemma_bodies_grow(v, if i < n {
            i
        } else {
            (n - 1) as nat
        }, (n - 1) as nat);
        lemma_leb_some(body_size(v[n - 1]));
    }
}

// ---- the encoder ---------------------------------------------------------------------------------------

/// `wasm_encoder`'s section of function types.
#[verifier::external_type_specification]
#[verifier::external_body]
pub struct ExTypeSection(TypeSection);

/// `wasm_encoder`'s section of imports.
#[verifier::external_type_specification]
#[verifier::external_body]
pub struct ExImportSection(ImportSection);

/// `wasm_encoder`'s section of functions.
#[verifier::external_type_specification]
#[verifier::external_body]
pub struct ExFunctionSection(FunctionSection);

/// `wasm_encoder`'s section of memories.
#[verifier::external_type_specification]
#[verifier::external_body]
pub struct ExMemorySection(MemorySection);

/// `wasm_encoder`'s section of globals.
#[verifier::external_type_specification]
#[verifier::external_body]
pub struct ExGlobalSection(GlobalSection);

/// `wasm_encoder`'s section of exports.
#[verifier::external_type_specification]
#[verifier::external_body]
pub struct ExExportSection(ExportSection);

/// `wasm_encoder`'s section of function bodies.
#[verifier::external_type_specification]
#[verifier::external_body]
pub struct ExCodeSection(CodeSection);

/// `wasm_encoder`'s function body under construction.
#[verifier::external_type_specification]
#[verifier::external_body]
pub struct ExFunction(Function);

/// `wasm_encoder`'s instruction.
#[verifier::external_type_specification]
#[verifier::external_body]
pub struct ExInstruction<'a>(Instruction<'a>);

/// What a section of function types holds.
pub uninterp spec fn held_types(s: TypeSection) -> Seq<Signature>;

/// What a section of imports holds.
pub uninterp spec fn held_imports(s: ImportSection) -> Seq<(Seq<char>, Seq<char>, u32)>;

/// What a section of functions holds.
pub uninterp spec fn held_functions(s: FunctionSection) -> Seq<u32>;

/// What a section of memories holds.
pub uninterp spec fn held_memories(s: MemorySection) -> Seq<u64>;

/// What a section of globals holds.
pub uninterp spec fn held_globals(s: GlobalSection) -> Seq<i64>;

/// What a section of exports holds.
pub uninterp spec fn held_exports(s: ExportSection) -> Seq<(Seq<char>, Exported)>;

/// What a section of bodies holds.
pub uninterp spec fn held_bodies(s: CodeSection) -> Seq<BodyView>;

/// What a function body under construction holds.
pub uninterp spec fn held_code(f: Function) -> BodyView;

/// The instruction that the encoder's instruction is.
pub uninterp spec fn inst_of(i: Instruction<'static>) -> Inst;

/// The bytes of a module with these sections.
pub uninterp spec fn encoded(s: Seq<Section>) -> Seq<u8>;

/// What the validator finds wrong with these bytes, if anything.
pub uninterp spec fn validation_error(bytes: Seq<u8>) -> Option<Seq<char>>;

/// `TypeSection::new`: a section without types.
#[verifier::external_body]
fn new_types() -> (r: TypeSection)
    ensures
        held_types(r) == Seq::<Signature>::empty(),
{
    TypeSection::new()
}

/// `TypeSection::ty` and `CoreTypeEncoder::function`: one more function type,
/// from 64-bit words to one word or none.
#[verifier::external_body]
fn add_type(s: &mut TypeSection, t: Signature)
    requires
        held_types(*old(s)).len() < u32::MAX,
        t.params <= u32::MAX,
    ensures
        held_types(*final(s)) == held_types(*old(s)).push(t),
{
    s.ty().function(vec![ValType::I64; t.params], vec![ValType::I64; t.result as usize]);
}

/// `ImportSection::new`: a section without imports.
#[verifier::external_body]
fn new_imports() -> (r: ImportSection)
    ensures
        held_imports(r) == Seq::<(Seq<char>, Seq<char>, u32)>::empty(),
{
    ImportSection::new()
}

/// `ImportSection::import`: one more imported function of the given type.
#[verifier::external_body]
fn add_import(s: &mut ImportSection, module: &str, name: &str, ty: u32)
    requires
        held_imports(*old(s)).len() < u32::MAX,
        encode_utf8(module@).len() <= u32::MAX,
        encode_utf8(name@).len() <= u32::MAX,
    ensures
        held_imports(*final(s)) == held_imports(*old(s)).push((module@, name@, ty)),
{
    s.import(module, name, EntityType::Function(ty));
}

/// `FunctionSection::new`: a section without functions.
#[verifier::external_body]
fn new_functions() -> (r: FunctionSection)
    ensures
        held_functions(r) == Seq::<u32>::empty(),
{
    FunctionSection::new()
}

/// `FunctionSection::function`: one more function of the given type.
#[verifier::external_body]
fn add_function(s: &mut FunctionSection, ty: u32)
    requires
        held_functions(*old(s)).len() < u32::MAX,
    ensures
        held_functions(*final(s)) == held_functions(*old(s)).push(ty),
{
    s.function(ty);
}

/// `MemorySection::new`: a section without memories.
#[verifier::external_body]
fn new_memories() -> (r: MemorySection)
    ensures
        held_memories(r) == Seq::<u64>::empty(),
{
    MemorySection::new()
}

/// `MemorySection::memory`: one more plain memory with that many initial pages.
#[verifier::external_body]
fn add_memory(s: &mut MemorySection, pages: u64)
    requires
        held_memories(*old(s)).len() < u32::MAX,
    ensures
        held_memories(*final(s)) == held_memories(*old(s)).push(pages),
{
    s.memory(MemoryType {
        minimum: pages,
        maximum: None,
        memory64: false,
        shared: false,
        page_size_log2: None,
    });
}

/// `GlobalSection::new`: a section without globals.
#[verifier::external_body]
fn new_globals() -> (r: GlobalSection)
    ensures
        held_globals(r) == Seq::<i64>::empty(),
{
    GlobalSection::new()
}

/// `GlobalSection::global`: one more mutable 64-bit global with that value.
#[verifier::external_body]
fn add_global(s: &mut GlobalSection, value: i64)
    requires
        held_globals(*old(s)).len() < u32::MAX,
    ensures
        held_globals(*final(s)) == held_globals(*old(s)).push(value),
{
    s.global(
        GlobalType { val_type: ValType::I64, mutable: true, shared: false },
        &ConstExpr::i64_const(value),
    );
}

/// `ExportSection::new`: a section without exports.
#[verifier::external_body]
fn new_exports() -> (r: ExportSection)
    ensures
        held_exports(r) == Seq::<(Seq<char>, Exported)>::empty(),
{
    ExportSection::new()
}

/// `ExportSection::export`: one more export.
#[verifier::external_body]
fn add_export(s: &mut ExportSection, name: &str, what: Exported)
    requires
        held_exports(*old(s)).len() < u32::MAX,
        encode_utf8(name@).len() <= u32::MAX,
    ensures
        held_exports(*final(s)) == held_exports(*old(s)).push((name@, what)),
{
    match what {
        Exported::Func(i) => s.export(name, ExportKind::Func, i),
        Exported::Memory(i) => s.export(name, ExportKind::Memory, i),
    };
}

/// `CodeSection::new`: a section without bodies.
#[verifier::external_body]
fn new_bodies() -> (r: CodeSection)
    ensures
        held_bodies(r) == Seq::<BodyView>::empty(),
{
    CodeSection::new()
}

/// `CodeSection::function`: one more body, whose length takes 32 bits at most.
#[verifier::external_body]
fn add_body(s: &mut CodeSection, f: &Function)
    requires
        held_bodies(*old(s)).len() < u32::MAX,
        body_size(held_code(*f)) <= u32::MAX,
    ensures
        held_bodies(*final(s)) == held_bodies(*old(s)).push(held_code(*f)),
{
    s.function(f);
}

/// `Function::new`: a body with these runs of 64-bit locals and no code.
#[verifier::external_body]
fn new_body(locals: &Vec<u32>) -> (r: Function)
    requires
        locals@.len() <= u32::MAX,
    ensures
        held_code(r) == (BodyView { locals: locals@, code: Seq::empty() }),
{
    Function::new(locals.iter().map(|n| (*n, ValType::I64)).collect::<Vec<_>>())
}

/// `Function::instruction`: one more instruction at the end of a body.
#[verifier::external_body]
fn add_instruction(f: &mut Function, i: Instruction<'static>)
    ensures
        held_code(*final(f)) == (BodyView {
            locals: held_code(*old(f)).locals,
            code: held_code(*old(f)).code.push(inst_of(i)),
        }),
{
    f.instruction(&i);
}

/// The encoder's `Instruction` for 64-bit arithmetic.
#[verifier::external_body]
fn arith_instruction(i: Arith) -> (r: Instruction<'static>)
    ensures
        inst_of(r) == Inst::Arith(i),
{
    match i {
        Arith::Add => Instruction::I64Add,
        Arith::Sub => Instruction::I64Sub,
        Arith::Mul => Instruction::I64Mul,
        Arith::DivS => Instruction::I64DivS,
        Arith::DivU => Instruction::I64DivU,
        Arith::RemS => Instruction::I64RemS,
        Arith::And => Instruction::I64And,
        Arith::Or => Instruction::I64Or,
        Arith::Xor => Instruction::I64Xor,
        Arith::Shl => Instruction::I64Shl,
        Arith::ShrS => Instruction::I64ShrS,
        Arith::ShrU => Instruction::I64ShrU,
    }
}

/// The encoder's `Instruction` for 64-bit tests.
#[verifier::external_body]
fn test_instruction(i: Test) -> (r: Instruction<'static>)
    ensures
        inst_of(r) == Inst::Test(i),
{
    match i {
        Test::Eq => Instruction::I64Eq,
        Test::Ne => Instruction::I64Ne,
        Test::LtS => Instruction::I64LtS,
        Test::LtU => Instruction::I64LtU,
        Test::GtS => Instruction::I64GtS,
        Test::GtU => Instruction::I64GtU,
        Test::LeS => Instruction::I64LeS,
        Test::GeS => Instruction::I64GeS,
        Test::GeU => Instruction::I64GeU,
        Test::Eqz => Instruction::I64Eqz,
    }
}

/// The encoder's `Instruction` for those without an operand.
#[verifier::external_body]
fn plain_instruction(i: Plain) -> (r: Instruction<'static>)
    ensures
        inst_of(r) == Inst::Plain(i),
{
    match i {
        Plain::Wrap => Instruction::I32WrapI64,
        Plain::Extend => Instruction::I64ExtendI32U,
        Plain::Eqz32 => Instruction::I32Eqz,
        Plain::Eq32 => Instruction::I32Eq,
        Plain::Or32 => Instruction::I32Or,
        Plain::Else => Instruction::Else,
        Plain::End => Instruction::End,
        Plain::Return => Instruction::Return,
        Plain::Unreachable => Instruction::Unreachable,
    }
}

/// The encoder's `Instruction` for those with an index or a constant.
#[verifier::external_body]
fn indexed_instruction(i: Indexed) -> (r: Instruction<'static>)
    ensures
        inst_of(r) == Inst::Indexed(i),
{
    match i {
        Indexed::Get(x) => Instruction::LocalGet(x),
        Indexed::Put(x) => Instruction::LocalSet(x),
        Indexed::Tee(x) => Instruction::LocalTee(x),
        Indexed::GlobalGet(x) => Instruction::GlobalGet(x),
        Indexed::GlobalSet(x) => Instruction::GlobalSet(x),
        Indexed::Call(x) => Instruction::Call(x),
        Indexed::Br(x) => Instruction::Br(x),
        Indexed::BrIf(x) => Instruction::BrIf(x),
        Indexed::MemorySize(x) => Instruction::MemorySize(x),
        Indexed::MemoryGrow(x) => Instruction::MemoryGrow(x),
        Indexed::Const(n) => Instruction::I64Const(n),
        Indexed::Const32(n) => Instruction::I32Const(n),
    }
}

/// The encoder's `Instruction` for blocks and memory accesses.
#[verifier::external_body]
fn region_instruction(i: Region) -> (r: Instruction<'static>)
    ensures
        inst_of(r) == Inst::Region(i),
{
    let at = |offset: u64, align: u32, memory_index: u32| MemArg { offset, align, memory_index };
    match i {
        Region::Block => Instruction::Block(BlockType::Empty),
        Region::Loop => Instruction::Loop(BlockType::Empty),
        Region::If => Instruction::If(BlockType::Empty),
        Region::IfWord => Instruction::If(BlockType::Result(ValType::I64)),
        Region::Load(offset, align, memory) => Instruction::I64Load(at(offset, align, memory)),
        Region::Store(offset, align, memory) => Instruction::I64Store(at(offset, align, memory)),
    }
}

/// What follows the types and the imports of a module.
pub open spec fn rest_of_sections(
    f: FunctionSection,
    m: MemorySection,
    g: GlobalSection,
    e: ExportSection,
    c: CodeSection,
) -> Seq<Section> {
    seq![
        Section::Functions(held_functions(f)),
        Section::Memories(held_memories(m)),
        Section::Globals(held_globals(g)),
        Section::Exports(held_exports(e)),
        Section::Code(held_bodies(c)),
    ]
}

/// Whether the sections that every module has take sizes of 32 bits.
pub open spec fn small_sections(
    t: TypeSection,
    f: FunctionSection,
    m: MemorySection,
    g: GlobalSection,
    e: ExportSection,
    c: CodeSection,
) -> bool {
    &&& fits(held_types(t).len(), types_size(held_types(t), held_types(t).len()))
    &&& fits(held_functions(f).len(), functions_size(held_functions(f), held_functions(f).len()))
    &&& held_memories(m).len() <= 1
    &&& held_globals(g).len() <= 1
    &&& fits(held_exports(e).len(), exports_size(held_exports(e), held_exports(e).len()))
    &&& fits(held_bodies(c).len(), bodies_size(held_bodies(c), held_bodies(c).len()))
}

/// `Module::new`, `Module::section` and `Module::finish`: the bytes of a module
/// with these sections in this order, imports among them.
#[verifier::external_body]
fn assemble(
    t: &TypeSection,
    i: &ImportSection,
    f: &FunctionSection,
    m: &MemorySection,
    g: &GlobalSection,
    e: &ExportSection,
    c: &CodeSection,
) -> (r: Vec<u8>)
    requires
        small_sections(*t, *f, *m, *g, *e, *c),
        fits(held_imports(*i).len(), imports_size(held_imports(*i), held_imports(*i).len())),
    ensures
        r@ == encoded(
            seq![Section::Types(held_types(*t)), Section::Imports(held_imports(*i))]
                + rest_of_sections(*f, *m, *g, *e, *c),
        ),
{
    let mut out = wasm_encoder::Module::new();
    out.section(t).section(i).section(f).section(m).section(g).section(e).section(c);
    out.finish()
}

/// `Module::new`, `Module::section` and `Module::finish`: the bytes of a module
/// with these sections in this order, without one for imports.
#[verifier::external_body]
fn assemble_closed(
    t: &TypeSection,
    f: &FunctionSection,
    m: &MemorySection,
    g: &GlobalSection,
    e: &ExportSection,
    c: &CodeSection,
) -> (r: Vec<u8>)
    requires
        small_sections(*t, *f, *m, *g, *e, *c),
    ensures
        r@ == encoded(
            seq![Section::Types(held_types(*t))] + rest_of_sections(*f, *m, *g, *e, *c),
        ),
{
    let mut out = wasm_encoder::Module::new();
    out.section(t).section(f).section(m).section(g).section(e).section(c);
    out.finish()
}

/// `wasmparser::validate`: what is wrong with a module, in its words.
#[verifier::external_body]
pub(crate) fn validate(bytes: &Vec<u8>) -> (r: Option<String>)
    ensures
        match validation_error(bytes@) {
            Some(m) => r is Some && r->0@ == m,
            None => r is None,
        },
{
    match wasmparser::validate(bytes) {
        Ok(_) => None,
        Err(e) => Some(e.to_string()),
    }
}

// ---- encoding ----------------------------------------------------------------------------------------------

fn encode_inst(f: &mut Function, i: Inst)
    ensures
        held_code(*final(f)) == (BodyView {
            locals: held_code(*old(f)).locals,
            code: held_code(*old(f)).code.push(i),
        }),
{
    let e = match i {
        Inst::Arith(x) => arith_instruction(x),
        Inst::Test(x) => test_instruction(x),
        Inst::Plain(x) => plain_instruction(x),
        Inst::Indexed(x) => indexed_instruction(x),
        Inst::Region(x) => region_instruction(x),
    };
    add_instruction(f, e);
}

fn encode_body(b: &Body) -> (f: Function)
    requires
        b.locals@.len() <= u32::MAX,
    ensures
        held_code(f) == (BodyView {
            locals: b.locals@,
            code: b.code@.push(Inst::Plain(Plain::End)),
        }),
{
    let mut f = new_body(&b.locals);
    let mut i: usize = 0;
    assert(b.code@.take(0) =~= Seq::empty());
    while i < b.code.len()
        invariant
            i <= b.code@.len(),
            held_code(f) == (BodyView { locals: b.locals@, code: b.code@.take(i as int) }),
        decreases b.code@.len() - i,
    {
        encode_inst(&mut f, b.code[i]);
        assert(b.code@.take(i + 1) =~= b.code@.take(i as int).push(b.code@[i as int]));
        i = i + 1;
    }
    assert(b.code@.take(b.code@.len() as int) =~= b.code@);
    encode_inst(&mut f, Inst::Plain(Plain::End));
    f
}

fn encode_types(m: &ModuleDesc) -> (s: TypeSection)
    requires
        encodable(m@),
    ensures
        held_types(s) == m@.types,
{
    let mut s = new_types();
    let mut i: usize = 0;
    assert(m.types@.take(0) =~= Seq::empty());
    while i < m.types.len()
        invariant
            i <= m.types@.len(),
            encodable(m@),
            held_types(s) == m.types@.take(i as int),
        decreases m.types@.len() - i,
    {
        proof {
            lemma_types_grow(m@.types, (i + 1) as nat, m@.types.len());
        }
        add_type(&mut s, m.types[i]);
        assert(m.types@.take(i + 1) =~= m.types@.take(i as int).push(m.types@[i as int]));
        i = i + 1;
    }
    assert(m.types@.take(m.types@.len() as int) =~= m.types@);
    s
}

fn encode_imports(m: &ModuleDesc) -> (s: ImportSection)
    requires
        encodable(m@),
    ensures
        held_imports(s) == typed_imports(m@.imports),
{
    let ghost want = typed_imports(m@.imports);
    let mut s = new_imports();
    let mut i: usize = 0;
    assert(want.take(0) =~= Seq::empty());
    while i < m.imports.len()
        invariant
            i <= m.imports@.len(),
            encodable(m@),
            want == typed_imports(m@.imports),
            want.len() == m.imports@.len(),
            held_imports(s) == want.take(i as int),
        decreases m.imports@.len() - i,
    {
        proof {
            lemma_imports_grow(want, (i + 1) as nat, want.len());
        }
        assert(m@.imports[i as int] == (m.imports@[i as int].0@, m.imports@[i as int].1@));
        add_import(&mut s, m.imports[i].0.as_str(), m.imports[i].1.as_str(), i as u32);
        assert(want.take(i + 1) =~= want.take(i as int).push(want[i as int]));
        i = i + 1;
    }
    assert(want.take(want.len() as int) =~= want);
    s
}

fn encode_functions(m: &ModuleDesc) -> (s: FunctionSection)
    requires
        encodable(m@),
    ensures
        held_functions(s) == function_types(m@),
{
    let ghost want = function_types(m@);
    let base = m.imports.len() as u32;
    assert(m@.imports.len() == m.imports@.len());
    proof {
        lemma_functions_grow(want, 0, m@.bodies.len());
    }
    let mut s = new_functions();
    let mut i: usize = 0;
    assert(want.take(0) =~= Seq::empty());
    while i < m.bodies.len()
        invariant
            i <= m.bodies@.len(),
            want == function_types(m@),
            want.len() == m.bodies@.len(),
            want.len() <= SIZE_LIMIT,
            base == (m@.imports.len() as usize) as u32,
            held_functions(s) == want.take(i as int),
        decreases m.bodies@.len() - i,
    {
        add_function(&mut s, deeper(base, i as u32));
        assert(want.take(i + 1) =~= want.take(i as int).push(want[i as int]));
        i = i + 1;
    }
    assert(want.take(want.len() as int) =~= want);
    s
}

fn encode_exports(m: &ModuleDesc) -> (s: ExportSection)
    requires
        encodable(m@),
    ensures
        held_exports(s) == m@.exports,
{
    let ghost want = m@.exports;
    let mut s = new_exports();
    let mut i: usize = 0;
    assert(want.take(0) =~= Seq::empty());
    while i < m.exports.len()
        invariant
            i <= m.exports@.len(),
            encodable(m@),
            want == m@.exports,
            want.len() == m.exports@.len(),
            held_exports(s) == want.take(i as int),
        decreases m.exports@.len() - i,
    {
        proof {
            lemma_exports_grow(m@.exports, (i + 1) as nat, m@.exports.len());
        }
        add_export(&mut s, m.exports[i].0.as_str(), m.exports[i].1);
        assert(want.take(i + 1) =~= want.take(i as int).push(want[i as int]));
        i = i + 1;
    }
    assert(want.take(want.len() as int) =~= want);
    s
}

fn encode_bodies(m: &ModuleDesc) -> (s: CodeSection)
    requires
        encodable(m@),
    ensures
        held_bodies(s) == ended(m@.bodies),
{
    let ghost want = ended(m@.bodies);
    let mut s = new_bodies();
    let mut i: usize = 0;
    assert(want.take(0) =~= Seq::empty());
    while i < m.bodies.len()
        invariant
            i <= m.bodies@.len(),
            encodable(m@),
            want == ended(m@.bodies),
            want.len() == m.bodies@.len(),
            held_bodies(s) == want.take(i as int),
        decreases m.bodies@.len() - i,
    {
        proof {
            lemma_bodies_grow(want, (i + 1) as nat, want.len());
            lemma_locals_many(want[i as int].locals, want[i as int].locals.len());
            assert(m@.bodies[i as int] == m.bodies@[i as int]@);
        }
        let f = encode_body(&m.bodies[i]);
        assert(want[i as int] == held_code(f));
        add_body(&mut s, &f);
        assert(want.take(i + 1) =~= want.take(i as int).push(want[i as int]));
        i = i + 1;
    }
    assert(want.take(want.len() as int) =~= want);
    s
}

proof fn lemma_locals_many(v: Seq<u32>, n: nat)
    ensures
        n <= locals_size(v, n),
    decreases n,
{
    if n > 0 {
        lemma_locals_many(v, (n - 1) as nat);
    }
}

/// The bytes of a module.
pub fn encode(m: &ModuleDesc) -> (r: Vec<u8>)
    requires
        encodable(m@),
    ensures
        r@ == encoded(sections(m@)),
{
    let t = encode_types(m);
    let i = encode_imports(m);
    let f = encode_functions(m);
    let mut ms = new_memories();
    add_memory(&mut ms, MEM_PAGES);
    let mut g = new_globals();
    add_global(&mut g, HEAP_START);
    let e = encode_exports(m);
    let c = encode_bodies(m);
    proof {
        let v = m@;
        assert(held_memories(ms) =~= seq![MEM_PAGES]);
        assert(held_globals(g) =~= seq![HEAP_START]);
        assert(rest_of_sections(f, ms, g, e, c) =~= seq![
            Section::Functions(function_types(v)),
            Section::Memories(seq![MEM_PAGES]),
            Section::Globals(seq![HEAP_START]),
            Section::Exports(v.exports),
            Section::Code(ended(v.bodies)),
        ]);
    }
    if m.import_section || m.imports.len() > 0 {
        assemble(&t, &i, &f, &ms, &g, &e, &c)
    } else {
        assemble_closed(&t, &f, &ms, &g, &e, &c)
    }
}

} // verus!
