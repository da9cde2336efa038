//! The native backend: the steps of a program, carried out on the code generator.
//!
//! A plan is checked before it is carried out: a step that refers to a value, a
//! block or a function that is not there makes the plan malformed.
use cranelift::codegen::cursor::{Cursor, FuncCursor};
use cranelift::codegen::ir::condcodes::IntCC;
use cranelift::codegen::ir::types::{I32, I64};
use cranelift::codegen::ir::{AbiParam, Block, BlockArg, BlockCall, FuncRef, Function, InstBuilder, JumpTableData, MemFlags, TrapCode, UserFuncName, Value};
use cranelift::codegen::Context;
use cranelift_jit::JITModule;
use cranelift_module::{FuncId, Linkage, Module, ModuleError};
use vstd::prelude::*;
use vstd::string::*;

use crate::cl;
use crate::cl::{ClFunc, ClFuncView, JitProgram};
use crate::cl_code;
use crate::cl_code::{Binary, CodegenError, CodegenErrorView, Relation, Step, StepView, WithImm};
use crate::find;

verus! {

/// How many things a function may be made of. The code generator counts
/// instructions in 24 bits, and some instructions become two.
pub const CODE_LIMIT: u32 = 4194304;

/// How many parameters a block may have. The code generator counts them in 16
/// bits.
pub const PARAM_LIMIT: usize = 65535;

/// The code of the trap that ends a choice by a number that no block has.
pub const TRAP_CODE: u8 = 1;

// ---- what a function is made of ------------------------------------------------------------------

/// One thing that a function is made of. Values are numbered in the order in
/// which parameters, instructions and calls make them, blocks in their own
/// order.
#[verifier::ext_equal]
pub enum Built {
    /// A block.
    Block,
    /// A further parameter of a block: a value.
    Param(u32),
    /// An instruction at the end of a block.
    Inst(u32, StepView),
    /// A trap with a code at the end of a block.
    Trap(u32, u8),
    /// A call at the end of a block: of a function of the module, by its number
    /// there, with arguments, and with so many results.
    Call(u32, u32, Seq<u32>, nat),
}

/// How many values a step makes.
pub open spec fn values_by(x: StepView) -> nat {
    match x {
        StepView::Const(_) => 1,
        StepView::Binary(_, _, _) => 1,
        StepView::WithImm(_, _, _) => 1,
        StepView::Negate(_) => 1,
        StepView::Compare(_, _, _) => 1,
        StepView::Widen(_) => 1,
        StepView::Narrow(_) => 1,
        StepView::Load(_, _) => 1,
        _ => 0,
    }
}

/// How many values a thing is or makes.
pub open spec fn made_by(x: Built) -> nat {
    match x {
        Built::Param(_) => 1,
        Built::Inst(_, x) => values_by(x),
        Built::Call(_, _, _, n) => n,
        _ => 0,
    }
}

/// How many values there are.
pub open spec fn values_of(c: Seq<Built>) -> nat
    decreases c.len(),
{
    if c.len() == 0 {
        0
    } else {
        values_of(c.drop_last()) + made_by(c.last())
    }
}

/// How many blocks there are.
pub open spec fn blocks_of(c: Seq<Built>) -> nat
    decreases c.len(),
{
    if c.len() == 0 {
        0
    } else {
        blocks_of(c.drop_last()) + if c.last() == Built::Block {
            1nat
        } else {
            0nat
        }
    }
}

/// How many parameters a block has.
pub open spec fn params_of(c: Seq<Built>, b: u32) -> nat
    decreases c.len(),
{
    if c.len() == 0 {
        0
    } else {
        params_of(c.drop_last(), b) + if c.last() == Built::Param(b) {
            1nat
        } else {
            0nat
        }
    }
}

proof fn lemma_push(c: Seq<Built>, x: Built)
    ensures
        values_of(c.push(x)) == values_of(c) + made_by(x),
        blocks_of(c.push(x)) == blocks_of(c) + if x == Built::Block {
            1nat
        } else {
            0nat
        },
{
    assert(c.push(x).drop_last() =~= c);
}

// ---- the code generator ------------------------------------------------------------------------------

/// `cranelift_codegen`'s function under construction.
#[verifier::external_type_specification]
#[verifier::external_body]
pub struct ExFunction(Function);

/// `cranelift_jit`'s module.
#[verifier::external_type_specification]
#[verifier::external_body]
pub struct ExJitModule(JITModule);

/// `cranelift_module`'s error.
#[verifier::external_type_specification]
#[verifier::external_body]
pub struct ExModuleError(ModuleError);

/// What a function under construction is made of, in the order in which it was
/// made.
pub uninterp spec fn clif_code(f: Function) -> Seq<Built>;

/// How many parameters and how many results the signature of a function has.
pub uninterp spec fn clif_signature(f: Function) -> (nat, nat);

/// The functions of the module that a function can call: their numbers, and how
/// many results they have.
pub uninterp spec fn clif_callees(f: Function) -> Seq<(u32, nat)>;

/// Of each function that a module declares, by its number: how many parameters
/// and results it has.
pub uninterp spec fn jit_declared(m: JITModule) -> Map<u32, (nat, nat)>;

/// The numbers of the functions that a module declares, by their names.
pub uninterp spec fn jit_named(m: JITModule) -> Map<Seq<char>, u32>;

/// The functions that a module can be given a definition of.
pub uninterp spec fn jit_definable(m: JITModule) -> Set<u32>;

/// The functions that a module has a definition of.
pub uninterp spec fn jit_defined(m: JITModule) -> Map<u32, Seq<Built>>;

/// Whether a module has each function verified before it is compiled.
pub uninterp spec fn jit_verifies(m: JITModule) -> bool;

/// One more thing in a function, and nothing else changed.
pub open spec fn extended(a: Function, b: Function, x: Built) -> bool {
    &&& clif_code(b) == clif_code(a).push(x)
    &&& clif_signature(b) == clif_signature(a)
    &&& clif_callees(b) == clif_callees(a)
}

/// There is room in a function, and there is such a block.
pub open spec fn ready(f: Function, at: u32) -> bool {
    &&& clif_code(f).len() < CODE_LIMIT
    &&& at < blocks_of(clif_code(f))
}

/// There is such a value.
pub open spec fn has_value(f: Function, v: u32) -> bool {
    v < values_of(clif_code(f))
}

/// The numbers are all below a bound.
pub open spec fn all_below(v: Seq<u32>, n: nat) -> bool {
    forall|i: int| 0 <= i < v.len() ==> (#[trigger] v[i]) < n
}

/// The same declarations and definitions.
pub open spec fn same_module(a: JITModule, b: JITModule) -> bool {
    &&& jit_declared(b) == jit_declared(a)
    &&& jit_named(b) == jit_named(a)
    &&& jit_definable(b) == jit_definable(a)
    &&& jit_defined(b) == jit_defined(a)
    &&& jit_verifies(b) == jit_verifies(a)
}

/// `Function::with_name_signature` on the signature of `Module::make_signature`:
/// a function without parameters, results and code.
#[verifier::external_body]
fn new_function(m: &JITModule) -> (r: Function)
    ensures
        clif_code(r) == Seq::<Built>::empty(),
        clif_signature(r) == (0nat, 0nat),
        clif_callees(r) == Seq::<(u32, nat)>::empty(),
{
    Function::with_name_signature(UserFuncName::default(), m.make_signature())
}

/// A push on `Signature::params`: a further parameter, a 64-bit word.
#[verifier::external_body]
fn add_param(f: &mut Function)
    ensures
        clif_code(*final(f)) == clif_code(*old(f)),
        clif_signature(*final(f)) == (clif_signature(*old(f)).0 + 1, clif_signature(*old(f)).1),
        clif_callees(*final(f)) == clif_callees(*old(f)),
{
    f.signature.params.push(AbiParam::new(I64));
}

/// A push on `Signature::returns`: a further result, a 64-bit word.
#[verifier::external_body]
fn add_result(f: &mut Function)
    ensures
        clif_code(*final(f)) == clif_code(*old(f)),
        clif_signature(*final(f)) == (clif_signature(*old(f)).0, clif_signature(*old(f)).1 + 1),
        clif_callees(*final(f)) == clif_callees(*old(f)),
{
    f.signature.returns.push(AbiParam::new(I64));
}

/// `DataFlowGraph::make_block` and `Layout::append_block`: a further block, last
/// in the layout.
#[verifier::external_body]
fn make_block(f: &mut Function)
    requires
        clif_code(*old(f)).len() < CODE_LIMIT,
    ensures
        extended(*old(f), *final(f), Built::Block),
{
    let b = f.dfg.make_block();
    f.layout.append_block(b);
}

/// `DataFlowGraph::append_block_param`: a further parameter of a block, a 64-bit
/// word.
#[verifier::external_body]
fn append_param(f: &mut Function, b: u32)
    requires
        ready(*old(f), b),
        params_of(clif_code(*old(f)), b) < PARAM_LIMIT,
    ensures
        extended(*old(f), *final(f), Built::Param(b)),
{
    f.dfg.append_block_param(Block::from_u32(b), I64);
}

/// `InstBuilder::iconst`: a 64-bit constant.
#[verifier::external_body]
fn emit_iconst(f: &mut Function, at: u32, n: i64)
    requires
        ready(*old(f), at),
    ensures
        extended(*old(f), *final(f), Built::Inst(at, StepView::Const(n))),
{
    FuncCursor::new(f).at_bottom(Block::from_u32(at)).ins().iconst(I64, n);
}

/// `InstBuilder::iadd`: a sum of two values.
#[verifier::external_body]
fn emit_iadd(f: &mut Function, at: u32, a: u32, b: u32)
    requires
        ready(*old(f), at),
        has_value(*old(f), a),
        has_value(*old(f), b),
    ensures
        extended(*old(f), *final(f), Built::Inst(at, StepView::Binary(Binary::Add, a, b))),
{
    FuncCursor::new(f).at_bottom(Block::from_u32(at)).ins().iadd(Value::from_u32(a), Value::from_u32(b));
}

/// `InstBuilder::isub`: a difference of two values.
#[verifier::external_body]
fn emit_isub(f: &mut Function, at: u32, a: u32, b: u32)
    requires
        ready(*old(f), at),
        has_value(*old(f), a),
        has_value(*old(f), b),
    ensures
        extended(*old(f), *final(f), Built::Inst(at, StepView::Binary(Binary::Sub, a, b))),
{
    FuncCursor::new(f).at_bottom(Block::from_u32(at)).ins().isub(Value::from_u32(a), Value::from_u32(b));
}

/// `InstBuilder::imul`: a product of two values.
#[verifier::external_body]
fn emit_imul(f: &mut Function, at: u32, a: u32, b: u32)
    requires
        ready(*old(f), at),
        has_value(*old(f), a),
        has_value(*old(f), b),
    ensures
        extended(*old(f), *final(f), Built::Inst(at, StepView::Binary(Binary::Mul, a, b))),
{
    FuncCursor::new(f).at_bottom(Block::from_u32(at)).ins().imul(Value::from_u32(a), Value::from_u32(b));
}

/// `InstBuilder::sdiv`: a signed quotient of two values.
#[verifier::external_body]
fn emit_sdiv(f: &mut Function, at: u32, a: u32, b: u32)
    requires
        ready(*old(f), at),
        has_value(*old(f), a),
        has_value(*old(f), b),
    ensures
        extended(*old(f), *final(f), Built::Inst(at, StepView::Binary(Binary::Div, a, b))),
{
    FuncCursor::new(f).at_bottom(Block::from_u32(at)).ins().sdiv(Value::from_u32(a), Value::from_u32(b));
}

/// `InstBuilder::srem`: a signed remainder of two values.
#[verifier::external_body]
fn emit_srem(f: &mut Function, at: u32, a: u32, b: u32)
    requires
        ready(*old(f), at),
        has_value(*old(f), a),
        has_value(*old(f), b),
    ensures
        extended(*old(f), *final(f), Built::Inst(at, StepView::Binary(Binary::Rem, a, b))),
{
    FuncCursor::new(f).at_bottom(Block::from_u32(at)).ins().srem(Value::from_u32(a), Value::from_u32(b));
}

/// `InstBuilder::band`: a bitwise conjunction of two values.
#[verifier::external_body]
fn emit_band(f: &mut Function, at: u32, a: u32, b: u32)
    requires
        ready(*old(f), at),
        has_value(*old(f), a),
        has_value(*old(f), b),
    ensures
        extended(*old(f), *final(f), Built::Inst(at, StepView::Binary(Binary::And, a, b))),
{
    FuncCursor::new(f).at_bottom(Block::from_u32(at)).ins().band(Value::from_u32(a), Value::from_u32(b));
}

/// `InstBuilder::bor`: a bitwise disjunction of two values.
#[verifier::external_body]
fn emit_bor(f: &mut Function, at: u32, a: u32, b: u32)
    requires
        ready(*old(f), at),
        has_value(*old(f), a),
        has_value(*old(f), b),
    ensures
        extended(*old(f), *final(f), Built::Inst(at, StepView::Binary(Binary::Or, a, b))),
{
    FuncCursor::new(f).at_bottom(Block::from_u32(at)).ins().bor(Value::from_u32(a), Value::from_u32(b));
}

/// `InstBuilder::iadd_imm`: a sum of a value and a constant.
#[verifier::external_body]
fn emit_iadd_imm(f: &mut Function, at: u32, a: u32, n: i64)
    requires
        ready(*old(f), at),
        has_value(*old(f), a),
    ensures
        extended(*old(f), *final(f), Built::Inst(at, StepView::WithImm(WithImm::Add, a, n))),
{
    FuncCursor::new(f).at_bottom(Block::from_u32(at)).ins().iadd_imm(Value::from_u32(a), n);
}

/// `InstBuilder::imul_imm`: a product of a value and a constant.
#[verifier::external_body]
fn emit_imul_imm(f: &mut Function, at: u32, a: u32, n: i64)
    requires
        ready(*old(f), at),
        has_value(*old(f), a),
    ensures
        extended(*old(f), *final(f), Built::Inst(at, StepView::WithImm(WithImm::Mul, a, n))),
{
    FuncCursor::new(f).at_bottom(Block::from_u32(at)).ins().imul_imm(Value::from_u32(a), n);
}

/// `InstBuilder::bxor_imm`: an exclusive disjunction of a value and a constant.
#[verifier::external_body]
fn emit_bxor_imm(f: &mut Function, at: u32, a: u32, n: i64)
    requires
        ready(*old(f), at),
        has_value(*old(f), a),
    ensures
        extended(*old(f), *final(f), Built::Inst(at, StepView::WithImm(WithImm::Xor, a, n))),
{
    FuncCursor::new(f).at_bottom(Block::from_u32(at)).ins().bxor_imm(Value::from_u32(a), n);
}

/// `InstBuilder::ishl_imm`: a shift to the left of a value and a constant.
#[verifier::external_body]
fn emit_ishl_imm(f: &mut Function, at: u32, a: u32, n: i64)
    requires
        ready(*old(f), at),
        has_value(*old(f), a),
    ensures
        extended(*old(f), *final(f), Built::Inst(at, StepView::WithImm(WithImm::Shl, a, n))),
{
    FuncCursor::new(f).at_bottom(Block::from_u32(at)).ins().ishl_imm(Value::from_u32(a), n);
}

/// `InstBuilder::sshr_imm`: a signed shift to the right of a value and a constant.
#[verifier::external_body]
fn emit_sshr_imm(f: &mut Function, at: u32, a: u32, n: i64)
    requires
        ready(*old(f), at),
        has_value(*old(f), a),
    ensures
        extended(*old(f), *final(f), Built::Inst(at, StepView::WithImm(WithImm::ShrSigned, a, n))),
{
    FuncCursor::new(f).at_bottom(Block::from_u32(at)).ins().sshr_imm(Value::from_u32(a), n);
}

/// `InstBuilder::ushr_imm`: an unsigned shift to the right of a value and a constant.
#[verifier::external_body]
fn emit_ushr_imm(f: &mut Function, at: u32, a: u32, n: i64)
    requires
        ready(*old(f), at),
        has_value(*old(f), a),
    ensures
        extended(*old(f), *final(f), Built::Inst(at, StepView::WithImm(WithImm::ShrUnsigned, a, n))),
{
    FuncCursor::new(f).at_bottom(Block::from_u32(at)).ins().ushr_imm(Value::from_u32(a), n);
}

/// `InstBuilder::ineg`: the negative of a value.
#[verifier::external_body]
fn emit_ineg(f: &mut Function, at: u32, a: u32)
    requires
        ready(*old(f), at),
        has_value(*old(f), a),
    ensures
        extended(*old(f), *final(f), Built::Inst(at, StepView::Negate(a))),
{
    FuncCursor::new(f).at_bottom(Block::from_u32(at)).ins().ineg(Value::from_u32(a));
}

/// `InstBuilder::uextend`: a value extended by zeros to 64 bits.
#[verifier::external_body]
fn emit_uextend(f: &mut Function, at: u32, a: u32)
    requires
        ready(*old(f), at),
        has_value(*old(f), a),
    ensures
        extended(*old(f), *final(f), Built::Inst(at, StepView::Widen(a))),
{
    FuncCursor::new(f).at_bottom(Block::from_u32(at)).ins().uextend(I64, Value::from_u32(a));
}

/// `InstBuilder::ireduce`: the low 32 bits of a value.
#[verifier::external_body]
fn emit_ireduce(f: &mut Function, at: u32, a: u32)
    requires
        ready(*old(f), at),
        has_value(*old(f), a),
    ensures
        extended(*old(f), *final(f), Built::Inst(at, StepView::Narrow(a))),
{
    FuncCursor::new(f).at_bottom(Block::from_u32(at)).ins().ireduce(I32, Value::from_u32(a));
}

/// `InstBuilder::icmp`: whether a relation holds between two values.
#[verifier::external_body]
fn emit_icmp(f: &mut Function, at: u32, r: Relation, a: u32, b: u32)
    requires
        ready(*old(f), at),
        has_value(*old(f), a),
        has_value(*old(f), b),
    ensures
        extended(*old(f), *final(f), Built::Inst(at, StepView::Compare(r, a, b))),
{
    let code = match r {
        Relation::Equal => IntCC::Equal,
        Relation::NotEqual => IntCC::NotEqual,
        Relation::SignedLess => IntCC::SignedLessThan,
        Relation::SignedLessOrEqual => IntCC::SignedLessThanOrEqual,
        Relation::SignedGreater => IntCC::SignedGreaterThan,
        Relation::SignedGreaterOrEqual => IntCC::SignedGreaterThanOrEqual,
        Relation::UnsignedLess => IntCC::UnsignedLessThan,
    };
    FuncCursor::new(f).at_bottom(Block::from_u32(at)).ins().icmp(code, Value::from_u32(a), Value::from_u32(b));
}

/// `InstBuilder::load` with trusted memory flags: the 64-bit word at an offset
/// from an address.
#[verifier::external_body]
fn emit_load(f: &mut Function, at: u32, a: u32, off: i32)
    requires
        ready(*old(f), at),
        has_value(*old(f), a),
    ensures
        extended(*old(f), *final(f), Built::Inst(at, StepView::Load(a, off))),
{
    FuncCursor::new(f).at_bottom(Block::from_u32(at)).ins().load(I64, MemFlags::trusted(), Value::from_u32(a), off);
}

/// `InstBuilder::store` with trusted memory flags: a value put at an offset from
/// an address.
#[verifier::external_body]
fn emit_store(f: &mut Function, at: u32, v: u32, a: u32, off: i32)
    requires
        ready(*old(f), at),
        has_value(*old(f), v),
        has_value(*old(f), a),
    ensures
        extended(*old(f), *final(f), Built::Inst(at, StepView::Store(v, a, off))),
{
    let (v, a) = (Value::from_u32(v), Value::from_u32(a));
    FuncCursor::new(f).at_bottom(Block::from_u32(at)).ins().store(MemFlags::trusted(), v, a, off);
}

/// `InstBuilder::call`: a call of a function that was brought in. It makes as
/// many values as that function has results.
#[verifier::external_body]
fn emit_call(f: &mut Function, at: u32, callee: u32, args: &Vec<u32>)
    requires
        ready(*old(f), at),
        callee < clif_callees(*old(f)).len(),
        clif_callees(*old(f))[callee as int].1 <= 1,
        all_below(args@, values_of(clif_code(*old(f)))),
    ensures
        extended(
            *old(f),
            *final(f),
            Built::Call(
                at,
                clif_callees(*old(f))[callee as int].0,
                args@,
                clif_callees(*old(f))[callee as int].1,
            ),
        ),
{
    let args: Vec<Value> = args.iter().map(|a| Value::from_u32(*a)).collect();
    FuncCursor::new(f).at_bottom(Block::from_u32(at)).ins().call(FuncRef::from_u32(callee), &args);
}

/// `InstBuilder::jump`: control goes to a block, with arguments.
#[verifier::external_body]
fn emit_jump(f: &mut Function, at: u32, to: u32, args: &Vec<u32>)
    requires
        ready(*old(f), at),
        to < blocks_of(clif_code(*old(f))),
        all_below(args@, values_of(clif_code(*old(f)))),
    ensures
        extended(*old(f), *final(f), Built::Inst(at, StepView::Jump(to, args@))),
{
    let args: Vec<BlockArg> = args.iter().map(|a| BlockArg::Value(Value::from_u32(*a))).collect();
    FuncCursor::new(f).at_bottom(Block::from_u32(at)).ins().jump(Block::from_u32(to), &args);
}

/// `InstBuilder::brif`: control goes to one block without arguments if a value
/// is not zero, else to another one with arguments.
#[verifier::external_body]
fn emit_brif(f: &mut Function, at: u32, c: u32, yes: u32, no: u32, args: &Vec<u32>)
    requires
        ready(*old(f), at),
        has_value(*old(f), c),
        yes < blocks_of(clif_code(*old(f))),
        no < blocks_of(clif_code(*old(f))),
        all_below(args@, values_of(clif_code(*old(f)))),
    ensures
        extended(*old(f), *final(f), Built::Inst(at, StepView::Branch(c, yes, no, args@))),
{
    let args: Vec<BlockArg> = args.iter().map(|a| BlockArg::Value(Value::from_u32(*a))).collect();
    let (yes, no) = (Block::from_u32(yes), Block::from_u32(no));
    FuncCursor::new(f).at_bottom(Block::from_u32(at)).ins().brif(Value::from_u32(c), yes, &[], no, &args);
}

/// `InstBuilder::br_table` on a new jump table: control goes to the block that
/// a number selects, or to another one.
#[verifier::external_body]
fn emit_br_table(f: &mut Function, at: u32, v: u32, blocks: &Vec<u32>, other: u32)
    requires
        ready(*old(f), at),
        has_value(*old(f), v),
        other < blocks_of(clif_code(*old(f))),
        all_below(blocks@, blocks_of(clif_code(*old(f)))),
    ensures
        extended(*old(f), *final(f), Built::Inst(at, StepView::Table(v, blocks@, other))),
{
    let other = f.dfg.block_call(Block::from_u32(other), &[]);
    let arms: Vec<BlockCall> = blocks.iter().map(|b| f.dfg.block_call(Block::from_u32(*b), &[])).collect();
    let table = f.create_jump_table(JumpTableData::new(other, &arms));
    FuncCursor::new(f).at_bottom(Block::from_u32(at)).ins().br_table(Value::from_u32(v), table);
}

/// `InstBuilder::trap`: a trap with a code of the user's.
#[verifier::external_body]
fn emit_trap(f: &mut Function, at: u32, code: u8)
    requires
        ready(*old(f), at),
        0 < code <= 250,
    ensures
        extended(*old(f), *final(f), Built::Trap(at, code)),
{
    FuncCursor::new(f).at_bottom(Block::from_u32(at)).ins().trap(TrapCode::unwrap_user(code));
}

/// `InstBuilder::return_`: the end of the function, with one result.
#[verifier::external_body]
fn emit_return(f: &mut Function, at: u32, v: u32)
    requires
        ready(*old(f), at),
        has_value(*old(f), v),
    ensures
        extended(*old(f), *final(f), Built::Inst(at, StepView::Return(v))),
{
    FuncCursor::new(f).at_bottom(Block::from_u32(at)).ins().return_(&[Value::from_u32(v)]);
}

/// Where the code of a declared function comes from.
#[derive(Debug, Clone, Copy, PartialEq, Eq, Structural)]
pub enum Origin {
    /// From elsewhere.
    Import,
    /// From the module.
    Export,
}

/// `Module::declare_function`: the number of the function of a name, an earlier
/// one with the same signature where the name is declared. When it fails is not
/// stated: it depends on what else the module holds.
#[verifier::external_body]
fn declare(m: &mut JITModule, name: &str, origin: Origin, f: &Function) -> (r: Result<u32, ModuleError>)
    ensures
        jit_defined(*final(m)) == jit_defined(*old(m)),
        jit_verifies(*final(m)) == jit_verifies(*old(m)),
        match r {
            Ok(id) => {
                &&& jit_declared(*final(m)) == jit_declared(*old(m)).insert(id, clif_signature(*f))
                &&& jit_named(*final(m)) == jit_named(*old(m)).insert(name@, id)
                &&& jit_declared(*old(m)).contains_key(id) ==> {
                    &&& jit_declared(*old(m))[id] == clif_signature(*f)
                    &&& jit_named(*old(m)).contains_key(name@)
                }
                &&& jit_named(*old(m)).contains_key(name@) ==> jit_named(*old(m))[name@] == id
                &&& origin == Origin::Export ==> jit_definable(*final(m)) == jit_definable(
                    *old(m),
                ).insert(id)
                &&& origin == Origin::Import ==> jit_definable(*final(m)) == jit_definable(*old(m))
            },
            Err(_) => {
                &&& jit_declared(*final(m)) == jit_declared(*old(m))
                &&& jit_named(*final(m)) == jit_named(*old(m))
            },
        },
{
    let linkage = match origin {
        Origin::Import => Linkage::Import,
        Origin::Export => Linkage::Export,
    };
    m.declare_function(name, linkage, &f.signature).map(|id| id.as_u32())
}

/// `Module::declare_func_in_func`: a declared function brought into a function
/// that is to call it. The callees of a function are numbered in their order.
#[verifier::external_body]
fn bring_in(m: &mut JITModule, id: u32, f: &mut Function) -> (r: u32)
    requires
        jit_declared(*old(m)).contains_key(id),
        clif_callees(*old(f)).len() < CODE_LIMIT,
    ensures
        same_module(*old(m), *final(m)),
        clif_code(*final(f)) == clif_code(*old(f)),
        clif_signature(*final(f)) == clif_signature(*old(f)),
        clif_callees(*final(f)) == clif_callees(*old(f)).push((id, jit_declared(*old(m))[id].1)),
        r == clif_callees(*old(f)).len(),
{
    m.declare_func_in_func(FuncId::from_u32(id), f).as_u32()
}

/// `Flags::enable_verifier` of `Module::isa`.
#[verifier::external_body]
fn verifies(m: &JITModule) -> (r: bool)
    ensures
        r == jit_verifies(*m),
{
    m.isa().flags().enable_verifier()
}

/// `Module::define_function`: the code of a declared function, verified and
/// compiled. It fails on a function that has a definition; when else it fails is
/// not stated, as that rests with the verifier and the machine.
#[verifier::external_body]
fn define(m: &mut JITModule, id: u32, f: Function) -> (r: Result<(), ModuleError>)
    requires
        jit_declared(*old(m)).contains_key(id),
        jit_verifies(*old(m)),
        blocks_of(clif_code(f)) > 0,
    ensures
        jit_declared(*final(m)) == jit_declared(*old(m)),
        jit_named(*final(m)) == jit_named(*old(m)),
        jit_definable(*final(m)) == jit_definable(*old(m)),
        jit_verifies(*final(m)),
        r is Ok ==> {
            &&& !jit_defined(*old(m)).contains_key(id)
            &&& jit_definable(*old(m)).contains(id)
            &&& jit_defined(*final(m)) == jit_defined(*old(m)).insert(id, clif_code(f))
        },
        r is Err ==> jit_defined(*final(m)) == jit_defined(*old(m)),
{
    m.define_function(FuncId::from_u32(id), &mut Context::for_function(f))
}

/// The text of a `ModuleError`, by `to_string`. What it says is not stated.
#[verifier::external_body]
fn module_error_text(e: &ModuleError) -> (r: String) {
    e.to_string()
}

// ---- plans ---------------------------------------------------------------------------------------------

/// What a plan's calls lead to: the functions of the program by their position,
/// the allocator, and the report that a position is outside a length.
pub struct Links {
    pub ids: Vec<u32>,
    pub alloc: u32,
    pub fail: u32,
}

/// The mathematical counterpart of [`Links`].
pub struct LinksView {
    pub ids: Seq<u32>,
    pub alloc: u32,
    pub fail: u32,
}

impl View for Links {
    type V = LinksView;

    open spec fn view(&self) -> LinksView {
        LinksView { ids: self.ids@, alloc: self.alloc, fail: self.fail }
    }
}

/// What is linked is declared, with the right number of results.
pub open spec fn linked(m: JITModule, l: LinksView) -> bool {
    &&& forall|i: int|
        0 <= i < l.ids.len() ==> #[trigger] jit_declared(m).contains_key(l.ids[i]) && jit_declared(
            m,
        )[l.ids[i]].1 == 1
    &&& jit_declared(m).contains_key(l.alloc) && jit_declared(m)[l.alloc].1 == 1
    &&& jit_declared(m).contains_key(l.fail) && jit_declared(m)[l.fail].1 == 0
}

/// A function under construction: the block that control is in, and what it is
/// made of.
#[verifier::ext_equal]
pub struct SiteView {
    pub at: u32,
    pub code: Seq<Built>,
}

/// The values and the blocks that a step refers to are there.
pub open spec fn fits(x: StepView, values: nat, blocks: nat) -> bool {
    match x {
        StepView::Const(_) => true,
        StepView::Binary(_, a, b) => a < values && b < values,
        StepView::WithImm(_, a, _) => a < values,
        StepView::Negate(a) => a < values,
        StepView::Compare(_, a, b) => a < values && b < values,
        StepView::Widen(a) => a < values,
        StepView::Narrow(a) => a < values,
        StepView::Load(a, _) => a < values,
        StepView::Store(v, a, _) => v < values && a < values,
        StepView::Alloc(n) => n < values,
        StepView::Call(_, args) => all_below(args, values),
        StepView::BoundsFail(i, n) => i < values && n < values,
        StepView::Block => true,
        StepView::Param(b) => b < blocks,
        StepView::Switch(b) => b < blocks,
        StepView::Seal(b) => b < blocks,
        StepView::Jump(b, args) => b < blocks && all_below(args, values),
        StepView::Branch(c, yes, no, args) => c < values && yes < blocks && no < blocks && all_below(
            args,
            values,
        ),
        StepView::Table(v, arms, other) => v < values && other < blocks && all_below(arms, blocks),
        StepView::Trap => true,
        StepView::Return(v) => v < values,
    }
}

/// One more thing.
pub open spec fn grown(s: SiteView, x: Built) -> SiteView {
    SiteView { code: s.code.push(x), ..s }
}

/// A step carried out, if it can be.
pub open spec fn place_s(l: LinksView, x: StepView, s: SiteView) -> Option<SiteView> {
    if s.code.len() >= CODE_LIMIT || !fits(x, values_of(s.code), blocks_of(s.code)) {
        None
    } else {
        match x {
            StepView::Block => Some(grown(s, Built::Block)),
            StepView::Param(b) => if params_of(s.code, b) < PARAM_LIMIT {
                Some(grown(s, Built::Param(b)))
            } else {
                None
            },
            StepView::Switch(b) => Some(SiteView { at: b, ..s }),
            StepView::Seal(_) => Some(s),
            StepView::Trap => Some(grown(s, Built::Trap(s.at, TRAP_CODE))),
            StepView::Call(i, args) => if i < l.ids.len() {
                Some(grown(s, Built::Call(s.at, l.ids[i as int], args, 1)))
            } else {
                None
            },
            StepView::Alloc(n) => Some(grown(s, Built::Call(s.at, l.alloc, seq![n], 1))),
            StepView::BoundsFail(i, n) => Some(grown(s, Built::Call(s.at, l.fail, seq![i, n], 0))),
            _ => Some(grown(s, Built::Inst(s.at, x))),
        }
    }
}

/// The first `n` steps carried out.
pub open spec fn places_s(l: LinksView, steps: Seq<StepView>, n: nat, s: SiteView) -> Option<SiteView>
    decreases n,
{
    if n == 0 {
        Some(s)
    } else {
        match places_s(l, steps, (n - 1) as nat, s) {
            Some(t) => place_s(l, steps[n - 1], t),
            None => None,
        }
    }
}

/// The first block of a function, with the first `n` parameters.
pub open spec fn opening(n: nat) -> SiteView
    decreases n,
{
    if n == 0 {
        SiteView { at: 0, code: seq![Built::Block] }
    } else {
        grown(opening((n - 1) as nat), Built::Param(0))
    }
}

/// The code of a function of so many words with such steps, if the plan is well
/// formed.
pub open spec fn code_s(l: LinksView, words: usize, steps: Seq<StepView>) -> Option<Seq<Built>> {
    if words > PARAM_LIMIT {
        None
    } else {
        match places_s(l, steps, steps.len(), opening(words as nat)) {
            Some(s) => Some(s.code),
            None => None,
        }
    }
}

/// Links to that many functions, all of one number.
pub open spec fn unlinked(fns: nat) -> LinksView {
    LinksView { ids: Seq::new(fns, |i: int| 0u32), alloc: 0, fail: 0 }
}

/// A plan of a program of so many functions that can be carried out: its steps refer
/// to values, blocks and functions that are there, and there is room for it.
pub open spec fn well_formed(fns: nat, words: usize, steps: Seq<StepView>) -> bool {
    code_s(unlinked(fns), words, steps) is Some
}

/// Code that differs in what calls lead to only.
spec fn same_shape(a: Seq<Built>, b: Seq<Built>) -> bool {
    &&& a.len() == b.len()
    &&& values_of(a) == values_of(b)
    &&& blocks_of(a) == blocks_of(b)
    &&& forall|x: u32| #[trigger] params_of(a, x) == params_of(b, x)
}

proof fn lemma_shape_push(a: Seq<Built>, b: Seq<Built>, x: Built, y: Built)
    requires
        same_shape(a, b),
        x == y || (x is Call && y is Call && made_by(x) == made_by(y)),
    ensures
        same_shape(a.push(x), b.push(y)),
{
    assert(a.push(x).drop_last() =~= a);
    assert(b.push(y).drop_last() =~= b);
    assert forall|z: u32| #[trigger] params_of(a.push(x), z) == params_of(b.push(y), z) by {
        assert(params_of(a, z) == params_of(b, z));
    }
}

proof fn lemma_same_places(
    k: LinksView,
    l: LinksView,
    steps: Seq<StepView>,
    n: nat,
    s: SiteView,
)
    requires
        k.ids.len() == l.ids.len(),
        n <= steps.len(),
    ensures
        match (places_s(k, steps, n, s), places_s(l, steps, n, s)) {
            (Some(x), Some(y)) => x.at == y.at && same_shape(x.code, y.code),
            (None, None) => true,
            _ => false,
        },
    decreases n,
{
    if n > 0 {
        lemma_same_places(k, l, steps, (n - 1) as nat, s);
        match (places_s(k, steps, (n - 1) as nat, s), places_s(l, steps, (n - 1) as nat, s)) {
            (Some(x), Some(y)) => {
                let (a, b) = (x.code, y.code);
                match steps[n - 1] {
                    StepView::Block => lemma_shape_push(a, b, Built::Block, Built::Block),
                    StepView::Param(i) => {
                        assert(params_of(a, i) == params_of(b, i));
                        lemma_shape_push(a, b, Built::Param(i), Built::Param(i));
                    },
                    StepView::Switch(_) => {},
                    StepView::Seal(_) => {},
                    StepView::Trap => {
                        let t = Built::Trap(x.at, TRAP_CODE);
                        lemma_shape_push(a, b, t, t);
                    },
                    StepView::Call(i, args) => if i < k.ids.len() {
                        lemma_shape_push(
                            a,
                            b,
                            Built::Call(x.at, k.ids[i as int], args, 1),
                            Built::Call(x.at, l.ids[i as int], args, 1),
                        );
                    },
                    StepView::Alloc(i) => lemma_shape_push(
                        a,
                        b,
                        Built::Call(x.at, k.alloc, seq![i], 1),
                        Built::Call(x.at, l.alloc, seq![i], 1),
                    ),
                    StepView::BoundsFail(i, j) => lemma_shape_push(
                        a,
                        b,
                        Built::Call(x.at, k.fail, seq![i, j], 0),
                        Built::Call(x.at, l.fail, seq![i, j], 0),
                    ),
                    z => lemma_shape_push(a, b, Built::Inst(x.at, z), Built::Inst(x.at, z)),
                }
            },
            _ => {},
        }
    }
}

/// Whether a plan can be carried out does not depend on the numbers of the functions
/// that it calls.
pub proof fn lemma_numbers_are_incidental(l: LinksView, words: usize, steps: Seq<StepView>)
    ensures
        well_formed(l.ids.len(), words, steps) == (code_s(l, words, steps) is Some),
{
    lemma_same_places(unlinked(l.ids.len()), l, steps, steps.len(), opening(words as nat));
}

proof fn lemma_stays_malformed(l: LinksView, steps: Seq<StepView>, i: nat, n: nat, s: SiteView)
    requires
        i <= n,
        places_s(l, steps, i, s) is None,
    ensures
        places_s(l, steps, n, s) is None,
    decreases n - i,
{
    if i < n {
        lemma_stays_malformed(l, steps, i, (n - 1) as nat, s);
    }
}

proof fn lemma_opening(n: nat)
    ensures
        opening(n).at == 0,
        opening(n).code.len() == n + 1,
        values_of(opening(n).code) == n,
        blocks_of(opening(n).code) == 1,
        params_of(opening(n).code, 0) == n,
    decreases n,
{
    if n == 0 {
        let c = Seq::<Built>::empty();
        lemma_push(c, Built::Block);
        assert(opening(0).code =~= c.push(Built::Block));
        assert(c.push(Built::Block).drop_last() =~= c);
        assert(params_of(c, 0) == 0);
    } else {
        let c = opening((n - 1) as nat).code;
        lemma_opening((n - 1) as nat);
        lemma_push(c, Built::Param(0));
        assert(c.push(Built::Param(0)).drop_last() =~= c);
    }
}

/// Whether the numbers are all below a bound.
fn are_below(v: &Vec<u32>, n: u32) -> (r: bool)
    ensures
        r == all_below(v@, n as nat),
{
    let mut i: usize = 0;
    while i < v.len()
        invariant
            i <= v.len(),
            forall|j: int| 0 <= j < i ==> (#[trigger] v@[j]) < n,
        decreases v.len() - i,
    {
        if v[i] >= n {
            assert(!(v@[i as int] < n));
            return false;
        }
        i = i + 1;
    }
    true
}

/// Whether what a step refers to is there.
fn fits_in(x: &Step, values: u32, blocks: u32) -> (r: bool)
    ensures
        r == fits(x@, values as nat, blocks as nat),
{
    match x {
        Step::Const(_) => true,
        Step::Binary(_, a, b) => *a < values && *b < values,
        Step::WithImm(_, a, _) => *a < values,
        Step::Negate(a) => *a < values,
        Step::Compare(_, a, b) => *a < values && *b < values,
        Step::Widen(a) => *a < values,
        Step::Narrow(a) => *a < values,
        Step::Load(a, _) => *a < values,
        Step::Store(v, a, _) => *v < values && *a < values,
        Step::Alloc(n) => *n < values,
        Step::Call(_, args) => are_below(args, values),
        Step::BoundsFail(i, n) => *i < values && *n < values,
        Step::Block => true,
        Step::Param(b) => *b < blocks,
        Step::Switch(b) => *b < blocks,
        Step::Seal(b) => *b < blocks,
        Step::Jump(b, args) => *b < blocks && are_below(args, values),
        Step::Branch(c, yes, no, args) => *c < values && *yes < blocks && *no < blocks && are_below(
            args,
            values,
        ),
        Step::Table(v, arms, other) => *v < values && *other < blocks && are_below(arms, blocks),
        Step::Trap => true,
        Step::Return(v) => *v < values,
    }
}

/// What a plan has made so far: how many things, values and blocks, and how many
/// parameters each block has.
struct Tally {
    made: u32,
    values: u32,
    blocks: u32,
    params: Vec<u32>,
}

impl Tally {
    spec fn of(self, c: Seq<Built>) -> bool {
        &&& self.made == c.len()
        &&& self.values == values_of(c)
        &&& self.blocks == blocks_of(c)
        &&& self.values <= self.made <= CODE_LIMIT
        &&& self.blocks <= self.made
        &&& self.params@.len() == self.blocks
        &&& forall|b: u32|
            b < self.blocks ==> (#[trigger] params_of(c, b)) == self.params@[b as int]
        &&& forall|b: u32| b >= self.blocks ==> (#[trigger] params_of(c, b)) == 0
    }
}

proof fn lemma_params(c: Seq<Built>, x: Built)
    ensures
        forall|b: u32| #[trigger]
            params_of(c.push(x), b) == params_of(c, b) + if x == Built::Param(b) {
                1nat
            } else {
                0nat
            },
{
    assert(c.push(x).drop_last() =~= c);
}

proof fn lemma_opening_params(n: nat)
    ensures
        forall|b: u32| #[trigger]
            params_of(opening(n).code, b) == if b == 0 {
                n
            } else {
                0
            },
    decreases n,
{
    if n == 0 {
        let c = Seq::<Built>::empty();
        lemma_params(c, Built::Block);
        assert(opening(0).code =~= c.push(Built::Block));
    } else {
        lemma_opening_params((n - 1) as nat);
        lemma_params(opening((n - 1) as nat).code, Built::Param(0));
    }
}

/// Counts a step; not if it cannot be carried out.
fn count(fns: usize, x: &Step, t: &mut Tally, Ghost(s): Ghost<SiteView>) -> (r: bool)
    requires
        old(t).of(s.code),
    ensures
        match place_s(unlinked(fns as nat), x@, s) {
            Some(n) => r && final(t).of(n.code),
            None => !r,
        },
{
    if t.made >= CODE_LIMIT || !fits_in(x, t.values, t.blocks) {
        return false;
    }
    let ghost l = unlinked(fns as nat);
    let mut gained: u32 = 0;
    let ghost mut thing: Built = Built::Block;
    match x {
        Step::Block => {
            t.params.push(0);
            t.blocks = t.blocks + 1;
        },
        Step::Param(b) => {
            assert(params_of(s.code, *b) == t.params@[*b as int]);
            let held = t.params[*b as usize];
            if held as usize >= PARAM_LIMIT {
                return false;
            }
            t.params.set(*b as usize, held + 1);
            gained = 1;
            proof {
                thing = Built::Param(*b);
            }
        },
        Step::Switch(_) => {
            return true;
        },
        Step::Seal(_) => {
            return true;
        },
        Step::Trap => {
            proof {
                thing = Built::Trap(s.at, TRAP_CODE);
            }
        },
        Step::Call(i, args) => {
            if *i >= fns {
                return false;
            }
            gained = 1;
            proof {
                thing = Built::Call(s.at, l.ids[*i as int], args@, 1);
            }
        },
        Step::Alloc(n) => {
            gained = 1;
            proof {
                thing = Built::Call(s.at, l.alloc, seq![*n], 1);
            }
        },
        Step::BoundsFail(i, n) => {
            proof {
                thing = Built::Call(s.at, l.fail, seq![*i, *n], 0);
            }
        },
        _ => {
            gained = values_made(x);
            proof {
                thing = Built::Inst(s.at, x@);
            }
        },
    }
    t.values = t.values + gained;
    t.made = t.made + 1;
    proof {
        lemma_push(s.code, thing);
        lemma_params(s.code, thing);
    }
    true
}

/// Whether a plan of a program of so many functions can be carried out.
pub fn is_well_formed(fns: usize, words: usize, steps: &Vec<Step>) -> (r: bool)
    ensures
        r == well_formed(fns as nat, words, cl_code::steps_view(steps@)),
{
    if words > PARAM_LIMIT {
        return false;
    }
    let ghost v = cl_code::steps_view(steps@);
    let ghost l = unlinked(fns as nat);
    let ghost start = opening(words as nat);
    let mut params: Vec<u32> = Vec::new();
    params.push(words as u32);
    let mut t = Tally { made: words as u32 + 1, values: words as u32, blocks: 1, params };
    proof {
        lemma_opening(words as nat);
        lemma_opening_params(words as nat);
    }
    let ghost mut s = start;
    let mut i: usize = 0;
    while i < steps.len()
        invariant
            i <= steps.len(),
            v == cl_code::steps_view(steps@),
            words <= PARAM_LIMIT,
            start == opening(words as nat),
            l == unlinked(fns as nat),
            places_s(l, v, i as nat, start) == Some(s),
            t.of(s.code),
        decreases steps.len() - i,
    {
        assert(v[i as int] == steps@[i as int]@);
        if !count(fns, &steps[i], &mut t, Ghost(s)) {
            proof {
                assert(places_s(l, v, (i + 1) as nat, start) is None);
                lemma_stays_malformed(l, v, (i + 1) as nat, v.len(), start);
            }
            return false;
        }
        proof {
            s = place_s(l, v[i as int], s)->0;
        }
        i = i + 1;
    }
    true
}

/// Control is in a block of a function, which brings in no more callees than it is made
/// of things.
spec fn standing(at: u32, f: Function) -> bool {
    &&& at < blocks_of(clif_code(f))
    &&& clif_callees(f).len() <= clif_code(f).len()
}

/// An operation on two words.
fn place_binary(f: &mut Function, at: u32, op: Binary, a: u32, b: u32)
    requires
        ready(*old(f), at),
        has_value(*old(f), a),
        has_value(*old(f), b),
    ensures
        extended(*old(f), *final(f), Built::Inst(at, StepView::Binary(op, a, b))),
{
    match op {
        Binary::Add => emit_iadd(f, at, a, b),
        Binary::Sub => emit_isub(f, at, a, b),
        Binary::Mul => emit_imul(f, at, a, b),
        Binary::Div => emit_sdiv(f, at, a, b),
        Binary::Rem => emit_srem(f, at, a, b),
        Binary::And => emit_band(f, at, a, b),
        Binary::Or => emit_bor(f, at, a, b),
    }
}

/// An operation on a word and a constant.
fn place_with_imm(f: &mut Function, at: u32, op: WithImm, a: u32, n: i64)
    requires
        ready(*old(f), at),
        has_value(*old(f), a),
    ensures
        extended(*old(f), *final(f), Built::Inst(at, StepView::WithImm(op, a, n))),
{
    match op {
        WithImm::Add => emit_iadd_imm(f, at, a, n),
        WithImm::Mul => emit_imul_imm(f, at, a, n),
        WithImm::Xor => emit_bxor_imm(f, at, a, n),
        WithImm::Shl => emit_ishl_imm(f, at, a, n),
        WithImm::ShrSigned => emit_sshr_imm(f, at, a, n),
        WithImm::ShrUnsigned => emit_ushr_imm(f, at, a, n),
    }
}

/// A call of a declared function.
fn place_call(m: &mut JITModule, f: &mut Function, at: u32, id: u32, args: &Vec<u32>)
    requires
        jit_declared(*old(m)).contains_key(id),
        jit_declared(*old(m))[id].1 <= 1,
        clif_callees(*old(f)).len() < CODE_LIMIT,
        ready(*old(f), at),
        all_below(args@, values_of(clif_code(*old(f)))),
    ensures
        same_module(*old(m), *final(m)),
        clif_code(*final(f)) == clif_code(*old(f)).push(
            Built::Call(at, id, args@, jit_declared(*old(m))[id].1),
        ),
        clif_signature(*final(f)) == clif_signature(*old(f)),
        clif_callees(*final(f)).len() == clif_callees(*old(f)).len() + 1,
{
    let callee = bring_in(m, id, f);
    emit_call(f, at, callee, args);
}

/// An instruction that corresponds to a step.
fn place_inst(f: &mut Function, at: u32, x: &Step) -> (r: bool)
    requires
        ready(*old(f), at),
        fits(x@, values_of(clif_code(*old(f))), blocks_of(clif_code(*old(f)))),
    ensures
        r == !(x@ is Block || x@ is Param || x@ is Switch || x@ is Seal || x@ is Trap || x@ is Call
            || x@ is Alloc || x@ is BoundsFail),
        r ==> extended(*old(f), *final(f), Built::Inst(at, x@)),
        !r ==> *final(f) == *old(f),
{
    match x {
        Step::Const(n) => emit_iconst(f, at, *n),
        Step::Binary(op, a, b) => place_binary(f, at, *op, *a, *b),
        Step::WithImm(op, a, n) => place_with_imm(f, at, *op, *a, *n),
        Step::Negate(a) => emit_ineg(f, at, *a),
        Step::Compare(r, a, b) => emit_icmp(f, at, *r, *a, *b),
        Step::Widen(a) => emit_uextend(f, at, *a),
        Step::Narrow(a) => emit_ireduce(f, at, *a),
        Step::Load(a, off) => emit_load(f, at, *a, *off),
        Step::Store(v, a, off) => emit_store(f, at, *v, *a, *off),
        Step::Jump(b, args) => emit_jump(f, at, *b, args),
        Step::Branch(c, yes, no, args) => emit_brif(f, at, *c, *yes, *no, args),
        Step::Table(v, arms, other) => emit_br_table(f, at, *v, arms, *other),
        Step::Return(v) => emit_return(f, at, *v),
        _ => {
            return false;
        },
    }
    true
}

/// Carries out a step.
fn place(m: &mut JITModule, l: &Links, x: &Step, f: &mut Function, at: &mut u32)
    requires
        linked(*old(m), l@),
        standing(*old(at), *old(f)),
        place_s(l@, x@, (SiteView { at: *old(at), code: clif_code(*old(f)) })) is Some,
    ensures
        same_module(*old(m), *final(m)),
        standing(*final(at), *final(f)),
        place_s(l@, x@, (SiteView { at: *old(at), code: clif_code(*old(f)) })) == Some(
            SiteView { at: *final(at), code: clif_code(*final(f)) },
        ),
        clif_signature(*final(f)) == clif_signature(*old(f)),
{
    let ghost before = clif_code(*f);
    let b = *at;
    match x {
        Step::Block => {
            make_block(f);
            proof {
                lemma_push(before, Built::Block);
            }
        },
        Step::Param(p) => {
            append_param(f, *p);
            proof {
                lemma_push(before, Built::Param(*p));
            }
        },
        Step::Switch(p) => {
            *at = *p;
        },
        Step::Seal(_) => {},
        Step::Trap => {
            emit_trap(f, b, TRAP_CODE);
            proof {
                lemma_push(before, Built::Trap(b, TRAP_CODE));
            }
        },
        Step::Call(i, args) => {
            let id = l.ids[*i];
            assert(jit_declared(*m).contains_key(l@.ids[*i as int]));
            place_call(m, f, b, id, args);
            proof {
                lemma_push(before, Built::Call(b, id, args@, 1));
            }
        },
        Step::Alloc(n) => {
            let mut args: Vec<u32> = Vec::new();
            args.push(*n);
            assert(args@ =~= seq![*n]);
            place_call(m, f, b, l.alloc, &args);
            proof {
                lemma_push(before, Built::Call(b, l.alloc, args@, 1));
            }
        },
        Step::BoundsFail(i, n) => {
            let mut args: Vec<u32> = Vec::new();
            args.push(*i);
            args.push(*n);
            assert(args@ =~= seq![*i, *n]);
            place_call(m, f, b, l.fail, &args);
            proof {
                lemma_push(before, Built::Call(b, l.fail, args@, 0));
            }
        },
        _ => {
            let _ = place_inst(f, b, x);
            proof {
                lemma_push(before, Built::Inst(b, x@));
            }
        },
    }
}

/// How many values a step makes.
fn values_made(x: &Step) -> (r: u32)
    ensures
        r == values_by(x@),
        r <= 1,
{
    match x {
        Step::Const(_) => 1,
        Step::Binary(_, _, _) => 1,
        Step::WithImm(_, _, _) => 1,
        Step::Negate(_) => 1,
        Step::Compare(_, _, _) => 1,
        Step::Widen(_) => 1,
        Step::Narrow(_) => 1,
        Step::Load(_, _) => 1,
        _ => 0,
    }
}

/// A function without code that takes so many words, and returns one or none.
fn header(m: &JITModule, words: usize, result: bool) -> (r: Function)
    ensures
        clif_code(r) == Seq::<Built>::empty(),
        clif_signature(r) == (words as nat, if result {
            1nat
        } else {
            0nat
        }),
        clif_callees(r) == Seq::<(u32, nat)>::empty(),
{
    let mut f = new_function(m);
    let mut i: usize = 0;
    while i < words
        invariant
            i <= words,
            clif_code(f) == Seq::<Built>::empty(),
            clif_signature(f) == (i as nat, 0nat),
            clif_callees(f) == Seq::<(u32, nat)>::empty(),
        decreases words - i,
    {
        add_param(&mut f);
        i = i + 1;
    }
    if result {
        add_result(&mut f);
    }
    f
}

/// Carries out the plan of a function.
fn build(m: &mut JITModule, l: &Links, words: usize, steps: &Vec<Step>) -> (r: Function)
    requires
        linked(*old(m), l@),
        code_s(l@, words, cl_code::steps_view(steps@)) is Some,
    ensures
        same_module(*old(m), *final(m)),
        code_s(l@, words, cl_code::steps_view(steps@)) == Some(clif_code(r)),
        blocks_of(clif_code(r)) > 0,
        clif_signature(r) == (words as nat, 1nat),
{
    let mut f = header(m, words, true);
    make_block(&mut f);
    proof {
        lemma_opening(0);
        assert(clif_code(f) =~= opening(0).code);
    }
    let mut i: usize = 0;
    while i < words
        invariant
            i <= words <= PARAM_LIMIT,
            clif_code(f) == opening(i as nat).code,
            clif_signature(f) == (words as nat, 1nat),
            clif_callees(f).len() == 0,
        decreases words - i,
    {
        proof {
            lemma_opening(i as nat);
        }
        append_param(&mut f, 0);
        i = i + 1;
    }
    proof {
        lemma_opening(words as nat);
    }
    let mut at: u32 = 0;
    let ghost v = cl_code::steps_view(steps@);
    let ghost start = opening(words as nat);
    let ghost m0 = *m;
    let mut i: usize = 0;
    while i < steps.len()
        invariant
            i <= steps.len(),
            v == cl_code::steps_view(steps@),
            start == opening(words as nat),
            m0 == *old(m),
            same_module(m0, *m),
            linked(m0, l@),
            standing(at, f),
            places_s(l@, v, v.len(), start) is Some,
            places_s(l@, v, i as nat, start) == Some(SiteView { at, code: clif_code(f) }),
            clif_signature(f) == (words as nat, 1nat),
        decreases steps.len() - i,
    {
        proof {
            assert(v[i as int] == steps@[i as int]@);
            if places_s(l@, v, (i + 1) as nat, start) is None {
                lemma_stays_malformed(l@, v, (i + 1) as nat, v.len(), start);
            }
        }
        place(m, l, &steps[i], &mut f, &mut at);
        i = i + 1;
    }
    f
}

// ---- programs -----------------------------------------------------------------------------------------

/// Why a module was not given the functions of a program.
#[derive(Debug, PartialEq, Eq)]
pub enum DefineError {
    /// The module does not verify what it compiles.
    Unverified,
    /// The plan of the function at that position has no room in a function.
    TooLarge(usize),
    /// The plan of the function at that position refers to what is not there.
    Malformed(usize),
    /// The code generator failed, in its own words.
    Generator(String),
}

impl DefineError {
    /// The failure as one of the backend.
    pub fn codegen_error(self) -> (r: CodegenError)
        ensures
            r@ == (CodegenErrorView::Backend(
                match self {
                    DefineError::Unverified => "the code generator does not verify functions"@,
                    DefineError::TooLarge(_) => "function too large"@,
                    DefineError::Malformed(_) => "malformed code"@,
                    DefineError::Generator(s) => s@,
                },
            )),
    {
        CodegenError::Backend(
            match self {
                DefineError::Unverified => "the code generator does not verify functions".to_owned(),
                DefineError::TooLarge(_) => "function too large".to_owned(),
                DefineError::Malformed(_) => "malformed code".to_owned(),
                DefineError::Generator(s) => s,
            },
        )
    }
}

/// Whether the plan of a function of a program cannot be carried out.
pub open spec fn unfit(fns: Seq<ClFuncView>) -> spec_fn(int) -> bool {
    |i: int| !well_formed(fns.len(), fns[i].words, fns[i].steps)
}

/// The refusal of a program: of the first function whose plan cannot be carried out.
pub open spec fn refusal(fns: Seq<ClFuncView>) -> Option<DefineError> {
    match find::first_from(unfit(fns), 0, fns.len() as int) {
        Some(i) => Some(
            if fns[i].words + fns[i].steps.len() + 1 > CODE_LIMIT {
                DefineError::TooLarge(i as usize)
            } else {
                DefineError::Malformed(i as usize)
            },
        ),
        None => None,
    }
}

/// The refusal of a program, if a plan of it cannot be carried out.
fn refuse(fns: &Vec<ClFunc>) -> (r: Option<DefineError>)
    ensures
        r == refusal(cl::cl_funcs_view(fns@)),
{
    let ghost v = cl::cl_funcs_view(fns@);
    proof {
        find::lemma_first_from(unfit(v), 0, v.len() as int);
    }
    let mut i: usize = 0;
    while i < fns.len()
        invariant
            i <= fns.len(),
            v == cl::cl_funcs_view(fns@),
            match find::first_from(unfit(v), 0, v.len() as int) {
                Some(k) => i <= k < v.len() && unfit(v)(k) && forall|j: int|
                    0 <= j < k ==> !(#[trigger] unfit(v)(j)),
                None => forall|j: int| 0 <= j < v.len() ==> !(#[trigger] unfit(v)(j)),
            },
        decreases fns.len() - i,
    {
        assert(v[i as int] == fns@[i as int]@);
        assert(cl_code::steps_view(fns@[i as int].steps@).len() == fns@[i as int].steps@.len());
        let n = fns[i].steps.len();
        let words = fns[i].words;
        let ok = is_well_formed(fns.len(), words, &fns[i].steps);
        assert(ok == !unfit(v)(i as int));
        if !ok {
            let limit = CODE_LIMIT as usize;
            return Some(
                if words >= limit || n >= limit || words + n + 1 > limit {
                    DefineError::TooLarge(i)
                } else {
                    DefineError::Malformed(i)
                },
            );
        }
        i = i + 1;
    }
    None
}

/// What one module declares, another declares too.
spec fn keeps_declared(a: JITModule, b: JITModule) -> bool {
    forall|id: u32| #[trigger]
        jit_declared(a).contains_key(id) ==> jit_declared(b).contains_key(id) && jit_declared(b)[id]
            == jit_declared(a)[id]
}

/// Declares a function of a name.
fn declare_as(m: &mut JITModule, name: &str, origin: Origin, words: usize, result: bool) -> (r: Result<
    u32,
    String,
>)
    ensures
        jit_defined(*final(m)) == jit_defined(*old(m)),
        jit_verifies(*final(m)) == jit_verifies(*old(m)),
        keeps_declared(*old(m), *final(m)),
        r matches Ok(id) ==> {
            &&& jit_declared(*final(m)).contains_key(id)
            &&& jit_declared(*final(m))[id] == (words as nat, if result {
                1nat
            } else {
                0nat
            })
            &&& jit_named(*final(m)) == jit_named(*old(m)).insert(name@, id)
            &&& jit_named(*old(m)).contains_key(name@) ==> jit_named(*old(m))[name@] == id
            &&& jit_definable(*final(m)) == if origin == Origin::Export {
                jit_definable(*old(m)).insert(id)
            } else {
                jit_definable(*old(m))
            }
        },
{
    let f = header(m, words, result);
    match declare(m, name, origin, &f) {
        Ok(id) => Ok(id),
        Err(e) => Err(module_error_text(&e)),
    }
}

/// The names of one module have the same numbers in another.
spec fn keeps_named(a: JITModule, b: JITModule) -> bool {
    forall|name: Seq<char>| #[trigger]
        jit_named(a).contains_key(name) ==> jit_named(b).contains_key(name) && jit_named(b)[name]
            == jit_named(a)[name]
}

/// The functions are declared under the given numbers, by name and with their
/// signatures.
pub open spec fn declared_as(m: JITModule, fns: Seq<ClFuncView>, ids: Seq<u32>, n: int) -> bool {
    forall|i: int|
        0 <= i < n ==> {
            &&& #[trigger] jit_declared(m).contains_key(ids[i])
            &&& jit_declared(m)[ids[i]] == (fns[i].words as nat, 1nat)
            &&& jit_named(m).contains_key(fns[i].symbol)
            &&& jit_named(m)[fns[i].symbol] == ids[i]
        }
}

/// Declares the functions of a program.
fn declare_all(m: &mut JITModule, fns: &Vec<ClFunc>) -> (r: Result<Vec<u32>, String>)
    ensures
        jit_defined(*final(m)) == jit_defined(*old(m)),
        jit_verifies(*final(m)) == jit_verifies(*old(m)),
        keeps_declared(*old(m), *final(m)),
        r matches Ok(ids) ==> {
            &&& ids@.len() == fns@.len()
            &&& declared_as(*final(m), cl::cl_funcs_view(fns@), ids@, fns@.len() as int)
            &&& keeps_named(*old(m), *final(m))
            &&& forall|id: u32| #[trigger]
                jit_definable(*final(m)).contains(id) ==> jit_definable(*old(m)).contains(id)
                    || ids@.contains(id)
        },
{
    let ghost m0 = *m;
    let ghost v = cl::cl_funcs_view(fns@);
    let mut ids: Vec<u32> = Vec::new();
    let mut i: usize = 0;
    while i < fns.len()
        invariant
            i <= fns.len(),
            ids@.len() == i,
            v == cl::cl_funcs_view(fns@),
            m0 == *old(m),
            jit_defined(*m) == jit_defined(m0),
            jit_verifies(*m) == jit_verifies(m0),
            keeps_declared(m0, *m),
            declared_as(*m, v, ids@, i as int),
            keeps_named(m0, *m),
            forall|id: u32| #[trigger]
                jit_definable(*m).contains(id) ==> jit_definable(m0).contains(id) || ids@.contains(
                    id,
                ),
        decreases fns.len() - i,
    {
        let ghost before = *m;
        let ghost held = ids@;
        match declare_as(m, fns[i].symbol.as_str(), Origin::Export, fns[i].words, true) {
            Ok(id) => {
                ids.push(id);
                assert(v[i as int] == fns@[i as int]@);
                assert(ids@[i as int] == id);
                assert forall|x: u32| #[trigger] jit_definable(*m).contains(x) implies jit_definable(
                    m0,
                ).contains(x) || ids@.contains(x) by {
                    if x != id {
                        assert(jit_definable(before).contains(x));
                        if held.contains(x) {
                            let k = choose|k: int| 0 <= k < held.len() && held[k] == x;
                            assert(ids@[k] == x);
                        }
                    }
                }
                assert forall|j: int| 0 <= j < i + 1 implies {
                    &&& #[trigger] jit_declared(*m).contains_key(ids@[j])
                    &&& jit_declared(*m)[ids@[j]] == (v[j].words as nat, 1nat)
                    &&& jit_named(*m).contains_key(v[j].symbol)
                    &&& jit_named(*m)[v[j].symbol] == ids@[j]
                } by {
                    if j < i {
                        assert(ids@[j] == held[j]);
                        assert(jit_declared(before).contains_key(held[j]));
                    }
                }
            },
            Err(e) => {
                return Err(e);
            },
        }
        i = i + 1;
    }
    Ok(ids)
}

/// The functions are defined under the given numbers, by their plans.
pub open spec fn defined_as(m: JITModule, l: LinksView, fns: Seq<ClFuncView>, n: int) -> bool {
    forall|i: int|
        0 <= i < n ==> {
            &&& #[trigger] jit_defined(m).contains_key(l.ids[i])
            &&& code_s(l, fns[i].words, fns[i].steps) == Some(jit_defined(m)[l.ids[i]])
        }
}

/// The definitions of one module are those of another, but for functions of the given
/// numbers.
pub open spec fn defines_only(a: JITModule, b: JITModule, ids: Seq<u32>) -> bool {
    &&& forall|id: u32| #[trigger]
        jit_defined(a).contains_key(id) ==> jit_defined(b).contains_key(id) && jit_defined(b)[id]
            == jit_defined(a)[id]
    &&& forall|id: u32| #[trigger]
        jit_defined(b).contains_key(id) ==> jit_defined(a).contains_key(id) || ids.contains(id)
}

/// Defines the functions of a program.
fn define_all(m: &mut JITModule, l: &Links, fns: &Vec<ClFunc>) -> (r: Result<(), String>)
    requires
        linked(*old(m), l@),
        l.ids@.len() == fns@.len(),
        jit_verifies(*old(m)),
        refusal(cl::cl_funcs_view(fns@)) is None,
    ensures
        jit_declared(*final(m)) == jit_declared(*old(m)),
        jit_named(*final(m)) == jit_named(*old(m)),
        jit_definable(*final(m)) == jit_definable(*old(m)),
        jit_verifies(*final(m)),
        defines_only(*old(m), *final(m), l.ids@),
        r is Ok ==> defined_as(*final(m), l@, cl::cl_funcs_view(fns@), fns@.len() as int),
{
    let ghost m0 = *m;
    let ghost v = cl::cl_funcs_view(fns@);
    proof {
        find::lemma_first_from(unfit(v), 0, v.len() as int);
    }
    let mut i: usize = 0;
    while i < fns.len()
        invariant
            i <= fns.len(),
            l.ids@.len() == fns@.len(),
            v == cl::cl_funcs_view(fns@),
            forall|j: int| 0 <= j < v.len() ==> !(#[trigger] unfit(v)(j)),
            m0 == *old(m),
            linked(m0, l@),
            jit_declared(*m) == jit_declared(m0),
            jit_named(*m) == jit_named(m0),
            jit_definable(*m) == jit_definable(m0),
            jit_verifies(*m),
            defines_only(m0, *m, l.ids@),
            defined_as(*m, l@, v, i as int),
        decreases fns.len() - i,
    {
        let ghost m1 = *m;
        assert(v[i as int] == fns@[i as int]@);
        assert(linked(*m, l@)) by {
            assert forall|j: int| 0 <= j < l@.ids.len() implies #[trigger] jit_declared(
                *m,
            ).contains_key(l@.ids[j]) && jit_declared(*m)[l@.ids[j]].1 == 1 by {
                assert(jit_declared(m0).contains_key(l@.ids[j]));
            }
        }
        proof {
            assert(!unfit(v)(i as int));
            lemma_numbers_are_incidental(l@, v[i as int].words, v[i as int].steps);
        }
        let f = build(m, l, fns[i].words, &fns[i].steps);
        let ghost code = clif_code(f);
        let id = l.ids[i];
        assert(jit_declared(m0).contains_key(l@.ids[i as int]));
        match define(m, id, f) {
            Ok(_) => {
                assert forall|j: int| 0 <= j < i + 1 implies {
                    &&& #[trigger] jit_defined(*m).contains_key(l@.ids[j])
                    &&& code_s(l@, v[j].words, v[j].steps) == Some(jit_defined(*m)[l@.ids[j]])
                } by {
                    if j < i {
                        assert(jit_defined(m1).contains_key(l@.ids[j]));
                    } else {
                        assert(code_s(l@, v[j].words, v[j].steps) == Some(code));
                    }
                }
                assert(defined_as(*m, l@, v, i + 1));
                assert(defines_only(m0, *m, l.ids@)) by {
                    assert(l.ids@.contains(id));
                    assert forall|x: u32| #[trigger] jit_defined(m0).contains_key(x) implies {
                        &&& jit_defined(*m).contains_key(x)
                        &&& jit_defined(*m)[x] == jit_defined(m0)[x]
                    } by {
                        assert(jit_defined(m1).contains_key(x));
                    }
                    assert forall|x: u32| #[trigger] jit_defined(*m).contains_key(x) implies {
                        jit_defined(m0).contains_key(x) || l.ids@.contains(x)
                    } by {
                        if x != id {
                            assert(jit_defined(m1).contains_key(x));
                        }
                    }
                }
            },
            Err(e) => {
                return Err(module_error_text(&e));
            },
        }
        i = i + 1;
    }
    Ok(())
}

/// A module holds a program: its functions are declared and defined under their
/// symbols, with the code of their plans, and their calls of the allocator and of the
/// bounds report lead to what the module knows under the names of these.
pub open spec fn holds(m: JITModule, fns: Seq<ClFuncView>, l: LinksView) -> bool {
    &&& l.ids.len() == fns.len()
    &&& declared_as(m, fns, l.ids, fns.len() as int)
    &&& defined_as(m, l, fns, fns.len() as int)
    &&& jit_named(m).contains_key("marv_rt_alloc"@)
    &&& jit_named(m)["marv_rt_alloc"@] == l.alloc
    &&& jit_declared(m).contains_key(l.alloc)
    &&& jit_declared(m)[l.alloc] == (1nat, 1nat)
    &&& jit_named(m).contains_key("marv_rt_bounds_fail"@)
    &&& jit_named(m)["marv_rt_bounds_fail"@] == l.fail
    &&& jit_declared(m).contains_key(l.fail)
    &&& jit_declared(m)[l.fail] == (2nat, 0nat)
}

/// What a module can be given definitions of, beside functions of the given numbers,
/// was so before: what a program imports is left to come from elsewhere.
pub open spec fn imports_stay_open(a: JITModule, b: JITModule, ids: Seq<u32>) -> bool {
    forall|id: u32| #[trigger]
        jit_definable(b).contains(id) ==> jit_definable(a).contains(id) || ids.contains(id)
}

impl JitProgram {
    /// Gives a module the functions of the program, each under its symbol, with
    /// the code of its plan. The result says by which numbers the module knows
    /// them, and those of the two functions that it imports:
    /// `marv_rt_alloc`, the allocator, and `marv_rt_bounds_fail`, the report of a
    /// position outside a length.
    ///
    /// It refuses a module that does not verify what it compiles, and then a program
    /// with a plan that is not well formed or too large; the module is then as it was.
    /// Any other failure is one of the code generator. When there is one is not
    /// stated: it rests with the code generator's verifier and the machine.
    pub fn define_in(&self, m: &mut JITModule) -> (r: Result<Links, DefineError>)
        ensures
            if !jit_verifies(*old(m)) {
                r == Err::<Links, DefineError>(DefineError::Unverified) && *final(m) == *old(m)
            } else {
                match refusal(self@.functions) {
                    Some(e) => r == Err::<Links, DefineError>(e) && *final(m) == *old(m),
                    None => match r {
                        Ok(l) => {
                            &&& holds(*final(m), self@.functions, l@)
                            &&& defines_only(*old(m), *final(m), l.ids@)
                            &&& imports_stay_open(*old(m), *final(m), l.ids@)
                            &&& jit_verifies(*final(m))
                        },
                        Err(e) => e is Generator,
                    },
                }
            },
    {
        if !verifies(m) {
            return Err(DefineError::Unverified);
        }
        if let Some(e) = refuse(&self.functions) {
            return Err(e);
        }
        let ghost m0 = *m;
        let alloc = match declare_as(m, "marv_rt_alloc", Origin::Import, 1, true) {
            Ok(id) => id,
            Err(e) => {
                return Err(DefineError::Generator(e));
            },
        };
        let ghost m1 = *m;
        let fail = match declare_as(m, "marv_rt_bounds_fail", Origin::Import, 2, false) {
            Ok(id) => id,
            Err(e) => {
                return Err(DefineError::Generator(e));
            },
        };
        let ghost m2 = *m;
        proof {
            assert(jit_declared(m1).contains_key(alloc));
            assert(jit_declared(m2).contains_key(alloc));
            assert(jit_declared(m2).contains_key(fail));
            reveal_strlit("marv_rt_alloc");
            reveal_strlit("marv_rt_bounds_fail");
            assert("marv_rt_alloc"@.len() != "marv_rt_bounds_fail"@.len());
            assert(jit_named(m2).contains_key("marv_rt_alloc"@));
            assert(jit_named(m2).contains_key("marv_rt_bounds_fail"@));
        }
        match declare_all(m, &self.functions) {
            Ok(ids) => {
                let l = Links { ids, alloc, fail };
                proof {
                    assert forall|i: int| 0 <= i < l@.ids.len() implies #[trigger] jit_declared(
                        *m,
                    ).contains_key(l@.ids[i]) && jit_declared(*m)[l@.ids[i]].1 == 1 by {
                        assert(jit_declared(*m).contains_key(ids@[i]));
                    }
                }
                let ghost m3 = *m;
                match define_all(m, &l, &self.functions) {
                    Ok(_) => {
                        proof {
                            assert forall|i: int| 0 <= i < self.functions@.len() implies {
                                &&& #[trigger] jit_declared(*m).contains_key(l.ids@[i])
                                &&& jit_declared(*m)[l.ids@[i]] == (
                                    self@.functions[i].words as nat,
                                    1nat,
                                )
                                &&& jit_named(*m).contains_key(self@.functions[i].symbol)
                                &&& jit_named(*m)[self@.functions[i].symbol] == l.ids@[i]
                            } by {
                                assert(jit_declared(m3).contains_key(l.ids@[i]));
                            }
                        }
                        Ok(l)
                    },
                    Err(e) => Err(DefineError::Generator(e)),
                }
            },
            Err(e) => Err(DefineError::Generator(e)),
        }
    }
}

} // verus!
