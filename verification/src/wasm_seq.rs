//! The instruction sequences that the WebAssembly backend emits.
//!
//! Every value is a 64-bit word; an aggregate is a pointer to a block of words
//! in linear memory. The header of a block is its tag or its length; a list has
//! its capacity in a second header word.
use vstd::prelude::*;

use crate::wasm_code::{Arith, Indexed, Inst, MEMORY, Plain, Region, Test, WORD_ALIGN};

verus! {

/// All bits set.
pub const MINUS_ONE: i64 = -1;

/// All bits set, in 32 bits: what growing memory gives where it fails.
pub const MINUS_ONE_32: i32 = -1;

/// Read a local.
#[verifier::opaque]
pub open spec fn get_code(x: u32) -> Seq<Inst> {
    seq![
        Inst::Indexed(Indexed::Get(x)),
    ]
}

pub fn get_code_of(x: u32) -> (code: Vec<Inst>)
    ensures
        code@ == get_code(x),
{
    let insts: Vec<Inst> = vec![
        Inst::Indexed(Indexed::Get(x)),
    ];
    proof {
        reveal(get_code);
    }
    assert(insts@ =~= get_code(x));
    insts
}

/// Write a local.
#[verifier::opaque]
pub open spec fn put_code(x: u32) -> Seq<Inst> {
    seq![
        Inst::Indexed(Indexed::Put(x)),
    ]
}

pub fn put_code_of(x: u32) -> (code: Vec<Inst>)
    ensures
        code@ == put_code(x),
{
    let insts: Vec<Inst> = vec![
        Inst::Indexed(Indexed::Put(x)),
    ];
    proof {
        reveal(put_code);
    }
    assert(insts@ =~= put_code(x));
    insts
}

/// A constant.
#[verifier::opaque]
pub open spec fn const_code(n: i64) -> Seq<Inst> {
    seq![
        Inst::Indexed(Indexed::Const(n)),
    ]
}

pub fn const_code_of(n: i64) -> (code: Vec<Inst>)
    ensures
        code@ == const_code(n),
{
    let insts: Vec<Inst> = vec![
        Inst::Indexed(Indexed::Const(n)),
    ];
    proof {
        reveal(const_code);
    }
    assert(insts@ =~= const_code(n));
    insts
}

/// A local with a constant.
#[verifier::opaque]
pub open spec fn const_put_code(n: i64, x: u32) -> Seq<Inst> {
    seq![
        Inst::Indexed(Indexed::Const(n)),
        Inst::Indexed(Indexed::Put(x)),
    ]
}

pub fn const_put_code_of(n: i64, x: u32) -> (code: Vec<Inst>)
    ensures
        code@ == const_put_code(n, x),
{
    let insts: Vec<Inst> = vec![
        Inst::Indexed(Indexed::Const(n)),
        Inst::Indexed(Indexed::Put(x)),
    ];
    proof {
        reveal(const_put_code);
    }
    assert(insts@ =~= const_put_code(n, x));
    insts
}

/// `r` becomes `x + n`.
#[verifier::opaque]
pub open spec fn plus_code(x: u32, n: i64, r: u32) -> Seq<Inst> {
    seq![
        Inst::Indexed(Indexed::Get(x)),
        Inst::Indexed(Indexed::Const(n)),
        Inst::Arith(Arith::Add),
        Inst::Indexed(Indexed::Put(r)),
    ]
}

pub fn plus_code_of(x: u32, n: i64, r: u32) -> (code: Vec<Inst>)
    ensures
        code@ == plus_code(x, n, r),
{
    let insts: Vec<Inst> = vec![
        Inst::Indexed(Indexed::Get(x)),
        Inst::Indexed(Indexed::Const(n)),
        Inst::Arith(Arith::Add),
        Inst::Indexed(Indexed::Put(r)),
    ];
    proof {
        reveal(plus_code);
    }
    assert(insts@ =~= plus_code(x, n, r));
    insts
}

/// `r` becomes `x + y`.
#[verifier::opaque]
pub open spec fn sum_code(x: u32, y: u32, r: u32) -> Seq<Inst> {
    seq![
        Inst::Indexed(Indexed::Get(x)),
        Inst::Indexed(Indexed::Get(y)),
        Inst::Arith(Arith::Add),
        Inst::Indexed(Indexed::Put(r)),
    ]
}

pub fn sum_code_of(x: u32, y: u32, r: u32) -> (code: Vec<Inst>)
    ensures
        code@ == sum_code(x, y, r),
{
    let insts: Vec<Inst> = vec![
        Inst::Indexed(Indexed::Get(x)),
        Inst::Indexed(Indexed::Get(y)),
        Inst::Arith(Arith::Add),
        Inst::Indexed(Indexed::Put(r)),
    ];
    proof {
        reveal(sum_code);
    }
    assert(insts@ =~= sum_code(x, y, r));
    insts
}

/// `r` becomes `x - y`.
#[verifier::opaque]
pub open spec fn diff_code(x: u32, y: u32, r: u32) -> Seq<Inst> {
    seq![
        Inst::Indexed(Indexed::Get(x)),
        Inst::Indexed(Indexed::Get(y)),
        Inst::Arith(Arith::Sub),
        Inst::Indexed(Indexed::Put(r)),
    ]
}

pub fn diff_code_of(x: u32, y: u32, r: u32) -> (code: Vec<Inst>)
    ensures
        code@ == diff_code(x, y, r),
{
    let insts: Vec<Inst> = vec![
        Inst::Indexed(Indexed::Get(x)),
        Inst::Indexed(Indexed::Get(y)),
        Inst::Arith(Arith::Sub),
        Inst::Indexed(Indexed::Put(r)),
    ];
    proof {
        reveal(diff_code);
    }
    assert(insts@ =~= diff_code(x, y, r));
    insts
}

/// `r` becomes `x`.
#[verifier::opaque]
pub open spec fn move_code(x: u32, r: u32) -> Seq<Inst> {
    seq![
        Inst::Indexed(Indexed::Get(x)),
        Inst::Indexed(Indexed::Put(r)),
    ]
}

pub fn move_code_of(x: u32, r: u32) -> (code: Vec<Inst>)
    ensures
        code@ == move_code(x, r),
{
    let insts: Vec<Inst> = vec![
        Inst::Indexed(Indexed::Get(x)),
        Inst::Indexed(Indexed::Put(r)),
    ];
    proof {
        reveal(move_code);
    }
    assert(insts@ =~= move_code(x, r));
    insts
}

/// Grow memory until it holds the byte offset `end`, or trap.
#[verifier::opaque]
pub open spec fn heap_code(end: u32, pages: u32, bytes: u32, needed: u32) -> Seq<Inst> {
    seq![
        Inst::Indexed(Indexed::MemorySize(0)),
        Inst::Plain(Plain::Extend),
        Inst::Indexed(Indexed::Put(pages)),
        Inst::Indexed(Indexed::Get(pages)),
        Inst::Indexed(Indexed::Const(65536)),
        Inst::Arith(Arith::Mul),
        Inst::Indexed(Indexed::Put(bytes)),
        Inst::Indexed(Indexed::Get(end)),
        Inst::Indexed(Indexed::Get(bytes)),
        Inst::Test(Test::GtU),
        Inst::Region(Region::If),
        Inst::Indexed(Indexed::Get(end)),
        Inst::Indexed(Indexed::Const(65535)),
        Inst::Arith(Arith::Add),
        Inst::Indexed(Indexed::Const(65536)),
        Inst::Arith(Arith::DivU),
        Inst::Indexed(Indexed::Put(needed)),
        Inst::Indexed(Indexed::Get(needed)),
        Inst::Indexed(Indexed::Get(pages)),
        Inst::Arith(Arith::Sub),
        Inst::Plain(Plain::Wrap),
        Inst::Indexed(Indexed::MemoryGrow(0)),
        Inst::Indexed(Indexed::Const32(MINUS_ONE_32)),
        Inst::Plain(Plain::Eq32),
        Inst::Region(Region::If),
        Inst::Plain(Plain::Unreachable),
        Inst::Plain(Plain::End),
        Inst::Plain(Plain::End),
    ]
}

pub fn heap_code_of(end: u32, pages: u32, bytes: u32, needed: u32) -> (code: Vec<Inst>)
    ensures
        code@ == heap_code(end, pages, bytes, needed),
{
    let insts: Vec<Inst> = vec![
        Inst::Indexed(Indexed::MemorySize(0)),
        Inst::Plain(Plain::Extend),
        Inst::Indexed(Indexed::Put(pages)),
        Inst::Indexed(Indexed::Get(pages)),
        Inst::Indexed(Indexed::Const(65536)),
        Inst::Arith(Arith::Mul),
        Inst::Indexed(Indexed::Put(bytes)),
        Inst::Indexed(Indexed::Get(end)),
        Inst::Indexed(Indexed::Get(bytes)),
        Inst::Test(Test::GtU),
        Inst::Region(Region::If),
        Inst::Indexed(Indexed::Get(end)),
        Inst::Indexed(Indexed::Const(65535)),
        Inst::Arith(Arith::Add),
        Inst::Indexed(Indexed::Const(65536)),
        Inst::Arith(Arith::DivU),
        Inst::Indexed(Indexed::Put(needed)),
        Inst::Indexed(Indexed::Get(needed)),
        Inst::Indexed(Indexed::Get(pages)),
        Inst::Arith(Arith::Sub),
        Inst::Plain(Plain::Wrap),
        Inst::Indexed(Indexed::MemoryGrow(0)),
        Inst::Indexed(Indexed::Const32(MINUS_ONE_32)),
        Inst::Plain(Plain::Eq32),
        Inst::Region(Region::If),
        Inst::Plain(Plain::Unreachable),
        Inst::Plain(Plain::End),
        Inst::Plain(Plain::End),
    ];
    proof {
        reveal(heap_code);
    }
    assert(insts@ =~= heap_code(end, pages, bytes, needed));
    insts
}

/// `base` is the free memory, `end` the byte offset `total` after it.
#[verifier::opaque]
pub open spec fn bump_code(total: i64, base: u32, end: u32) -> Seq<Inst> {
    seq![
        Inst::Indexed(Indexed::GlobalGet(0)),
        Inst::Indexed(Indexed::Tee(base)),
        Inst::Indexed(Indexed::Const(total)),
        Inst::Arith(Arith::Add),
        Inst::Indexed(Indexed::Put(end)),
    ]
}

pub fn bump_code_of(total: i64, base: u32, end: u32) -> (code: Vec<Inst>)
    ensures
        code@ == bump_code(total, base, end),
{
    let insts: Vec<Inst> = vec![
        Inst::Indexed(Indexed::GlobalGet(0)),
        Inst::Indexed(Indexed::Tee(base)),
        Inst::Indexed(Indexed::Const(total)),
        Inst::Arith(Arith::Add),
        Inst::Indexed(Indexed::Put(end)),
    ];
    proof {
        reveal(bump_code);
    }
    assert(insts@ =~= bump_code(total, base, end));
    insts
}

/// As `bump_code`, for a number of words known at run time.
#[verifier::opaque]
pub open spec fn bump_dyn_code(words: u32, base: u32, end: u32) -> Seq<Inst> {
    seq![
        Inst::Indexed(Indexed::GlobalGet(0)),
        Inst::Indexed(Indexed::Tee(base)),
        Inst::Indexed(Indexed::Get(words)),
        Inst::Indexed(Indexed::Const(8)),
        Inst::Arith(Arith::Mul),
        Inst::Arith(Arith::Add),
        Inst::Indexed(Indexed::Put(end)),
    ]
}

pub fn bump_dyn_code_of(words: u32, base: u32, end: u32) -> (code: Vec<Inst>)
    ensures
        code@ == bump_dyn_code(words, base, end),
{
    let insts: Vec<Inst> = vec![
        Inst::Indexed(Indexed::GlobalGet(0)),
        Inst::Indexed(Indexed::Tee(base)),
        Inst::Indexed(Indexed::Get(words)),
        Inst::Indexed(Indexed::Const(8)),
        Inst::Arith(Arith::Mul),
        Inst::Arith(Arith::Add),
        Inst::Indexed(Indexed::Put(end)),
    ];
    proof {
        reveal(bump_dyn_code);
    }
    assert(insts@ =~= bump_dyn_code(words, base, end));
    insts
}

/// The free memory starts at `end`.
#[verifier::opaque]
pub open spec fn commit_code(end: u32) -> Seq<Inst> {
    seq![
        Inst::Indexed(Indexed::Get(end)),
        Inst::Indexed(Indexed::GlobalSet(0)),
    ]
}

pub fn commit_code_of(end: u32) -> (code: Vec<Inst>)
    ensures
        code@ == commit_code(end),
{
    let insts: Vec<Inst> = vec![
        Inst::Indexed(Indexed::Get(end)),
        Inst::Indexed(Indexed::GlobalSet(0)),
    ];
    proof {
        reveal(commit_code);
    }
    assert(insts@ =~= commit_code(end));
    insts
}

/// The address of a block.
#[verifier::opaque]
pub open spec fn addr_code(base: u32) -> Seq<Inst> {
    seq![
        Inst::Indexed(Indexed::Get(base)),
        Inst::Plain(Plain::Wrap),
    ]
}

pub fn addr_code_of(base: u32) -> (code: Vec<Inst>)
    ensures
        code@ == addr_code(base),
{
    let insts: Vec<Inst> = vec![
        Inst::Indexed(Indexed::Get(base)),
        Inst::Plain(Plain::Wrap),
    ];
    proof {
        reveal(addr_code);
    }
    assert(insts@ =~= addr_code(base));
    insts
}

/// Store a word at an offset.
#[verifier::opaque]
pub open spec fn store_code(at: u64) -> Seq<Inst> {
    seq![
        Inst::Region(Region::Store(at, WORD_ALIGN, MEMORY)),
    ]
}

pub fn store_code_of(at: u64) -> (code: Vec<Inst>)
    ensures
        code@ == store_code(at),
{
    let insts: Vec<Inst> = vec![
        Inst::Region(Region::Store(at, WORD_ALIGN, MEMORY)),
    ];
    proof {
        reveal(store_code);
    }
    assert(insts@ =~= store_code(at));
    insts
}

/// Store a constant header.
#[verifier::opaque]
pub open spec fn store_tag_code(base: u32, tag: i64) -> Seq<Inst> {
    seq![
        Inst::Indexed(Indexed::Get(base)),
        Inst::Plain(Plain::Wrap),
        Inst::Indexed(Indexed::Const(tag)),
        Inst::Region(Region::Store(0, WORD_ALIGN, MEMORY)),
    ]
}

pub fn store_tag_code_of(base: u32, tag: i64) -> (code: Vec<Inst>)
    ensures
        code@ == store_tag_code(base, tag),
{
    let insts: Vec<Inst> = vec![
        Inst::Indexed(Indexed::Get(base)),
        Inst::Plain(Plain::Wrap),
        Inst::Indexed(Indexed::Const(tag)),
        Inst::Region(Region::Store(0, WORD_ALIGN, MEMORY)),
    ];
    proof {
        reveal(store_tag_code);
    }
    assert(insts@ =~= store_tag_code(base, tag));
    insts
}

/// Store a local at an offset.
#[verifier::opaque]
pub open spec fn store_local_code(base: u32, at: u64, x: u32) -> Seq<Inst> {
    seq![
        Inst::Indexed(Indexed::Get(base)),
        Inst::Plain(Plain::Wrap),
        Inst::Indexed(Indexed::Get(x)),
        Inst::Region(Region::Store(at, WORD_ALIGN, MEMORY)),
    ]
}

pub fn store_local_code_of(base: u32, at: u64, x: u32) -> (code: Vec<Inst>)
    ensures
        code@ == store_local_code(base, at, x),
{
    let insts: Vec<Inst> = vec![
        Inst::Indexed(Indexed::Get(base)),
        Inst::Plain(Plain::Wrap),
        Inst::Indexed(Indexed::Get(x)),
        Inst::Region(Region::Store(at, WORD_ALIGN, MEMORY)),
    ];
    proof {
        reveal(store_local_code);
    }
    assert(insts@ =~= store_local_code(base, at, x));
    insts
}

/// Store `x + n` as the header.
#[verifier::opaque]
pub open spec fn store_plus_code(base: u32, x: u32, n: i64) -> Seq<Inst> {
    seq![
        Inst::Indexed(Indexed::Get(base)),
        Inst::Plain(Plain::Wrap),
        Inst::Indexed(Indexed::Get(x)),
        Inst::Indexed(Indexed::Const(n)),
        Inst::Arith(Arith::Add),
        Inst::Region(Region::Store(0, WORD_ALIGN, MEMORY)),
    ]
}

pub fn store_plus_code_of(base: u32, x: u32, n: i64) -> (code: Vec<Inst>)
    ensures
        code@ == store_plus_code(base, x, n),
{
    let insts: Vec<Inst> = vec![
        Inst::Indexed(Indexed::Get(base)),
        Inst::Plain(Plain::Wrap),
        Inst::Indexed(Indexed::Get(x)),
        Inst::Indexed(Indexed::Const(n)),
        Inst::Arith(Arith::Add),
        Inst::Region(Region::Store(0, WORD_ALIGN, MEMORY)),
    ];
    proof {
        reveal(store_plus_code);
    }
    assert(insts@ =~= store_plus_code(base, x, n));
    insts
}

/// Store `x - n` as the header.
#[verifier::opaque]
pub open spec fn store_minus_code(base: u32, x: u32, n: i64) -> Seq<Inst> {
    seq![
        Inst::Indexed(Indexed::Get(base)),
        Inst::Plain(Plain::Wrap),
        Inst::Indexed(Indexed::Get(x)),
        Inst::Indexed(Indexed::Const(n)),
        Inst::Arith(Arith::Sub),
        Inst::Region(Region::Store(0, WORD_ALIGN, MEMORY)),
    ]
}

pub fn store_minus_code_of(base: u32, x: u32, n: i64) -> (code: Vec<Inst>)
    ensures
        code@ == store_minus_code(base, x, n),
{
    let insts: Vec<Inst> = vec![
        Inst::Indexed(Indexed::Get(base)),
        Inst::Plain(Plain::Wrap),
        Inst::Indexed(Indexed::Get(x)),
        Inst::Indexed(Indexed::Const(n)),
        Inst::Arith(Arith::Sub),
        Inst::Region(Region::Store(0, WORD_ALIGN, MEMORY)),
    ];
    proof {
        reveal(store_minus_code);
    }
    assert(insts@ =~= store_minus_code(base, x, n));
    insts
}

/// The word at an offset of a block.
#[verifier::opaque]
pub open spec fn load_code(base: u32, at: u64) -> Seq<Inst> {
    seq![
        Inst::Indexed(Indexed::Get(base)),
        Inst::Plain(Plain::Wrap),
        Inst::Region(Region::Load(at, WORD_ALIGN, MEMORY)),
    ]
}

pub fn load_code_of(base: u32, at: u64) -> (code: Vec<Inst>)
    ensures
        code@ == load_code(base, at),
{
    let insts: Vec<Inst> = vec![
        Inst::Indexed(Indexed::Get(base)),
        Inst::Plain(Plain::Wrap),
        Inst::Region(Region::Load(at, WORD_ALIGN, MEMORY)),
    ];
    proof {
        reveal(load_code);
    }
    assert(insts@ =~= load_code(base, at));
    insts
}

/// `r` becomes the word at an offset of a block.
#[verifier::opaque]
pub open spec fn load_put_code(base: u32, at: u64, r: u32) -> Seq<Inst> {
    seq![
        Inst::Indexed(Indexed::Get(base)),
        Inst::Plain(Plain::Wrap),
        Inst::Region(Region::Load(at, WORD_ALIGN, MEMORY)),
        Inst::Indexed(Indexed::Put(r)),
    ]
}

pub fn load_put_code_of(base: u32, at: u64, r: u32) -> (code: Vec<Inst>)
    ensures
        code@ == load_put_code(base, at, r),
{
    let insts: Vec<Inst> = vec![
        Inst::Indexed(Indexed::Get(base)),
        Inst::Plain(Plain::Wrap),
        Inst::Region(Region::Load(at, WORD_ALIGN, MEMORY)),
        Inst::Indexed(Indexed::Put(r)),
    ];
    proof {
        reveal(load_put_code);
    }
    assert(insts@ =~= load_put_code(base, at, r));
    insts
}

/// Trap unless `i` is below the length in the header. The test is unsigned, so it covers negative positions.
#[verifier::opaque]
pub open spec fn bounds_code(ptr: u32, i: u32) -> Seq<Inst> {
    seq![
        Inst::Indexed(Indexed::Get(i)),
        Inst::Indexed(Indexed::Get(ptr)),
        Inst::Plain(Plain::Wrap),
        Inst::Region(Region::Load(0, WORD_ALIGN, MEMORY)),
        Inst::Test(Test::GeU),
        Inst::Region(Region::If),
        Inst::Plain(Plain::Unreachable),
        Inst::Plain(Plain::End),
    ]
}

pub fn bounds_code_of(ptr: u32, i: u32) -> (code: Vec<Inst>)
    ensures
        code@ == bounds_code(ptr, i),
{
    let insts: Vec<Inst> = vec![
        Inst::Indexed(Indexed::Get(i)),
        Inst::Indexed(Indexed::Get(ptr)),
        Inst::Plain(Plain::Wrap),
        Inst::Region(Region::Load(0, WORD_ALIGN, MEMORY)),
        Inst::Test(Test::GeU),
        Inst::Region(Region::If),
        Inst::Plain(Plain::Unreachable),
        Inst::Plain(Plain::End),
    ];
    proof {
        reveal(bounds_code);
    }
    assert(insts@ =~= bounds_code(ptr, i));
    insts
}

/// Store `v` at element `i`, after `header` words.
#[verifier::opaque]
pub open spec fn set_word_code(ptr: u32, i: u32, header: i64, v: u32) -> Seq<Inst> {
    seq![
        Inst::Indexed(Indexed::Get(ptr)),
        Inst::Indexed(Indexed::Get(i)),
        Inst::Indexed(Indexed::Const(header)),
        Inst::Arith(Arith::Add),
        Inst::Indexed(Indexed::Const(8)),
        Inst::Arith(Arith::Mul),
        Inst::Arith(Arith::Add),
        Inst::Plain(Plain::Wrap),
        Inst::Indexed(Indexed::Get(v)),
        Inst::Region(Region::Store(0, WORD_ALIGN, MEMORY)),
    ]
}

pub fn set_word_code_of(ptr: u32, i: u32, header: i64, v: u32) -> (code: Vec<Inst>)
    ensures
        code@ == set_word_code(ptr, i, header, v),
{
    let insts: Vec<Inst> = vec![
        Inst::Indexed(Indexed::Get(ptr)),
        Inst::Indexed(Indexed::Get(i)),
        Inst::Indexed(Indexed::Const(header)),
        Inst::Arith(Arith::Add),
        Inst::Indexed(Indexed::Const(8)),
        Inst::Arith(Arith::Mul),
        Inst::Arith(Arith::Add),
        Inst::Plain(Plain::Wrap),
        Inst::Indexed(Indexed::Get(v)),
        Inst::Region(Region::Store(0, WORD_ALIGN, MEMORY)),
    ];
    proof {
        reveal(set_word_code);
    }
    assert(insts@ =~= set_word_code(ptr, i, header, v));
    insts
}

/// Copy `total` words.
#[verifier::opaque]
pub open spec fn copy_code(src: u32, dst: u32, total: u32, k: u32) -> Seq<Inst> {
    seq![
        Inst::Indexed(Indexed::Const(0)),
        Inst::Indexed(Indexed::Put(k)),
        Inst::Region(Region::Block),
        Inst::Region(Region::Loop),
        Inst::Indexed(Indexed::Get(k)),
        Inst::Indexed(Indexed::Get(total)),
        Inst::Test(Test::LtU),
        Inst::Plain(Plain::Eqz32),
        Inst::Indexed(Indexed::BrIf(1)),
        Inst::Indexed(Indexed::Get(dst)),
        Inst::Indexed(Indexed::Get(k)),
        Inst::Indexed(Indexed::Const(8)),
        Inst::Arith(Arith::Mul),
        Inst::Arith(Arith::Add),
        Inst::Plain(Plain::Wrap),
        Inst::Indexed(Indexed::Get(src)),
        Inst::Indexed(Indexed::Get(k)),
        Inst::Indexed(Indexed::Const(8)),
        Inst::Arith(Arith::Mul),
        Inst::Arith(Arith::Add),
        Inst::Plain(Plain::Wrap),
        Inst::Region(Region::Load(0, WORD_ALIGN, MEMORY)),
        Inst::Region(Region::Store(0, WORD_ALIGN, MEMORY)),
        Inst::Indexed(Indexed::Get(k)),
        Inst::Indexed(Indexed::Const(1)),
        Inst::Arith(Arith::Add),
        Inst::Indexed(Indexed::Put(k)),
        Inst::Indexed(Indexed::Br(0)),
        Inst::Plain(Plain::End),
        Inst::Plain(Plain::End),
    ]
}

pub fn copy_code_of(src: u32, dst: u32, total: u32, k: u32) -> (code: Vec<Inst>)
    ensures
        code@ == copy_code(src, dst, total, k),
{
    let insts: Vec<Inst> = vec![
        Inst::Indexed(Indexed::Const(0)),
        Inst::Indexed(Indexed::Put(k)),
        Inst::Region(Region::Block),
        Inst::Region(Region::Loop),
        Inst::Indexed(Indexed::Get(k)),
        Inst::Indexed(Indexed::Get(total)),
        Inst::Test(Test::LtU),
        Inst::Plain(Plain::Eqz32),
        Inst::Indexed(Indexed::BrIf(1)),
        Inst::Indexed(Indexed::Get(dst)),
        Inst::Indexed(Indexed::Get(k)),
        Inst::Indexed(Indexed::Const(8)),
        Inst::Arith(Arith::Mul),
        Inst::Arith(Arith::Add),
        Inst::Plain(Plain::Wrap),
        Inst::Indexed(Indexed::Get(src)),
        Inst::Indexed(Indexed::Get(k)),
        Inst::Indexed(Indexed::Const(8)),
        Inst::Arith(Arith::Mul),
        Inst::Arith(Arith::Add),
        Inst::Plain(Plain::Wrap),
        Inst::Region(Region::Load(0, WORD_ALIGN, MEMORY)),
        Inst::Region(Region::Store(0, WORD_ALIGN, MEMORY)),
        Inst::Indexed(Indexed::Get(k)),
        Inst::Indexed(Indexed::Const(1)),
        Inst::Arith(Arith::Add),
        Inst::Indexed(Indexed::Put(k)),
        Inst::Indexed(Indexed::Br(0)),
        Inst::Plain(Plain::End),
        Inst::Plain(Plain::End),
    ];
    proof {
        reveal(copy_code);
    }
    assert(insts@ =~= copy_code(src, dst, total, k));
    insts
}

/// Copy `count` words, from position `from` to position `to`.
#[verifier::opaque]
pub open spec fn copy_range_code(src: u32, from: u32, dst: u32, to: u32, count: u32, k: u32) -> Seq<Inst> {
    seq![
        Inst::Indexed(Indexed::Const(0)),
        Inst::Indexed(Indexed::Put(k)),
        Inst::Region(Region::Block),
        Inst::Region(Region::Loop),
        Inst::Indexed(Indexed::Get(k)),
        Inst::Indexed(Indexed::Get(count)),
        Inst::Test(Test::LtU),
        Inst::Plain(Plain::Eqz32),
        Inst::Indexed(Indexed::BrIf(1)),
        Inst::Indexed(Indexed::Get(dst)),
        Inst::Indexed(Indexed::Get(to)),
        Inst::Indexed(Indexed::Get(k)),
        Inst::Arith(Arith::Add),
        Inst::Indexed(Indexed::Const(8)),
        Inst::Arith(Arith::Mul),
        Inst::Arith(Arith::Add),
        Inst::Plain(Plain::Wrap),
        Inst::Indexed(Indexed::Get(src)),
        Inst::Indexed(Indexed::Get(from)),
        Inst::Indexed(Indexed::Get(k)),
        Inst::Arith(Arith::Add),
        Inst::Indexed(Indexed::Const(8)),
        Inst::Arith(Arith::Mul),
        Inst::Arith(Arith::Add),
        Inst::Plain(Plain::Wrap),
        Inst::Region(Region::Load(0, WORD_ALIGN, MEMORY)),
        Inst::Region(Region::Store(0, WORD_ALIGN, MEMORY)),
        Inst::Indexed(Indexed::Get(k)),
        Inst::Indexed(Indexed::Const(1)),
        Inst::Arith(Arith::Add),
        Inst::Indexed(Indexed::Put(k)),
        Inst::Indexed(Indexed::Br(0)),
        Inst::Plain(Plain::End),
        Inst::Plain(Plain::End),
    ]
}

pub fn copy_range_code_of(src: u32, from: u32, dst: u32, to: u32, count: u32, k: u32) -> (code: Vec<Inst>)
    ensures
        code@ == copy_range_code(src, from, dst, to, count, k),
{
    let insts: Vec<Inst> = vec![
        Inst::Indexed(Indexed::Const(0)),
        Inst::Indexed(Indexed::Put(k)),
        Inst::Region(Region::Block),
        Inst::Region(Region::Loop),
        Inst::Indexed(Indexed::Get(k)),
        Inst::Indexed(Indexed::Get(count)),
        Inst::Test(Test::LtU),
        Inst::Plain(Plain::Eqz32),
        Inst::Indexed(Indexed::BrIf(1)),
        Inst::Indexed(Indexed::Get(dst)),
        Inst::Indexed(Indexed::Get(to)),
        Inst::Indexed(Indexed::Get(k)),
        Inst::Arith(Arith::Add),
        Inst::Indexed(Indexed::Const(8)),
        Inst::Arith(Arith::Mul),
        Inst::Arith(Arith::Add),
        Inst::Plain(Plain::Wrap),
        Inst::Indexed(Indexed::Get(src)),
        Inst::Indexed(Indexed::Get(from)),
        Inst::Indexed(Indexed::Get(k)),
        Inst::Arith(Arith::Add),
        Inst::Indexed(Indexed::Const(8)),
        Inst::Arith(Arith::Mul),
        Inst::Arith(Arith::Add),
        Inst::Plain(Plain::Wrap),
        Inst::Region(Region::Load(0, WORD_ALIGN, MEMORY)),
        Inst::Region(Region::Store(0, WORD_ALIGN, MEMORY)),
        Inst::Indexed(Indexed::Get(k)),
        Inst::Indexed(Indexed::Const(1)),
        Inst::Arith(Arith::Add),
        Inst::Indexed(Indexed::Put(k)),
        Inst::Indexed(Indexed::Br(0)),
        Inst::Plain(Plain::End),
        Inst::Plain(Plain::End),
    ];
    proof {
        reveal(copy_range_code);
    }
    assert(insts@ =~= copy_range_code(src, from, dst, to, count, k));
    insts
}

/// `r` becomes the length in the header plus `n`.
#[verifier::opaque]
pub open spec fn len_plus_code(ptr: u32, n: i64, r: u32) -> Seq<Inst> {
    seq![
        Inst::Indexed(Indexed::Get(ptr)),
        Inst::Plain(Plain::Wrap),
        Inst::Region(Region::Load(0, WORD_ALIGN, MEMORY)),
        Inst::Indexed(Indexed::Const(n)),
        Inst::Arith(Arith::Add),
        Inst::Indexed(Indexed::Put(r)),
    ]
}

pub fn len_plus_code_of(ptr: u32, n: i64, r: u32) -> (code: Vec<Inst>)
    ensures
        code@ == len_plus_code(ptr, n, r),
{
    let insts: Vec<Inst> = vec![
        Inst::Indexed(Indexed::Get(ptr)),
        Inst::Plain(Plain::Wrap),
        Inst::Region(Region::Load(0, WORD_ALIGN, MEMORY)),
        Inst::Indexed(Indexed::Const(n)),
        Inst::Arith(Arith::Add),
        Inst::Indexed(Indexed::Put(r)),
    ];
    proof {
        reveal(len_plus_code);
    }
    assert(insts@ =~= len_plus_code(ptr, n, r));
    insts
}

/// If there is room for one more element.
#[verifier::opaque]
pub open spec fn push_room_code(len: u32, cap: u32) -> Seq<Inst> {
    seq![
        Inst::Indexed(Indexed::Get(len)),
        Inst::Indexed(Indexed::Get(cap)),
        Inst::Test(Test::LtU),
        Inst::Region(Region::If),
    ]
}

pub fn push_room_code_of(len: u32, cap: u32) -> (code: Vec<Inst>)
    ensures
        code@ == push_room_code(len, cap),
{
    let insts: Vec<Inst> = vec![
        Inst::Indexed(Indexed::Get(len)),
        Inst::Indexed(Indexed::Get(cap)),
        Inst::Test(Test::LtU),
        Inst::Region(Region::If),
    ];
    proof {
        reveal(push_room_code);
    }
    assert(insts@ =~= push_room_code(len, cap));
    insts
}

/// The other branch.
#[verifier::opaque]
pub open spec fn else_code() -> Seq<Inst> {
    seq![
        Inst::Plain(Plain::Else),
    ]
}

pub fn else_code_of() -> (code: Vec<Inst>)
    ensures
        code@ == else_code(),
{
    let insts: Vec<Inst> = vec![
        Inst::Plain(Plain::Else),
    ];
    proof {
        reveal(else_code);
    }
    assert(insts@ =~= else_code());
    insts
}

/// The end of a block.
#[verifier::opaque]
pub open spec fn end_code() -> Seq<Inst> {
    seq![
        Inst::Plain(Plain::End),
    ]
}

pub fn end_code_of() -> (code: Vec<Inst>)
    ensures
        code@ == end_code(),
{
    let insts: Vec<Inst> = vec![
        Inst::Plain(Plain::End),
    ];
    proof {
        reveal(end_code);
    }
    assert(insts@ =~= end_code());
    insts
}

/// `r` becomes twice `cap`, but at least 4.
#[verifier::opaque]
pub open spec fn double_code(cap: u32, r: u32) -> Seq<Inst> {
    seq![
        Inst::Indexed(Indexed::Get(cap)),
        Inst::Indexed(Indexed::Const(2)),
        Inst::Arith(Arith::Mul),
        Inst::Indexed(Indexed::Tee(r)),
        Inst::Indexed(Indexed::Const(4)),
        Inst::Test(Test::LtU),
        Inst::Region(Region::IfWord),
        Inst::Indexed(Indexed::Const(4)),
        Inst::Plain(Plain::Else),
        Inst::Indexed(Indexed::Get(r)),
        Inst::Plain(Plain::End),
        Inst::Indexed(Indexed::Put(r)),
    ]
}

pub fn double_code_of(cap: u32, r: u32) -> (code: Vec<Inst>)
    ensures
        code@ == double_code(cap, r),
{
    let insts: Vec<Inst> = vec![
        Inst::Indexed(Indexed::Get(cap)),
        Inst::Indexed(Indexed::Const(2)),
        Inst::Arith(Arith::Mul),
        Inst::Indexed(Indexed::Tee(r)),
        Inst::Indexed(Indexed::Const(4)),
        Inst::Test(Test::LtU),
        Inst::Region(Region::IfWord),
        Inst::Indexed(Indexed::Const(4)),
        Inst::Plain(Plain::Else),
        Inst::Indexed(Indexed::Get(r)),
        Inst::Plain(Plain::End),
        Inst::Indexed(Indexed::Put(r)),
    ];
    proof {
        reveal(double_code);
    }
    assert(insts@ =~= double_code(cap, r));
    insts
}

/// Trap unless `lo <= hi <= len`.
#[verifier::opaque]
pub open spec fn slice_check_code(lo: u32, hi: u32, len: u32) -> Seq<Inst> {
    seq![
        Inst::Indexed(Indexed::Get(lo)),
        Inst::Indexed(Indexed::Get(len)),
        Inst::Test(Test::GtU),
        Inst::Indexed(Indexed::Get(hi)),
        Inst::Indexed(Indexed::Get(len)),
        Inst::Test(Test::GtU),
        Inst::Plain(Plain::Or32),
        Inst::Indexed(Indexed::Get(lo)),
        Inst::Indexed(Indexed::Get(hi)),
        Inst::Test(Test::GtU),
        Inst::Plain(Plain::Or32),
        Inst::Region(Region::If),
        Inst::Plain(Plain::Unreachable),
        Inst::Plain(Plain::End),
    ]
}

pub fn slice_check_code_of(lo: u32, hi: u32, len: u32) -> (code: Vec<Inst>)
    ensures
        code@ == slice_check_code(lo, hi, len),
{
    let insts: Vec<Inst> = vec![
        Inst::Indexed(Indexed::Get(lo)),
        Inst::Indexed(Indexed::Get(len)),
        Inst::Test(Test::GtU),
        Inst::Indexed(Indexed::Get(hi)),
        Inst::Indexed(Indexed::Get(len)),
        Inst::Test(Test::GtU),
        Inst::Plain(Plain::Or32),
        Inst::Indexed(Indexed::Get(lo)),
        Inst::Indexed(Indexed::Get(hi)),
        Inst::Test(Test::GtU),
        Inst::Plain(Plain::Or32),
        Inst::Region(Region::If),
        Inst::Plain(Plain::Unreachable),
        Inst::Plain(Plain::End),
    ];
    proof {
        reveal(slice_check_code);
    }
    assert(insts@ =~= slice_check_code(lo, hi, len));
    insts
}

/// The start of a loop.
#[verifier::opaque]
pub open spec fn loop_head_code() -> Seq<Inst> {
    seq![
        Inst::Region(Region::Block),
        Inst::Region(Region::Loop),
    ]
}

pub fn loop_head_code_of() -> (code: Vec<Inst>)
    ensures
        code@ == loop_head_code(),
{
    let insts: Vec<Inst> = vec![
        Inst::Region(Region::Block),
        Inst::Region(Region::Loop),
    ];
    proof {
        reveal(loop_head_code);
    }
    assert(insts@ =~= loop_head_code());
    insts
}

/// Leave the loop if the condition is false.
#[verifier::opaque]
pub open spec fn loop_test_code() -> Seq<Inst> {
    seq![
        Inst::Test(Test::Eqz),
        Inst::Indexed(Indexed::BrIf(1)),
    ]
}

pub fn loop_test_code_of() -> (code: Vec<Inst>)
    ensures
        code@ == loop_test_code(),
{
    let insts: Vec<Inst> = vec![
        Inst::Test(Test::Eqz),
        Inst::Indexed(Indexed::BrIf(1)),
    ];
    proof {
        reveal(loop_test_code);
    }
    assert(insts@ =~= loop_test_code());
    insts
}

/// The next round.
#[verifier::opaque]
pub open spec fn loop_next_code() -> Seq<Inst> {
    seq![
        Inst::Indexed(Indexed::Br(0)),
    ]
}

pub fn loop_next_code_of() -> (code: Vec<Inst>)
    ensures
        code@ == loop_next_code(),
{
    let insts: Vec<Inst> = vec![
        Inst::Indexed(Indexed::Br(0)),
    ];
    proof {
        reveal(loop_next_code);
    }
    assert(insts@ =~= loop_next_code());
    insts
}

/// The end of a loop.
#[verifier::opaque]
pub open spec fn loop_end_code() -> Seq<Inst> {
    seq![
        Inst::Plain(Plain::End),
        Inst::Plain(Plain::End),
    ]
}

pub fn loop_end_code_of() -> (code: Vec<Inst>)
    ensures
        code@ == loop_end_code(),
{
    let insts: Vec<Inst> = vec![
        Inst::Plain(Plain::End),
        Inst::Plain(Plain::End),
    ];
    proof {
        reveal(loop_end_code);
    }
    assert(insts@ =~= loop_end_code());
    insts
}

/// Remember where free memory starts.
#[verifier::opaque]
pub open spec fn mark_code(x: u32) -> Seq<Inst> {
    seq![
        Inst::Indexed(Indexed::GlobalGet(0)),
        Inst::Indexed(Indexed::Put(x)),
    ]
}

pub fn mark_code_of(x: u32) -> (code: Vec<Inst>)
    ensures
        code@ == mark_code(x),
{
    let insts: Vec<Inst> = vec![
        Inst::Indexed(Indexed::GlobalGet(0)),
        Inst::Indexed(Indexed::Put(x)),
    ];
    proof {
        reveal(mark_code);
    }
    assert(insts@ =~= mark_code(x));
    insts
}

/// Free what was allocated since.
#[verifier::opaque]
pub open spec fn reset_code(x: u32) -> Seq<Inst> {
    seq![
        Inst::Indexed(Indexed::Get(x)),
        Inst::Indexed(Indexed::GlobalSet(0)),
    ]
}

pub fn reset_code_of(x: u32) -> (code: Vec<Inst>)
    ensures
        code@ == reset_code(x),
{
    let insts: Vec<Inst> = vec![
        Inst::Indexed(Indexed::Get(x)),
        Inst::Indexed(Indexed::GlobalSet(0)),
    ];
    proof {
        reveal(reset_code);
    }
    assert(insts@ =~= reset_code(x));
    insts
}

/// Whether a word is not zero.
#[verifier::opaque]
pub open spec fn nonzero_code() -> Seq<Inst> {
    seq![
        Inst::Indexed(Indexed::Const(0)),
        Inst::Test(Test::Ne),
    ]
}

pub fn nonzero_code_of() -> (code: Vec<Inst>)
    ensures
        code@ == nonzero_code(),
{
    let insts: Vec<Inst> = vec![
        Inst::Indexed(Indexed::Const(0)),
        Inst::Test(Test::Ne),
    ];
    proof {
        reveal(nonzero_code);
    }
    assert(insts@ =~= nonzero_code());
    insts
}

/// A conditional without a result.
#[verifier::opaque]
pub open spec fn if_code() -> Seq<Inst> {
    seq![
        Inst::Region(Region::If),
    ]
}

pub fn if_code_of() -> (code: Vec<Inst>)
    ensures
        code@ == if_code(),
{
    let insts: Vec<Inst> = vec![
        Inst::Region(Region::If),
    ];
    proof {
        reveal(if_code);
    }
    assert(insts@ =~= if_code());
    insts
}

/// A conditional that leaves a word.
#[verifier::opaque]
pub open spec fn if_word_code() -> Seq<Inst> {
    seq![
        Inst::Region(Region::IfWord),
    ]
}

pub fn if_word_code_of() -> (code: Vec<Inst>)
    ensures
        code@ == if_word_code(),
{
    let insts: Vec<Inst> = vec![
        Inst::Region(Region::IfWord),
    ];
    proof {
        reveal(if_word_code);
    }
    assert(insts@ =~= if_word_code());
    insts
}

/// Whether the tag is `t`.
#[verifier::opaque]
pub open spec fn tag_test_code(tag: u32, t: i64) -> Seq<Inst> {
    seq![
        Inst::Indexed(Indexed::Get(tag)),
        Inst::Indexed(Indexed::Const(t)),
        Inst::Test(Test::Eq),
    ]
}

pub fn tag_test_code_of(tag: u32, t: i64) -> (code: Vec<Inst>)
    ensures
        code@ == tag_test_code(tag, t),
{
    let insts: Vec<Inst> = vec![
        Inst::Indexed(Indexed::Get(tag)),
        Inst::Indexed(Indexed::Const(t)),
        Inst::Test(Test::Eq),
    ];
    proof {
        reveal(tag_test_code);
    }
    assert(insts@ =~= tag_test_code(tag, t));
    insts
}

/// Return from the function.
#[verifier::opaque]
pub open spec fn return_code() -> Seq<Inst> {
    seq![
        Inst::Plain(Plain::Return),
    ]
}

pub fn return_code_of() -> (code: Vec<Inst>)
    ensures
        code@ == return_code(),
{
    let insts: Vec<Inst> = vec![
        Inst::Plain(Plain::Return),
    ];
    proof {
        reveal(return_code);
    }
    assert(insts@ =~= return_code());
    insts
}

/// Call a function.
#[verifier::opaque]
pub open spec fn call_code(f: u32) -> Seq<Inst> {
    seq![
        Inst::Indexed(Indexed::Call(f)),
    ]
}

pub fn call_code_of(f: u32) -> (code: Vec<Inst>)
    ensures
        code@ == call_code(f),
{
    let insts: Vec<Inst> = vec![
        Inst::Indexed(Indexed::Call(f)),
    ];
    proof {
        reveal(call_code);
    }
    assert(insts@ =~= call_code(f));
    insts
}

/// The length in the header of a block.
#[verifier::opaque]
pub open spec fn len_code() -> Seq<Inst> {
    seq![
        Inst::Plain(Plain::Wrap),
        Inst::Region(Region::Load(0, WORD_ALIGN, MEMORY)),
    ]
}

pub fn len_code_of() -> (code: Vec<Inst>)
    ensures
        code@ == len_code(),
{
    let insts: Vec<Inst> = vec![
        Inst::Plain(Plain::Wrap),
        Inst::Region(Region::Load(0, WORD_ALIGN, MEMORY)),
    ];
    proof {
        reveal(len_code);
    }
    assert(insts@ =~= len_code());
    insts
}

/// Keep a pointer and a position in locals; the pointer stays on the stack.
#[verifier::opaque]
pub open spec fn index_stash_code(i: u32, p: u32) -> Seq<Inst> {
    seq![
        Inst::Indexed(Indexed::Put(i)),
        Inst::Indexed(Indexed::Tee(p)),
    ]
}

pub fn index_stash_code_of(i: u32, p: u32) -> (code: Vec<Inst>)
    ensures
        code@ == index_stash_code(i, p),
{
    let insts: Vec<Inst> = vec![
        Inst::Indexed(Indexed::Put(i)),
        Inst::Indexed(Indexed::Tee(p)),
    ];
    proof {
        reveal(index_stash_code);
    }
    assert(insts@ =~= index_stash_code(i, p));
    insts
}

/// The element at a position, after `header` bytes.
#[verifier::opaque]
pub open spec fn index_code(header: i64) -> Seq<Inst> {
    seq![
        Inst::Indexed(Indexed::Const(8)),
        Inst::Arith(Arith::Mul),
        Inst::Arith(Arith::Add),
        Inst::Indexed(Indexed::Const(header)),
        Inst::Arith(Arith::Add),
        Inst::Plain(Plain::Wrap),
        Inst::Region(Region::Load(0, WORD_ALIGN, MEMORY)),
    ]
}

pub fn index_code_of(header: i64) -> (code: Vec<Inst>)
    ensures
        code@ == index_code(header),
{
    let insts: Vec<Inst> = vec![
        Inst::Indexed(Indexed::Const(8)),
        Inst::Arith(Arith::Mul),
        Inst::Arith(Arith::Add),
        Inst::Indexed(Indexed::Const(header)),
        Inst::Arith(Arith::Add),
        Inst::Plain(Plain::Wrap),
        Inst::Region(Region::Load(0, WORD_ALIGN, MEMORY)),
    ];
    proof {
        reveal(index_code);
    }
    assert(insts@ =~= index_code(header));
    insts
}

/// An arithmetic operation.
pub open spec fn arith_code(op: Arith) -> Seq<Inst> {
    seq![Inst::Arith(op)]
}

pub fn arith_code_of(op: Arith) -> (code: Vec<Inst>)
    ensures
        code@ == arith_code(op),
{
    let insts: Vec<Inst> = vec![Inst::Arith(op)];
    assert(insts@ =~= arith_code(op));
    insts
}

/// A test, widened to a word.
pub open spec fn test_code(op: Test) -> Seq<Inst> {
    seq![Inst::Test(op), Inst::Plain(Plain::Extend)]
}

pub fn test_code_of(op: Test) -> (code: Vec<Inst>)
    ensures
        code@ == test_code(op),
{
    let insts: Vec<Inst> = vec![Inst::Test(op), Inst::Plain(Plain::Extend)];
    assert(insts@ =~= test_code(op));
    insts
}

/// The other truth value.
#[verifier::opaque]
pub open spec fn not_code() -> Seq<Inst> {
    seq![
        Inst::Indexed(Indexed::Const(1)),
        Inst::Arith(Arith::Xor),
    ]
}

pub fn not_code_of() -> (code: Vec<Inst>)
    ensures
        code@ == not_code(),
{
    let insts: Vec<Inst> = vec![
        Inst::Indexed(Indexed::Const(1)),
        Inst::Arith(Arith::Xor),
    ];
    proof {
        reveal(not_code);
    }
    assert(insts@ =~= not_code());
    insts
}

/// The negative.
#[verifier::opaque]
pub open spec fn neg_code() -> Seq<Inst> {
    seq![
        Inst::Indexed(Indexed::Const(MINUS_ONE)),
        Inst::Arith(Arith::Mul),
    ]
}

pub fn neg_code_of() -> (code: Vec<Inst>)
    ensures
        code@ == neg_code(),
{
    let insts: Vec<Inst> = vec![
        Inst::Indexed(Indexed::Const(MINUS_ONE)),
        Inst::Arith(Arith::Mul),
    ];
    proof {
        reveal(neg_code);
    }
    assert(insts@ =~= neg_code());
    insts
}

/// Whether a word is not zero, as a word.
#[verifier::opaque]
pub open spec fn truth_code() -> Seq<Inst> {
    seq![
        Inst::Indexed(Indexed::Const(0)),
        Inst::Test(Test::Ne),
        Inst::Plain(Plain::Extend),
    ]
}

pub fn truth_code_of() -> (code: Vec<Inst>)
    ensures
        code@ == truth_code(),
{
    let insts: Vec<Inst> = vec![
        Inst::Indexed(Indexed::Const(0)),
        Inst::Test(Test::Ne),
        Inst::Plain(Plain::Extend),
    ];
    proof {
        reveal(truth_code);
    }
    assert(insts@ =~= truth_code());
    insts
}

/// Keep the low bits of a word, with their sign.
#[verifier::opaque]
pub open spec fn narrow_signed_code(shift: i64) -> Seq<Inst> {
    seq![
        Inst::Indexed(Indexed::Const(shift)),
        Inst::Arith(Arith::Shl),
        Inst::Indexed(Indexed::Const(shift)),
        Inst::Arith(Arith::ShrS),
    ]
}

pub fn narrow_signed_code_of(shift: i64) -> (code: Vec<Inst>)
    ensures
        code@ == narrow_signed_code(shift),
{
    let insts: Vec<Inst> = vec![
        Inst::Indexed(Indexed::Const(shift)),
        Inst::Arith(Arith::Shl),
        Inst::Indexed(Indexed::Const(shift)),
        Inst::Arith(Arith::ShrS),
    ];
    proof {
        reveal(narrow_signed_code);
    }
    assert(insts@ =~= narrow_signed_code(shift));
    insts
}

/// Keep the low bits of a word.
#[verifier::opaque]
pub open spec fn narrow_unsigned_code(shift: i64) -> Seq<Inst> {
    seq![
        Inst::Indexed(Indexed::Const(shift)),
        Inst::Arith(Arith::Shl),
        Inst::Indexed(Indexed::Const(shift)),
        Inst::Arith(Arith::ShrU),
    ]
}

pub fn narrow_unsigned_code_of(shift: i64) -> (code: Vec<Inst>)
    ensures
        code@ == narrow_unsigned_code(shift),
{
    let insts: Vec<Inst> = vec![
        Inst::Indexed(Indexed::Const(shift)),
        Inst::Arith(Arith::Shl),
        Inst::Indexed(Indexed::Const(shift)),
        Inst::Arith(Arith::ShrU),
    ];
    proof {
        reveal(narrow_unsigned_code);
    }
    assert(insts@ =~= narrow_unsigned_code(shift));
    insts
}

} // verus!
