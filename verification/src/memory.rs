//! How values lie in memory: a scalar is its word, anything else the address of a block
//! of words.
use vstd::prelude::*;

use crate::core_meaning;
use crate::core_meaning::Value;

verus! {

/// The words of a memory, by their addresses.
pub type Memory = Map<int, int>;

/// The address of word `i` of the block at an address.
pub open spec fn word_at(base: int, i: int) -> int {
    base + 8 * i
}

/// Whether a word stands for a value, in a memory whose blocks lie below an address. A
/// block begins at a multiple of eight. A string, an array or a list begins with its length, a struct or a variant with its
/// tag; a list then has a word for its room. The members follow.
pub open spec fn stored(mem: Memory, top: int, w: int, v: Value) -> bool
    decreases v,
{
    match v {
        Value::Str(t) => {
            &&& 0 <= w
            &&& w % 8 == 0
            &&& word_at(w, t.len() as int + 1) <= top
            &&& mem[w] == t.len()
            &&& forall|i: int| 0 <= i < t.len() ==> mem[#[trigger] word_at(w, i + 1)] == t[i] as int
        },
        Value::Data { ty, tag, fields } => {
            &&& 0 <= w
            &&& w % 8 == 0
            &&& word_at(w, fields.len() as int + 1) <= top
            &&& mem[w] == tag
            &&& forall|i: int|
                0 <= i < fields.len() ==> stored(
                    mem,
                    top,
                    mem[#[trigger] word_at(w, i + 1)],
                    fields[i],
                )
        },
        Value::Array(items) => {
            &&& 0 <= w
            &&& w % 8 == 0
            &&& word_at(w, items.len() as int + 1) <= top
            &&& mem[w] == items.len()
            &&& forall|i: int|
                0 <= i < items.len() ==> stored(
                    mem,
                    top,
                    mem[#[trigger] word_at(w, i + 1)],
                    items[i],
                )
        },
        Value::List(items) => {
            &&& 0 <= w
            &&& w % 8 == 0
            &&& word_at(w, items.len() as int + 2) <= top
            &&& mem[w] == items.len()
            &&& forall|i: int|
                0 <= i < items.len() ==> stored(
                    mem,
                    top,
                    mem[#[trigger] word_at(w, i + 2)],
                    items[i],
                )
        },
        _ => core_meaning::word_of(v) == Some(w),
    }
}

/// What is stored stays stored while nothing below the top changes.
pub proof fn lemma_stored_kept(a: Memory, top: int, b: Memory, more: int, w: int, v: Value)
    requires
        stored(a, top, w, v),
        top <= more,
        forall|x: int| x < top ==> #[trigger] b[x] == a[x],
    ensures
        stored(b, more, w, v),
    decreases v,
{
    match v {
        Value::Data { ty, tag, fields } => {
            assert forall|i: int| 0 <= i < fields.len() implies stored(
                b,
                more,
                b[#[trigger] word_at(w, i + 1)],
                fields[i],
            ) by {
                assert(stored(a, top, a[word_at(w, i + 1)], fields[i]));
                lemma_stored_kept(a, top, b, more, a[word_at(w, i + 1)], fields[i]);
            }
        },
        Value::Array(items) => {
            assert forall|i: int| 0 <= i < items.len() implies stored(
                b,
                more,
                b[#[trigger] word_at(w, i + 1)],
                items[i],
            ) by {
                assert(stored(a, top, a[word_at(w, i + 1)], items[i]));
                lemma_stored_kept(a, top, b, more, a[word_at(w, i + 1)], items[i]);
            }
        },
        Value::List(items) => {
            assert forall|i: int| 0 <= i < items.len() implies stored(
                b,
                more,
                b[#[trigger] word_at(w, i + 2)],
                items[i],
            ) by {
                assert(stored(a, top, a[word_at(w, i + 2)], items[i]));
                lemma_stored_kept(a, top, b, more, a[word_at(w, i + 2)], items[i]);
            }
        },
        _ => {},
    }
}

/// The word of a scalar stands for it anywhere.
pub proof fn lemma_scalar(mem: Memory, top: int, w: int, v: Value)
    requires
        core_meaning::word_of(v) is Some,
    ensures
        stored(mem, top, w, v) <==> core_meaning::word_of(v) == Some(w),
{
}

/// A member of what is stored is stored where it should be.
pub proof fn lemma_member(mem: Memory, top: int, w: int, x: Value, v: Seq<Value>, i: int)
    requires
        x is Array || x is Str,
        stored(mem, top, w, x),
        core_meaning::members(x) == Some(v),
        0 <= i < v.len(),
    ensures
        stored(mem, top, mem[word_at(w, i + 1)], v[i]),
        0 <= w,
        w % 8 == 0,
        word_at(w, i + 2) <= top,
        mem[w] == v.len(),
{
    match x {
        Value::Array(items) => {
            assert(v == items);
            assert(stored(mem, top, mem[word_at(w, i + 1)], items[i]));
        },
        Value::Str(t) => {
            core_meaning::lemma_members_of_a_string(t);
            assert(mem[word_at(w, i + 1)] == t[i] as int);
            assert(v[i] == Value::Char(t[i]));
        },
        _ => {},
    }
}

/// As [`lemma_member`], for a list.
pub proof fn lemma_list_member(mem: Memory, top: int, w: int, v: Seq<Value>, i: int)
    requires
        stored(mem, top, w, Value::List(v)),
        0 <= i < v.len(),
    ensures
        stored(mem, top, mem[word_at(w, i + 2)], v[i]),
        0 <= w,
        w % 8 == 0,
        word_at(w, i + 3) <= top,
        mem[w] == v.len(),
{
    assert(stored(mem, top, mem[word_at(w, i + 2)], v[i]));
}

} // verus!
