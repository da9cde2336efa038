//! Prefixes, suffixes, blanks, lists and integers in text.
use vstd::prelude::*;
use vstd::string::*;

use crate::text;
use crate::text::str_eq;

verus! {

/// Whether `s` starts with `p`.
pub open spec fn starts(s: Seq<char>, p: Seq<char>) -> bool {
    p.len() <= s.len() && s.take(p.len() as int) == p
}

/// Whether `s` ends with `p`.
pub open spec fn ends(s: Seq<char>, p: Seq<char>) -> bool {
    p.len() <= s.len() && s.skip(s.len() - p.len()) == p
}

/// Whether `s` starts with `p`.
pub fn has_prefix(s: &str, p: &str) -> (r: bool)
    ensures
        r == starts(s@, p@),
{
    let n = s.unicode_len();
    let k = p.unicode_len();
    if k > n {
        return false;
    }
    let head = s.substring_char(0, k);
    assert(head@ =~= s@.take(k as int));
    str_eq(head, p)
}

/// Whether `s` ends with `p`.
pub fn has_suffix(s: &str, p: &str) -> (r: bool)
    ensures
        r == ends(s@, p@),
{
    let n = s.unicode_len();
    let k = p.unicode_len();
    if k > n {
        return false;
    }
    let tail = s.substring_char(n - k, n);
    assert(tail@ =~= s@.skip(n - k));
    str_eq(tail, p)
}

/// `s` without the suffix `p`.
pub open spec fn without_suffix(s: Seq<char>, p: Seq<char>) -> Option<Seq<char>> {
    if ends(s, p) {
        Some(s.take(s.len() - p.len()))
    } else {
        None
    }
}

/// `s` without the suffix `p`, if it has it.
pub fn drop_suffix<'a>(s: &'a str, p: &str) -> (r: Option<&'a str>)
    ensures
        match without_suffix(s@, p@) {
            Some(t) => r is Some && r->0@ == t,
            None => r is None,
        },
{
    if has_suffix(s, p) {
        let t = s.substring_char(0, s.unicode_len() - p.unicode_len());
        assert(t@ =~= s@.take(s@.len() - p@.len()));
        Some(t)
    } else {
        None
    }
}

// ---- blanks ------------------------------------------------------------------------------------------

/// The characters that are white space.
pub open spec fn white_space(c: char) -> bool {
    ||| '\u{9}' <= c <= '\u{d}'
    ||| c == ' '
    ||| c == '\u{85}'
    ||| c == '\u{a0}'
    ||| c == '\u{1680}'
    ||| '\u{2000}' <= c <= '\u{200a}'
    ||| '\u{2028}' <= c <= '\u{2029}'
    ||| c == '\u{202f}'
    ||| c == '\u{205f}'
    ||| c == '\u{3000}'
}

fn is_space(c: char) -> (r: bool)
    ensures
        r == white_space(c),
{
    ('\u{9}' <= c && c <= '\u{d}') || c == ' ' || c == '\u{85}' || c == '\u{a0}' || c == '\u{1680}'
        || ('\u{2000}' <= c && c <= '\u{200a}') || ('\u{2028}' <= c && c <= '\u{2029}') || c
        == '\u{202f}' || c == '\u{205f}' || c == '\u{3000}'
}

/// `s` without the white space it starts with.
pub open spec fn trimmed_start(s: Seq<char>) -> Seq<char>
    decreases s.len(),
{
    if s.len() > 0 && white_space(s[0]) {
        trimmed_start(s.skip(1))
    } else {
        s
    }
}

/// `s` without the white space it ends with.
pub open spec fn trimmed_end(s: Seq<char>) -> Seq<char>
    decreases s.len(),
{
    if s.len() > 0 && white_space(s.last()) {
        trimmed_end(s.drop_last())
    } else {
        s
    }
}

/// `s` without the white space it starts with.
pub fn trim_start<'a>(s: &'a str) -> (r: &'a str)
    ensures
        r@ == trimmed_start(s@),
{
    let n = s.unicode_len();
    let mut i: usize = 0;
    assert(s@.skip(0) =~= s@);
    while i < n && is_space(s.get_char(i))
        invariant
            i <= n,
            n == s@.len(),
            trimmed_start(s@.skip(i as int)) == trimmed_start(s@),
        decreases n - i,
    {
        assert(s@.skip(i as int).skip(1) =~= s@.skip(i + 1));
        i = i + 1;
    }
    let r = s.substring_char(i, n);
    assert(r@ =~= s@.skip(i as int));
    r
}

/// `s` without the white space around it.
pub fn trim<'a>(s: &'a str) -> (r: &'a str)
    ensures
        r@ == trimmed_end(trimmed_start(s@)),
{
    let t = trim_start(s);
    let mut n = t.unicode_len();
    assert(t@.take(n as int) =~= t@);
    while n > 0 && is_space(t.get_char(n - 1))
        invariant
            n <= t@.len(),
            t@ == trimmed_start(s@),
            trimmed_end(t@.take(n as int)) == trimmed_end(t@),
        decreases n,
    {
        assert(t@.take(n as int).drop_last() =~= t@.take(n - 1));
        n = n - 1;
    }
    let r = t.substring_char(0, n);
    assert(r@ =~= t@.take(n as int));
    r
}

// ---- lists ---------------------------------------------------------------------------------------------

/// The parts of `s` between the characters `sep`, without the empty ones; `part`
/// is what was read of the first one.
pub open spec fn parts_from(s: Seq<char>, sep: char, part: Seq<char>) -> Seq<Seq<char>>
    decreases s.len(),
{
    let done = if part.len() == 0 {
        Seq::empty()
    } else {
        seq![part]
    };
    if s.len() == 0 {
        done
    } else if s[0] == sep {
        done + parts_from(s.skip(1), sep, Seq::empty())
    } else {
        parts_from(s.skip(1), sep, part.push(s[0]))
    }
}

/// The parts of `s` between the characters `sep`, without the empty ones.
pub open spec fn parts(s: Seq<char>, sep: char) -> Seq<Seq<char>> {
    parts_from(s, sep, Seq::empty())
}

/// The parts of `s` between the characters `sep`, without the empty ones.
pub fn split_parts(s: &str, sep: char) -> (r: Vec<String>)
    ensures
        text::strings_view(r@) == parts(s@, sep),
{
    let n = s.unicode_len();
    let mut out: Vec<String> = Vec::new();
    let mut part = String::new();
    let mut i: usize = 0;
    assert(s@.skip(0) =~= s@);
    assert(part@ =~= Seq::empty());
    assert(text::strings_view(out@) + parts(s@, sep) =~= parts(s@, sep));
    while i < n
        invariant
            i <= n,
            n == s@.len(),
            text::strings_view(out@) + parts_from(s@.skip(i as int), sep, part@) == parts(s@, sep),
        decreases n - i,
    {
        let c = s.get_char(i);
        let ghost rest = s@.skip(i as int);
        assert(rest.skip(1) =~= s@.skip(i + 1));
        assert(rest[0] == c);
        let ghost before = text::strings_view(out@);
        if c == sep {
            if part.as_str().unicode_len() > 0 {
                let ghost p = part@;
                out.push(part);
                assert(text::strings_view(out@) =~= before.push(p));
                proof {
                    let tail = parts_from(s@.skip(i + 1), sep, Seq::empty());
                    assert(before.push(p) + tail =~= before + (seq![p] + tail));
                }
            } else {
                proof {
                    let tail = parts_from(s@.skip(i + 1), sep, Seq::empty());
                    assert(Seq::<Seq<char>>::empty() + tail =~= tail);
                }
            }
            part = String::new();
            assert(part@ =~= Seq::empty());
        } else {
            part.push(c);
        }
        i = i + 1;
    }
    assert(s@.skip(n as int).len() == 0);
    if part.as_str().unicode_len() > 0 {
        let ghost before = text::strings_view(out@);
        let ghost p = part@;
        out.push(part);
        assert(text::strings_view(out@) =~= before.push(p));
        assert(before.push(p) =~= before + seq![p]);
    } else {
        assert(text::strings_view(out@) + Seq::<Seq<char>>::empty() =~= text::strings_view(out@));
    }
    out
}

// ---- integers --------------------------------------------------------------------------------------------

pub open spec fn is_digit(c: char) -> bool {
    '0' <= c <= '9'
}

/// The number that decimal digits spell.
pub open spec fn digits_value(s: Seq<char>) -> int
    decreases s.len(),
{
    if s.len() == 0 {
        0
    } else {
        10 * digits_value(s.drop_last()) + (s.last() as int - '0' as int)
    }
}

/// The sign of a spelled integer, and its digits.
pub open spec fn unsigned(s: Seq<char>) -> (bool, Seq<char>) {
    if s.len() > 0 && s[0] == '-' {
        (true, s.skip(1))
    } else if s.len() > 0 && s[0] == '+' {
        (false, s.skip(1))
    } else {
        (false, s)
    }
}

/// The integer that a text spells in decimal: an optional sign and digits, with
/// a value that 64 bits can hold.
pub open spec fn integer_of(s: Seq<char>) -> Option<i64> {
    let (negative, body) = unsigned(s);
    let value = if negative {
        -digits_value(body)
    } else {
        digits_value(body)
    };
    if body.len() > 0 && (forall|i: int| 0 <= i < body.len() ==> is_digit(#[trigger] body[i]))
        && i64::MIN <= value <= i64::MAX {
        Some(value as i64)
    } else {
        None
    }
}

/// More digits make no smaller number.
proof fn lemma_digits_grow(s: Seq<char>, k: int)
    requires
        0 <= k <= s.len(),
        forall|i: int| 0 <= i < s.len() ==> is_digit(#[trigger] s[i]),
    ensures
        0 <= digits_value(s.take(k)) <= digits_value(s),
    decreases s.len(),
{
    if s.len() == 0 {
        assert(s.take(k) =~= s);
    } else {
        let t = s.drop_last();
        assert forall|i: int| 0 <= i < t.len() implies is_digit(#[trigger] t[i]) by {
            assert(t[i] == s[i]);
        }
        assert(is_digit(s[s.len() - 1]));
        if k == s.len() {
            assert(s.take(k) =~= s);
            lemma_digits_grow(t, 0);
            assert(t.take(0) =~= Seq::empty());
        } else {
            lemma_digits_grow(t, k);
            assert(s.take(k) =~= t.take(k));
        }
    }
}

/// The integer that a text spells in decimal.
pub fn parse_integer(s: &str) -> (r: Option<i64>)
    ensures
        r == integer_of(s@),
{
    let n = s.unicode_len();
    let mut negative = false;
    let mut start: usize = 0;
    if n > 0 {
        let c = s.get_char(0);
        if c == '-' {
            negative = true;
            start = 1;
        } else if c == '+' {
            start = 1;
        }
    }
    let ghost body = unsigned(s@).1;
    assert(body =~= s@.skip(start as int));
    if start == n {
        return None;
    }
    let mut value: i128 = 0;
    let mut i: usize = start;
    assert(body.take(0) =~= Seq::empty());
    while i < n
        invariant
            start <= i <= n,
            n == s@.len(),
            body == s@.skip(start as int),
            body == unsigned(s@).1,
            negative == unsigned(s@).0,
            start < n,
            0 <= value <= 0x8000_0000_0000_0000,
            value == digits_value(body.take(i - start)),
            forall|k: int| 0 <= k < i - start ==> is_digit(#[trigger] body[k]),
        decreases n - i,
    {
        let c = s.get_char(i);
        assert(body[i - start] == c);
        if !('0' <= c && c <= '9') {
            assert(!is_digit(body[i - start]));
            return None;
        }
        let ghost k = i - start + 1;
        assert(body.take(k).drop_last() =~= body.take(i - start));
        assert(body.take(k).last() == c);
        value = value * 10 + (c as u32 as i128 - 48);
        if value > 0x8000_0000_0000_0000 {
            proof {
                if forall|j: int| 0 <= j < body.len() ==> is_digit(#[trigger] body[j]) {
                    lemma_digits_grow(body, k);
                }
            }
            return None;
        }
        i = i + 1;
    }
    assert(body.take(n - start) =~= body);
    let v = if negative {
        -value
    } else {
        value
    };
    if v > 0x7fff_ffff_ffff_ffff {
        None
    } else {
        Some(v as i64)
    }
}

} // verus!
