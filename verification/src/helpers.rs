//! From bytes to text and from text to integers.

use vstd::prelude::*;
use vstd::slice::slice_subrange;
use vstd::string::StringSliceAdditionalSpecFns;
use vstd::utf8::{decode_utf8, valid_utf8};
use crate::bytes::{is_digit, MINUS, PLUS};
use crate::scan::text;

verus! {

/// The number for which the digit `b` stands.
pub open spec fn digit_value(b: u8) -> nat {
    if is_digit(b) {
        (b - 0x30) as nat
    } else {
        0
    }
}

/// Every byte of `d` is a digit.
pub open spec fn all_digits(d: Seq<u8>) -> bool {
    forall|i: int| 0 <= i < d.len() ==> is_digit(#[trigger] d[i])
}

/// The number that the digits `d` write in base ten.
pub open spec fn digits_value(d: Seq<u8>) -> nat
    decreases d.len(),
{
    if d.len() == 0 {
        0
    } else {
        digits_value(d.drop_last()) * 10 + digit_value(d.last())
    }
}

/// The integer that the text `t` writes: one digit or more, with or without
/// a sign before them, and nothing else.
pub open spec fn integer_of(t: Seq<u8>) -> Option<int> {
    if t.len() > 0 && (t[0] == PLUS || t[0] == MINUS) {
        let d = t.skip(1);
        if d.len() > 0 && all_digits(d) {
            Some(
                if t[0] == MINUS {
                    -(digits_value(d) as int)
                } else {
                    digits_value(d) as int
                },
            )
        } else {
            None
        }
    } else if t.len() > 0 && all_digits(t) {
        Some(digits_value(t) as int)
    } else {
        None
    }
}

/// The `i32` that the text `t` writes, where it writes an integer that is
/// one.
pub open spec fn i32_of(t: Seq<u8>) -> Option<i32> {
    match integer_of(t) {
        Some(v) => if i32::MIN <= v <= i32::MAX {
            Some(v as i32)
        } else {
            None
        },
        None => None,
    }
}

/// The `u32` that the text `t` writes, where it writes an integer that is
/// one and has no minus sign.
pub open spec fn u32_of(t: Seq<u8>) -> Option<u32> {
    match integer_of(t) {
        Some(v) => if 0 <= v <= u32::MAX && t[0] != MINUS {
            Some(v as u32)
        } else {
            None
        },
        None => None,
    }
}

/// The digits at the head of a number write no more than all of them.
pub proof fn lemma_digits_value_grows(d: Seq<u8>, n: int)
    requires
        0 <= n <= d.len(),
    ensures
        digits_value(d.take(n)) <= digits_value(d),
    decreases d.len() - n,
{
    if n < d.len() {
        lemma_digits_value_grows(d, n + 1);
        assert(d.take(n + 1).drop_last() =~= d.take(n));
    } else {
        assert(d.take(n) =~= d);
    }
}

/// Reads the number that the digits `d` write, where `d` holds one digit or
/// more, nothing else, and the number is no larger than `limit`.
fn magnitude(d: &[u8], limit: u64) -> (r: Option<u64>)
    requires
        limit <= 0x1_0000_0000,
    ensures
        r is Some <==> d@.len() > 0 && all_digits(d@) && digits_value(d@) <= limit,
        r matches Some(v) ==> v == digits_value(d@),
{
    if d.len() == 0 {
        return None;
    }
    let mut acc: u64 = 0;
    let mut i: usize = 0;
    while i < d.len()
        invariant
            i <= d@.len(),
            limit <= 0x1_0000_0000,
            all_digits(d@.take(i as int)),
            acc == digits_value(d@.take(i as int)),
            acc <= limit,
        decreases d@.len() - i,
    {
        let b = d[i];
        if b < 0x30 || b > 0x39 {
            assert(!is_digit(d@[i as int]));
            return None;
        }
        proof {
            assert(d@.take(i + 1).drop_last() =~= d@.take(i as int));
            assert forall|j: int| 0 <= j < i + 1 implies is_digit(#[trigger] d@.take(i + 1)[j]) by {
                if j < i {
                    assert(d@.take(i + 1)[j] == d@.take(i as int)[j]);
                }
            }
        }
        let next = acc * 10 + (b - 0x30) as u64;
        if next > limit {
            proof {
                lemma_digits_value_grows(d@, i + 1);
            }
            return None;
        }
        acc = next;
        i += 1;
    }
    assert(d@.take(i as int) =~= d@);
    Some(acc)
}

/// Reads the `i32` that `text` writes. Accepts what `str::parse` accepts
/// for an `i32`: digits with or without a sign, within the range.
pub fn parse_i32(text: &[u8]) -> (r: Option<i32>)
    ensures
        r == i32_of(text@),
{
    if text.len() == 0 {
        return None;
    }
    if text[0] == MINUS {
        match magnitude(slice_subrange(text, 1, text.len()), 0x8000_0000) {
            Some(v) => Some((-(v as i64)) as i32),
            None => None,
        }
    } else if text[0] == PLUS {
        match magnitude(slice_subrange(text, 1, text.len()), 0x7fff_ffff) {
            Some(v) => Some(v as i32),
            None => None,
        }
    } else {
        match magnitude(text, 0x7fff_ffff) {
            Some(v) => Some(v as i32),
            None => None,
        }
    }
}

/// Reads the `u32` that `text` writes. Accepts what `str::parse` accepts
/// for a `u32`: digits with or without a plus sign, within the range.
pub fn parse_u32(text: &[u8]) -> (r: Option<u32>)
    ensures
        r == u32_of(text@),
{
    if text.len() == 0 {
        return None;
    }
    if text[0] == MINUS {
        None
    } else if text[0] == PLUS {
        match magnitude(slice_subrange(text, 1, text.len()), 0xffff_ffff) {
            Some(v) => Some(v as u32),
            None => None,
        }
    } else {
        match magnitude(text, 0xffff_ffff) {
            Some(v) => Some(v as u32),
            None => None,
        }
    }
}

/// The text that the bytes `s` are. They must be UTF-8.
pub fn to_string(s: &[u8]) -> (out: &str)
    requires
        valid_utf8(s@),
    ensures
        out.spec_bytes() == s@,
        out@ == decode_utf8(s@),
{
    match text(s) {
        Some(out) => out,
        None => "",
    }
}

/// The `i32` that `s` writes. `s` must write one.
pub fn to_i32(s: &str) -> (v: i32)
    requires
        i32_of(s.spec_bytes()) is Some,
    ensures
        i32_of(s.spec_bytes()) == Some(v),
{
    match parse_i32(s.as_bytes()) {
        Some(v) => v,
        None => 0,
    }
}

/// The `u32` that `s` writes. `s` must write one.
pub fn to_u32(s: &str) -> (v: u32)
    requires
        u32_of(s.spec_bytes()) is Some,
    ensures
        u32_of(s.spec_bytes()) == Some(v),
{
    match parse_u32(s.as_bytes()) {
        Some(v) => v,
        None => 0,
    }
}

/// The `u32` that the bytes `s` write. They must write one.
pub fn buf_to_u32(s: &[u8]) -> (v: u32)
    requires
        u32_of(s@) is Some,
    ensures
        u32_of(s@) == Some(v),
{
    match parse_u32(s) {
        Some(v) => v,
        None => 0,
    }
}

/// The `i32` that the bytes `s` write. They must write one.
pub fn buf_to_i32(s: &[u8]) -> (v: i32)
    requires
        i32_of(s@) is Some,
    ensures
        i32_of(s@) == Some(v),
{
    match parse_i32(s) {
        Some(v) => v,
        None => 0,
    }
}

} // verus!
