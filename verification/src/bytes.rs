//! Classes of bytes, and the runs of them at the head of an input.

use vstd::prelude::*;

verus! {

pub const QUOTE: u8 = 0x22;

pub const OPEN_PAREN: u8 = 0x28;

pub const CLOSE_PAREN: u8 = 0x29;

pub const COLON: u8 = 0x3a;

pub const PLUS: u8 = 0x2b;

pub const MINUS: u8 = 0x2d;

pub const SLASH: u8 = 0x2f;

pub const EQUALS: u8 = 0x3d;

pub const LINE_FEED: u8 = 0x0a;

pub const CARRIAGE_RETURN: u8 = 0x0d;

/// A blank, a tab, a carriage return or a line feed.
pub open spec fn is_space(b: u8) -> bool {
    b == 0x20 || b == 0x09 || b == CARRIAGE_RETURN || b == LINE_FEED
}

/// One of the ASCII digits `0` to `9`.
pub open spec fn is_digit(b: u8) -> bool {
    0x30 <= b <= 0x39
}

/// One of the hexadecimal digits: `0` to `9`, `A` to `F` or `a` to `f`.
pub open spec fn is_hex_digit(b: u8) -> bool {
    is_digit(b) || 0x41 <= b <= 0x46 || 0x61 <= b <= 0x66
}

/// A carriage return or a line feed.
pub open spec fn is_line_break(b: u8) -> bool {
    b == CARRIAGE_RETURN || b == LINE_FEED
}

/// The length of the longest run of bytes at the head of `s` that all
/// satisfy `p`.
pub open spec fn run_len(s: Seq<u8>, p: spec_fn(u8) -> bool) -> nat
    decreases s.len(),
{
    if s.len() > 0 && p(s[0]) {
        1 + run_len(s.skip(1), p)
    } else {
        0
    }
}

/// The class of whitespace bytes.
pub open spec fn spaces() -> spec_fn(u8) -> bool {
    |b: u8| is_space(b)
}

/// The class of digits.
pub open spec fn digits() -> spec_fn(u8) -> bool {
    |b: u8| is_digit(b)
}

/// The class of bytes that break no line.
pub open spec fn line_bytes() -> spec_fn(u8) -> bool {
    |b: u8| !is_line_break(b)
}

/// The class of bytes other than `b`.
pub open spec fn all_but(b: u8) -> spec_fn(u8) -> bool {
    |x: u8| x != b
}

/// The number of whitespace bytes at the head of `s`.
pub open spec fn space_len(s: Seq<u8>) -> nat {
    run_len(s, spaces())
}

/// The number of digits at the head of `s`.
pub open spec fn digits_len(s: Seq<u8>) -> nat {
    run_len(s, digits())
}

/// The number of bytes at the head of `s` that stand before the first line
/// break.
pub open spec fn line_len(s: Seq<u8>) -> nat {
    run_len(s, line_bytes())
}

/// The number of bytes at the head of `s` that stand before the first `b`:
/// the index of the first `b`, or the length of `s` where it holds none.
pub open spec fn len_until(s: Seq<u8>, b: u8) -> nat {
    run_len(s, all_but(b))
}

/// A run ends within the input, holds only bytes that satisfy `p`, and is
/// followed by a byte that does not, or by nothing.
pub proof fn lemma_run_len(s: Seq<u8>, p: spec_fn(u8) -> bool)
    ensures
        run_len(s, p) <= s.len(),
        forall|i: int| 0 <= i < run_len(s, p) ==> p(#[trigger] s[i]),
        run_len(s, p) < s.len() ==> !p(s[run_len(s, p) as int]),
    decreases s.len(),
{
    if s.len() > 0 && p(s[0]) {
        let t = s.skip(1);
        lemma_run_len(t, p);
        assert forall|i: int| 0 <= i < run_len(s, p) implies p(#[trigger] s[i]) by {
            if i > 0 {
                assert(s[i] == t[i - 1]);
            }
        }
        if run_len(s, p) < s.len() {
            assert(s[run_len(s, p) as int] == t[run_len(t, p) as int]);
        }
    }
}

/// The run is the only prefix that holds only bytes that satisfy `p` and is
/// followed by a byte that does not, or by nothing.
pub proof fn lemma_run_len_is(s: Seq<u8>, p: spec_fn(u8) -> bool, n: nat)
    requires
        n <= s.len(),
        forall|i: int| 0 <= i < n ==> p(#[trigger] s[i]),
        n < s.len() ==> !p(s[n as int]),
    ensures
        run_len(s, p) == n,
    decreases n,
{
    if n > 0 {
        let t = s.skip(1);
        assert(p(s[0]));
        assert forall|i: int| 0 <= i < n - 1 implies p(#[trigger] t[i]) by {
            assert(t[i] == s[i + 1]);
        }
        if n < s.len() {
            assert(t[n - 1] == s[n as int]);
        }
        lemma_run_len_is(t, p, (n - 1) as nat);
    }
}

} // verus!
