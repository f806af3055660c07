//! The steps that every rule is made of. Three of them rest on a call into
//! `nom`, one on a call into `std`; the contracts of these calls are
//! believed, not proved. All else is verified.

use vstd::prelude::*;
use vstd::slice::slice_subrange;
use vstd::string::StringSliceAdditionalSpecFns;
use vstd::utf8::{decode_utf8, encode_utf8_decode_utf8, valid_utf8};
use crate::bytes::{
    all_but, digits, digits_len, lemma_run_len, lemma_run_len_is, len_until, line_bytes,
    line_len, space_len, spaces, CARRIAGE_RETURN, LINE_FEED,
};
use crate::failure::{agrees, FailureKind, Fault, Reading};

verus! {

/// `s` has a lone carriage return where its first line ends: one that no
/// line feed follows.
pub open spec fn stray_return(s: Seq<u8>) -> bool {
    let n = line_len(s) as int;
    n < s.len() && s[n] == CARRIAGE_RETURN && !(n + 1 < s.len() && s[n + 1] == LINE_FEED)
}

/// The first `n` bytes, read as they are. Fails where `s` is shorter.
pub open spec fn block(s: Seq<u8>, n: int) -> Reading<Seq<u8>> {
    if 0 <= n <= s.len() {
        Reading::Done { used: n, value: s.take(n) }
    } else {
        Reading::Stopped { kind: FailureKind::Malformed, at: 0 }
    }
}

/// The bytes of `word`, with which `s` must begin.
pub open spec fn word_at(s: Seq<u8>, word: Seq<u8>) -> Reading<Seq<u8>> {
    if word.is_prefix_of(s) {
        Reading::Done { used: word.len() as int, value: word }
    } else {
        Reading::Stopped { kind: FailureKind::Malformed, at: 0 }
    }
}

/// The byte `b`, with which `s` must begin.
pub open spec fn byte_at(s: Seq<u8>, b: u8) -> Reading<Seq<u8>> {
    if s.len() > 0 && s[0] == b {
        Reading::Done { used: 1, value: s.take(1) }
    } else {
        Reading::Stopped { kind: FailureKind::Malformed, at: 0 }
    }
}

/// The bytes before the first `b`, which `s` must hold.
pub open spec fn up_to(s: Seq<u8>, b: u8) -> Reading<Seq<u8>> {
    if len_until(s, b) < s.len() {
        Reading::Done { used: len_until(s, b) as int, value: s.take(len_until(s, b) as int) }
    } else {
        Reading::Stopped { kind: FailureKind::Malformed, at: 0 }
    }
}

/// `s` without its leading whitespace.
pub open spec fn trimmed(s: Seq<u8>) -> Seq<u8> {
    s.skip(space_len(s) as int)
}

/// Whitespace, which may be none, then the reading `inner`, then
/// whitespace again. `inner` is what a rule makes of `trimmed(s)`.
pub open spec fn padded<V>(s: Seq<u8>, inner: Reading<V>) -> Reading<V> {
    match inner.shifted(space_len(s) as int) {
        Reading::Done { used, value } => Reading::Done {
            used: used + space_len(s.skip(used)),
            value,
        },
        Reading::Stopped { kind, at } => Reading::Stopped { kind, at },
    }
}

/// The digits at the head of `s`, of which there must be one at least.
pub open spec fn number(s: Seq<u8>) -> Reading<Seq<u8>> {
    if digits_len(s) > 0 {
        Reading::Done { used: digits_len(s) as int, value: s.take(digits_len(s) as int) }
    } else {
        Reading::Stopped { kind: FailureKind::Malformed, at: 0 }
    }
}

/// The bytes before the first line break, or all of `s` where it holds
/// none. Fails at a carriage return that no line feed follows.
pub open spec fn line(s: Seq<u8>) -> Reading<Seq<u8>> {
    if stray_return(s) {
        Reading::Stopped { kind: FailureKind::Malformed, at: 0 }
    } else {
        Reading::Done { used: line_len(s) as int, value: s.take(line_len(s) as int) }
    }
}

/// The reading `m` of a rule whose bytes are wanted as text: it fails, at
/// the head of the rule's input, where the bytes are not UTF-8.
pub open spec fn as_text(m: Reading<Seq<u8>>) -> Reading<Seq<u8>> {
    match m {
        Reading::Done { used, value } => if valid_utf8(value) {
            m
        } else {
            Reading::Stopped { kind: FailureKind::Encoding, at: 0 }
        },
        Reading::Stopped { kind, at } => m,
    }
}

/// A rule between whitespace stays within the input, and leaves what is
/// left behind the rule without its leading whitespace.
pub proof fn lemma_padded<V>(s: Seq<u8>, inner: Reading<V>)
    requires
        inner.within(trimmed(s).len()),
    ensures
        space_len(s) <= s.len(),
        padded(s, inner).within(s.len()),
        inner is Done ==> padded(s, inner).leftover(s) == trimmed(inner.leftover(trimmed(s))),
{
    lemma_run_len(s, spaces());
    if let Reading::Done { used, value } = inner {
        let a = space_len(s);
        assert(trimmed(s).skip(used) =~= s.skip(a + used));
        let t = s.skip(a + used);
        lemma_run_len(t, spaces());
        assert(t.skip(space_len(t) as int) =~= s.skip(a + used + space_len(t)));
    }
}

/// Calls `nom::sp`, which splits its input behind the leading blanks, tabs,
/// carriage returns and line feeds and never fails. Claimed: the call
/// returns `Done`, and hands back the input without its leading whitespace
/// and that whitespace, in this order.
#[verifier::external_body]
fn nom_sp<'a>(input: &'a [u8]) -> (r: Option<(&'a [u8], &'a [u8])>)
    ensures
        r is Some,
        r matches Some((rest, run)) ==> {
            &&& run@ == input@.take(space_len(input@) as int)
            &&& rest@ == input@.skip(space_len(input@) as int)
        },
{
    match nom::sp(input) {
        nom::IResult::Done(rest, run) => Some((rest, run)),
        nom::IResult::Error(_) => None,
        nom::IResult::Incomplete(_) => None,
    }
}

/// Calls `nom::digit`, which splits its input behind the leading ASCII
/// digits. Claimed: the call returns `Done` exactly when the input begins
/// with a digit (on an empty input it returns `Incomplete`, on another
/// first byte `Error`), and then hands back the rest and the digits, in
/// this order.
#[verifier::external_body]
fn nom_digit<'a>(input: &'a [u8]) -> (r: Option<(&'a [u8], &'a [u8])>)
    ensures
        r is Some <==> digits_len(input@) > 0,
        r matches Some((rest, run)) ==> {
            &&& run@ == input@.take(digits_len(input@) as int)
            &&& rest@ == input@.skip(digits_len(input@) as int)
        },
{
    match nom::digit(input) {
        nom::IResult::Done(rest, run) => Some((rest, run)),
        nom::IResult::Error(_) => None,
        nom::IResult::Incomplete(_) => None,
    }
}

/// Calls `nom::not_line_ending`, which splits its input before the first
/// carriage return or line feed. Claimed: the call returns `Done` unless
/// the first of them is a carriage return that no line feed follows (then
/// it returns `Error`, or `Incomplete` where the input ends there), and
/// then hands back the rest, which begins with the line break, and the
/// line before it, in this order.
#[verifier::external_body]
fn nom_not_line_ending<'a>(input: &'a [u8]) -> (r: Option<(&'a [u8], &'a [u8])>)
    ensures
        r is Some <==> !stray_return(input@),
        r matches Some((rest, run)) ==> {
            &&& run@ == input@.take(line_len(input@) as int)
            &&& rest@ == input@.skip(line_len(input@) as int)
        },
{
    match nom::not_line_ending(input) {
        nom::IResult::Done(rest, run) => Some((rest, run)),
        nom::IResult::Error(_) => None,
        nom::IResult::Incomplete(_) => None,
    }
}

/// Calls `std::str::from_utf8`. Claimed: the call returns `Ok` exactly when
/// the bytes are UTF-8, and the text that it hands back is made of these
/// bytes.
#[verifier::external_body]
fn str_from_utf8<'a>(bytes: &'a [u8]) -> (r: Option<&'a str>)
    ensures
        r is Some <==> valid_utf8(bytes@),
        r matches Some(text) ==> text.spec_bytes() == bytes@,
{
    std::str::from_utf8(bytes).ok()
}

/// The text that `bytes` are, where they are UTF-8.
pub fn text<'a>(bytes: &'a [u8]) -> (r: Option<&'a str>)
    ensures
        r is Some <==> valid_utf8(bytes@),
        r matches Some(out) ==> out.spec_bytes() == bytes@ && out@ == decode_utf8(bytes@),
{
    let r = str_from_utf8(bytes);
    proof {
        if let Some(out) = r {
            encode_utf8_decode_utf8(out@);
        }
    }
    r
}

/// A fault of kind `Malformed` at the head of the input.
fn malformed() -> (f: Fault)
    ensures
        f.kind == FailureKind::Malformed,
        f.offset == 0,
{
    Fault { kind: FailureKind::Malformed, offset: 0 }
}

/// Splits `input` behind its first `n` bytes.
pub fn take<'a>(input: &'a [u8], n: usize) -> (r: Result<(&'a [u8], &'a [u8]), Fault>)
    ensures
        agrees(r, input@, block(input@, n as int)),
{
    if n <= input.len() {
        let head = slice_subrange(input, 0, n);
        let rest = slice_subrange(input, n, input.len());
        Ok((rest, head))
    } else {
        Err(malformed())
    }
}

/// Splits `input` behind the bytes of `word`.
pub fn literal<'a>(input: &'a [u8], word: &str) -> (r: Result<(&'a [u8], &'a [u8]), Fault>)
    ensures
        agrees(r, input@, word_at(input@, word.spec_bytes())),
{
    let w = word.as_bytes();
    let n = w.len();
    if input.len() < n {
        return Err(malformed());
    }
    let mut i: usize = 0;
    while i < n
        invariant
            n == w@.len(),
            n <= input@.len(),
            i <= n,
            w@ == word.spec_bytes(),
            forall|j: int| 0 <= j < i ==> input@[j] == w@[j],
        decreases n - i,
    {
        if input[i] != w[i] {
            assert(input@.subrange(0, n as int)[i as int] != w@[i as int]);
            return Err(malformed());
        }
        i += 1;
    }
    assert(input@.subrange(0, n as int) =~= w@);
    take(input, n)
}

/// Splits `input` behind its first byte, which must be `b`.
pub fn byte<'a>(input: &'a [u8], b: u8) -> (r: Result<(&'a [u8], &'a [u8]), Fault>)
    ensures
        agrees(r, input@, byte_at(input@, b)),
{
    if input.len() > 0 && input[0] == b {
        take(input, 1)
    } else {
        Err(malformed())
    }
}

/// Splits `input` before its first byte `b`.
pub fn take_until<'a>(input: &'a [u8], b: u8) -> (r: Result<(&'a [u8], &'a [u8]), Fault>)
    ensures
        agrees(r, input@, up_to(input@, b)),
{
    let mut i: usize = 0;
    while i < input.len() && input[i] != b
        invariant
            i <= input@.len(),
            forall|j: int| 0 <= j < i ==> input@[j] != b,
        decreases input@.len() - i,
    {
        i += 1;
    }
    proof {
        lemma_run_len_is(input@, all_but(b), i as nat);
    }
    if i < input.len() {
        take(input, i)
    } else {
        Err(malformed())
    }
}

/// Hands back `input` without its leading whitespace.
pub fn space<'a>(input: &'a [u8]) -> (rest: &'a [u8])
    ensures
        rest@ == trimmed(input@),
        space_len(input@) + rest@.len() == input@.len(),
{
    proof {
        lemma_run_len(input@, spaces());
    }
    match nom_sp(input) {
        Some((rest, _)) => rest,
        None => input,
    }
}

/// Splits `input` behind its leading digits.
pub fn digit<'a>(input: &'a [u8]) -> (r: Result<(&'a [u8], &'a [u8]), Fault>)
    ensures
        agrees(r, input@, number(input@)),
{
    proof {
        lemma_run_len(input@, digits());
    }
    match nom_digit(input) {
        Some(parts) => Ok(parts),
        None => Err(malformed()),
    }
}

/// Splits `input` before its first line break.
pub fn not_line_ending<'a>(input: &'a [u8]) -> (r: Result<(&'a [u8], &'a [u8]), Fault>)
    ensures
        agrees(r, input@, line(input@)),
{
    proof {
        lemma_run_len(input@, line_bytes());
    }
    match nom_not_line_ending(input) {
        Some(parts) => Ok(parts),
        None => Err(malformed()),
    }
}

} // verus!
