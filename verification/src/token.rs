//! The tokens of a scan: quotes, labels, the channel in its brackets, the
//! signal value before its slash.

use vstd::prelude::*;
use vstd::string::StringSliceAdditionalSpecFns;
use crate::bytes::{len_until, CLOSE_PAREN, EQUALS, OPEN_PAREN, QUOTE, SLASH};
use crate::failure::{agrees, agrees_text, lemma_chained, FailureKind, Fault, Reading};
use crate::scan::{
    as_text, byte, byte_at, digit, lemma_padded, literal, number, padded, space, text,
    take_until, trimmed, up_to, word_at,
};

verus! {

/// The label before a network name.
pub const ESSID: &'static str = "ESSID:";

/// The label before a hardware address.
pub const ADDRESS: &'static str = "Address: ";

/// The label before a channel number.
pub const CHANNEL: &'static str = "Channel ";

/// The label before a signal level.
pub const SIGNAL_LEVEL: &'static str = "Signal level";

/// The byte `open`, the bytes before the first `close` behind it, and that
/// `close`. The value is what stands between the two.
pub open spec fn enclosed(s: Seq<u8>, open: u8, close: u8) -> Reading<Seq<u8>> {
    let first = byte_at(s, open);
    let body = first.followed_by(up_to(first.leftover(s), close));
    body.before(byte_at(body.leftover(s), close))
}

/// A double quote.
pub open spec fn quote_mark(s: Seq<u8>) -> Reading<Seq<u8>> {
    byte_at(s, QUOTE)
}

/// A quoted text between whitespace: a double quote, the bytes before the
/// next double quote, which must be UTF-8, and that quote. No whitespace is
/// dropped between the quotes.
pub open spec fn quoted(s: Seq<u8>) -> Reading<Seq<u8>> {
    as_text(padded(s, enclosed(trimmed(s), QUOTE, QUOTE)))
}

/// The label `word` between whitespace.
pub open spec fn label(s: Seq<u8>, word: Seq<u8>) -> Reading<Seq<u8>> {
    padded(s, word_at(trimmed(s), word))
}

/// The channel in its brackets: `(`, the channel label, digits, `)`. The
/// value is the digits.
pub open spec fn channel_mark(s: Seq<u8>) -> Reading<Seq<u8>> {
    let open = byte_at(s, OPEN_PAREN);
    let word = open.followed_by(word_at(open.leftover(s), CHANNEL.spec_bytes()));
    let digits = word.followed_by(number(word.leftover(s)));
    digits.before(byte_at(digits.leftover(s), CLOSE_PAREN))
}

/// The signal value: `=`, the bytes before the next `/`, and that `/`.
pub open spec fn signal_mark(s: Seq<u8>) -> Reading<Seq<u8>> {
    enclosed(s, EQUALS, SLASH)
}

/// Reads the byte `open`, the bytes before the first `close` behind it, and
/// that `close`; hands back what stands between the two.
pub fn delimited<'a>(input: &'a [u8], open: u8, close: u8) -> (r: Result<
    (&'a [u8], &'a [u8]),
    Fault,
>)
    ensures
        agrees(r, input@, enclosed(input@, open, close)),
{
    let (rest, _) = match byte(input, open) {
        Ok(parts) => parts,
        Err(f) => {
            return Err(f);
        },
    };
    let (rest, body) = match take_until(rest, close) {
        Ok(parts) => parts,
        Err(f) => {
            return Err(f.shifted(1));
        },
    };
    let ghost n = len_until(input@.skip(1), close) as int;
    assert(rest@ == input@.skip(1 + n)) by {
        assert(input@.skip(1).skip(n) =~= input@.skip(1 + n));
    }
    match byte(rest, close) {
        Ok((rest, _)) => {
            assert(rest@ == input@.skip(1 + n + 1)) by {
                assert(input@.skip(1 + n).skip(1) =~= input@.skip(1 + n + 1));
            }
            Ok((rest, body))
        },
        Err(f) => Err(f.shifted(input.len() - rest.len())),
    }
}

/// Reads a double quote.
pub fn tag_quote<'a>(input: &'a [u8]) -> (r: Result<(&'a [u8], &'a [u8]), Fault>)
    ensures
        agrees(r, input@, quote_mark(input@)),
{
    byte(input, QUOTE)
}

/// Reads a quoted text between whitespace and hands back what stands
/// between the quotes.
pub fn unquoted<'a>(input: &'a [u8]) -> (r: Result<(&'a [u8], &'a str), Fault>)
    ensures
        agrees_text(r, input@, quoted(input@)),
{
    let start = space(input);
    proof {
        lemma_padded(input@, enclosed(start@, QUOTE, QUOTE));
    }
    let (rest, body) = match delimited(start, QUOTE, QUOTE) {
        Ok(parts) => parts,
        Err(f) => {
            return Err(f.shifted(input.len() - start.len()));
        },
    };
    let rest = space(rest);
    match text(body) {
        Some(out) => Ok((rest, out)),
        None => Err(Fault { kind: FailureKind::Encoding, offset: 0 }),
    }
}

/// Reads the label `word` between whitespace.
pub fn labeled<'a>(input: &'a [u8], word: &str) -> (r: Result<(&'a [u8], &'a [u8]), Fault>)
    ensures
        agrees(r, input@, label(input@, word.spec_bytes())),
{
    let start = space(input);
    proof {
        lemma_padded(input@, word_at(start@, word.spec_bytes()));
    }
    match literal(start, word) {
        Ok((rest, found)) => Ok((space(rest), found)),
        Err(f) => Err(f.shifted(input.len() - start.len())),
    }
}

/// Reads the label of a network name, between whitespace.
pub fn tag_essid<'a>(input: &'a [u8]) -> (r: Result<(&'a [u8], &'a [u8]), Fault>)
    ensures
        agrees(r, input@, label(input@, ESSID.spec_bytes())),
{
    labeled(input, ESSID)
}

/// Reads the label of a hardware address, between whitespace.
pub fn tag_address<'a>(input: &'a [u8]) -> (r: Result<(&'a [u8], &'a [u8]), Fault>)
    ensures
        agrees(r, input@, label(input@, ADDRESS.spec_bytes())),
{
    labeled(input, ADDRESS)
}

/// Reads the label of a signal level. No whitespace is passed over.
pub fn tag_signal<'a>(input: &'a [u8]) -> (r: Result<(&'a [u8], &'a [u8]), Fault>)
    ensures
        agrees(r, input@, word_at(input@, SIGNAL_LEVEL.spec_bytes())),
{
    literal(input, SIGNAL_LEVEL)
}

/// Reads the signal value with the `=` before it and the `/` behind it, and
/// hands the value back as it stands.
pub fn tag_signal_value<'a>(input: &'a [u8]) -> (r: Result<(&'a [u8], &'a [u8]), Fault>)
    ensures
        agrees(r, input@, signal_mark(input@)),
{
    delimited(input, EQUALS, SLASH)
}

/// Reads the channel in its brackets and hands back its digits.
pub fn tag_channel<'a>(input: &'a [u8]) -> (r: Result<(&'a [u8], &'a [u8]), Fault>)
    ensures
        agrees(r, input@, channel_mark(input@)),
{
    let ghost open = byte_at(input@, OPEN_PAREN);
    let (rest, _) = match byte(input, OPEN_PAREN) {
        Ok(parts) => parts,
        Err(f) => {
            return Err(f);
        },
    };
    let ghost word = open.followed_by(word_at(rest@, CHANNEL.spec_bytes()));
    let found = literal(rest, CHANNEL);
    proof {
        lemma_chained(input@, open, word_at(rest@, CHANNEL.spec_bytes()));
    }
    let (rest, _) = match found {
        Ok(parts) => parts,
        Err(f) => {
            return Err(f.shifted(1));
        },
    };
    let ghost digits = word.followed_by(number(rest@));
    let found = digit(rest);
    proof {
        lemma_chained(input@, word, number(rest@));
    }
    let (rest, run) = match found {
        Ok(parts) => parts,
        Err(f) => {
            return Err(f.shifted(input.len() - rest.len()));
        },
    };
    let found = byte(rest, CLOSE_PAREN);
    proof {
        lemma_chained(input@, digits, byte_at(rest@, CLOSE_PAREN));
    }
    match found {
        Ok((rest, _)) => Ok((rest, run)),
        Err(f) => Err(f.shifted(input.len() - rest.len())),
    }
}

} // verus!
