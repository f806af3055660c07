//! The fields of a record: each rule reads one of them from the line on
//! which it stands.

use vstd::prelude::*;
use vstd::string::StringSliceAdditionalSpecFns;
use crate::bytes::OPEN_PAREN;
use crate::failure::{
    agrees_number, agrees_text, lemma_chained, FailureKind, Fault, Reading,
};
use crate::helpers::{i32_of, parse_i32};
use crate::scan::{
    as_text, block, lemma_padded, line, not_line_ending, padded, space, text, take,
    take_until, trimmed, up_to,
};
use crate::token::{
    channel_mark, label, labeled, quoted, signal_mark, tag_address, tag_channel, tag_essid,
    tag_signal_value, unquoted, ADDRESS, ESSID, SIGNAL_LEVEL,
};

verus! {

/// The number of bytes before the address label: the header of a cell, ten
/// blanks and `Cell NN - `.
pub const HEADER_LEN: usize = 20;

/// The number of bytes behind the slash of a signal level that belong to
/// it: the `100` of `/100`.
pub const SIGNAL_SUFFIX_LEN: usize = 3;

/// The hardware address: the header of the cell, which is passed over, the
/// address label between whitespace, and the rest of the line, which must
/// be UTF-8 and is the value.
#[verifier::opaque]
pub open spec fn address(s: Seq<u8>) -> Reading<Seq<u8>> {
    let header = block(s, HEADER_LEN as int);
    let tag = header.followed_by(label(header.leftover(s), ADDRESS.spec_bytes()));
    tag.followed_by(as_text(line(tag.leftover(s))))
}

/// The network name: the name label between whitespace, then a quoted text,
/// which is the value.
#[verifier::opaque]
pub open spec fn essid(s: Seq<u8>) -> Reading<Seq<u8>> {
    let tag = label(s, ESSID.spec_bytes());
    tag.followed_by(quoted(tag.leftover(s)))
}

/// The channel: the bytes before the first `(`, which are passed over, and
/// the channel in its brackets, whose digits are the value.
#[verifier::opaque]
pub open spec fn channel(s: Seq<u8>) -> Reading<Seq<u8>> {
    let junk = up_to(s, OPEN_PAREN);
    junk.followed_by(as_text(channel_mark(junk.leftover(s))))
}

/// The text of the signal quality: the signal label, the value between `=`
/// and `/`, and the bytes of the suffix, each between whitespace. The value
/// is what stands between `=` and `/`.
pub open spec fn signal_text(s: Seq<u8>) -> Reading<Seq<u8>> {
    let tag = label(s, SIGNAL_LEVEL.spec_bytes());
    let s1 = tag.leftover(s);
    let value = tag.followed_by(padded(s1, signal_mark(trimmed(s1))));
    let s2 = value.leftover(s);
    value.before(padded(s2, block(trimmed(s2), SIGNAL_SUFFIX_LEN as int)))
}

/// The signal quality: the integer that the text of the signal quality
/// writes, which must be an `i32`.
#[verifier::opaque]
pub open spec fn signal(s: Seq<u8>) -> Reading<int> {
    match signal_text(s) {
        Reading::Done { used, value } => match i32_of(value) {
            Some(v) => Reading::Done { used, value: v as int },
            None => Reading::Stopped { kind: FailureKind::Malformed, at: 0 },
        },
        Reading::Stopped { kind, at } => Reading::Stopped { kind, at },
    }
}

/// Reads the hardware address of a record from its header line.
pub fn parse_address<'a>(input: &'a [u8]) -> (r: Result<(&'a [u8], &'a str), Fault>)
    ensures
        agrees_text(r, input@, address(input@)),
{
    reveal(address);
    let ghost header = block(input@, HEADER_LEN as int);
    let (rest, _) = match take(input, HEADER_LEN) {
        Ok(parts) => parts,
        Err(f) => {
            return Err(f);
        },
    };
    let ghost tag = header.followed_by(label(rest@, ADDRESS.spec_bytes()));
    let found = tag_address(rest);
    proof {
        lemma_chained(input@, header, label(rest@, ADDRESS.spec_bytes()));
    }
    let (rest, _) = match found {
        Ok(parts) => parts,
        Err(f) => {
            return Err(f.shifted(input.len() - rest.len()));
        },
    };
    let found = not_line_ending(rest);
    proof {
        lemma_chained(input@, tag, as_text(line(rest@)));
    }
    let base = input.len() - rest.len();
    match found {
        Ok((rest, run)) => match text(run) {
            Some(out) => Ok((rest, out)),
            None => Err(Fault { kind: FailureKind::Encoding, offset: base }),
        },
        Err(f) => Err(f.shifted(base)),
    }
}

/// Reads the network name of a record from its name line.
pub fn parse_essid<'a>(input: &'a [u8]) -> (r: Result<(&'a [u8], &'a str), Fault>)
    ensures
        agrees_text(r, input@, essid(input@)),
{
    reveal(essid);
    let ghost tag = label(input@, ESSID.spec_bytes());
    let (rest, _) = match tag_essid(input) {
        Ok(parts) => parts,
        Err(f) => {
            return Err(f);
        },
    };
    let found = unquoted(rest);
    proof {
        lemma_chained(input@, tag, quoted(rest@));
    }
    match found {
        Ok(parts) => Ok(parts),
        Err(f) => Err(f.shifted(input.len() - rest.len())),
    }
}

/// Reads the channel of a record from its frequency line.
pub fn parse_channel<'a>(input: &'a [u8]) -> (r: Result<(&'a [u8], &'a str), Fault>)
    ensures
        agrees_text(r, input@, channel(input@)),
{
    reveal(channel);
    let ghost junk = up_to(input@, OPEN_PAREN);
    let (rest, _) = match take_until(input, OPEN_PAREN) {
        Ok(parts) => parts,
        Err(f) => {
            return Err(f);
        },
    };
    let found = tag_channel(rest);
    proof {
        lemma_chained(input@, junk, as_text(channel_mark(rest@)));
    }
    let base = input.len() - rest.len();
    match found {
        Ok((rest, run)) => match text(run) {
            Some(out) => Ok((rest, out)),
            None => Err(Fault { kind: FailureKind::Encoding, offset: base }),
        },
        Err(f) => Err(f.shifted(base)),
    }
}

/// Reads the signal quality of a record from its signal line.
pub fn parse_signal_strength_ubuntu<'a>(input: &'a [u8]) -> (r: Result<(&'a [u8], i32), Fault>)
    ensures
        agrees_number(r, input@, signal(input@)),
{
    reveal(signal);
    let ghost tag = label(input@, SIGNAL_LEVEL.spec_bytes());
    let (rest, _) = match labeled(input, SIGNAL_LEVEL) {
        Ok(parts) => parts,
        Err(f) => {
            return Err(f);
        },
    };
    let ghost s1 = rest@;
    let start = space(rest);
    let found = tag_signal_value(start);
    let ghost inner = padded(s1, signal_mark(start@));
    let ghost value = tag.followed_by(inner);
    proof {
        lemma_padded(s1, signal_mark(start@));
        lemma_chained(input@, tag, inner);
    }
    let (rest, value_text) = match found {
        Ok(parts) => parts,
        Err(f) => {
            return Err(f.shifted(input.len() - start.len()));
        },
    };
    let rest = space(rest);
    let ghost s2 = rest@;
    let start = space(rest);
    let found = take(start, SIGNAL_SUFFIX_LEN);
    proof {
        lemma_padded(s2, block(start@, SIGNAL_SUFFIX_LEN as int));
        lemma_chained(input@, value, padded(s2, block(start@, SIGNAL_SUFFIX_LEN as int)));
    }
    let rest = match found {
        Ok((rest, _)) => space(rest),
        Err(f) => {
            return Err(f.shifted(input.len() - start.len()));
        },
    };
    match parse_i32(value_text) {
        Some(v) => Ok((rest, v)),
        None => Err(Fault { kind: FailureKind::Malformed, offset: 0 }),
    }
}

} // verus!
