//! How a rule ends: with a value and the bytes it used, or with the reason
//! why it stopped and the place.

use vstd::prelude::*;
use vstd::string::StringSliceAdditionalSpecFns;
use vstd::utf8::decode_utf8;

verus! {

/// Why a rule stopped. The input is held whole, so a rule that runs out of
/// bytes has failed like one that meets the wrong byte: both are
/// `Malformed`.
#[derive(Clone, Copy, Debug, PartialEq, Eq, Structural)]
pub enum FailureKind {
    /// A literal, a delimiter or a digit is not where the rule expects it.
    Malformed,
    /// The bytes of a text field are not UTF-8.
    Encoding,
}

/// The failure of one rule. `offset` counts the bytes of the rule's input
/// that lie before the step that failed.
#[derive(Clone, Copy, Debug, PartialEq, Eq, Structural)]
pub struct Fault {
    pub kind: FailureKind,
    pub offset: usize,
}

/// The steps of a record, in the order in which they are taken.
#[derive(Clone, Copy, Debug, PartialEq, Eq, Structural)]
pub enum Stage {
    /// The header line with the hardware address.
    Mac,
    /// The line with the network name.
    Ssid,
    /// The protocol and mode lines, which are passed over.
    ModeLines,
    /// The frequency line with the channel number.
    Channel,
    /// The encryption, bit rate and information element lines, which are
    /// passed over.
    RateLines,
    /// The line with the signal level.
    Signal,
}

/// The failure of a record: the stage that failed, why, and how many bytes
/// of the record's input lie before the step that failed.
#[derive(Clone, Copy, Debug, PartialEq, Eq, Structural)]
pub struct Failure {
    pub stage: Stage,
    pub kind: FailureKind,
    pub offset: usize,
}

/// What the grammar makes of an input.
pub enum Reading<V> {
    /// The rule matched the first `used` bytes and read `value` from them.
    Done { used: int, value: V },
    /// The rule failed `at` bytes into its input. Nothing is used.
    Stopped { kind: FailureKind, at: int },
}

impl<V> Reading<V> {
    /// The same reading, seen from `base` bytes before the rule's input.
    pub open spec fn shifted(self, base: int) -> Reading<V> {
        match self {
            Reading::Done { used, value } => Reading::Done { used: base + used, value },
            Reading::Stopped { kind, at } => Reading::Stopped { kind, at: base + at },
        }
    }

    /// This reading, and behind the bytes that it used the reading `next`,
    /// whose value is kept. `next` is what a second rule makes of
    /// `self.leftover(s)`.
    pub open spec fn followed_by<W>(self, next: Reading<W>) -> Reading<W> {
        match self {
            Reading::Done { used, value } => next.shifted(used),
            Reading::Stopped { kind, at } => Reading::Stopped { kind, at },
        }
    }

    /// This reading, whose value is kept, and behind the bytes that it used
    /// the reading `next`.
    pub open spec fn before<W>(self, next: Reading<W>) -> Reading<V> {
        match self {
            Reading::Done { used, value } => match next {
                Reading::Done { used: more, value: dropped } => Reading::Done {
                    used: used + more,
                    value,
                },
                Reading::Stopped { kind, at } => Reading::Stopped { kind, at: used + at },
            },
            Reading::Stopped { kind, at } => Reading::Stopped { kind, at },
        }
    }

    /// What is left of the input `s` after this reading: the bytes behind
    /// those that were used, or all of `s` where the rule stopped.
    pub open spec fn leftover(self, s: Seq<u8>) -> Seq<u8> {
        match self {
            Reading::Done { used, value } => s.skip(used),
            Reading::Stopped { kind, at } => s,
        }
    }

    /// No position in the reading lies behind the end of an input of `len`
    /// bytes.
    pub open spec fn within(self, len: nat) -> bool {
        match self {
            Reading::Done { used, value } => 0 <= used <= len,
            Reading::Stopped { kind, at } => 0 <= at <= len,
        }
    }
}

/// Two rules in a row stay within the input, and leave what the second
/// leaves of what the first left.
pub proof fn lemma_chained<V, W>(s: Seq<u8>, first: Reading<V>, next: Reading<W>)
    requires
        first.within(s.len()),
        next.within(first.leftover(s).len()),
    ensures
        first.followed_by(next).within(s.len()),
        first.before(next).within(s.len()),
        first is Done && next is Done ==> {
            &&& first.followed_by(next).leftover(s) == next.leftover(first.leftover(s))
            &&& first.before(next).leftover(s) == next.leftover(first.leftover(s))
        },
{
    if let Reading::Done { used, value } = first {
        if let Reading::Done { used: more, value: other } = next {
            assert(s.skip(used).skip(more) =~= s.skip(used + more));
        }
    }
}

impl Fault {
    /// The same fault, seen from `base` bytes before the rule's input.
    pub fn shifted(self, base: usize) -> (f: Fault)
        requires
            base + self.offset <= usize::MAX,
        ensures
            f.kind == self.kind,
            f.offset == base + self.offset,
    {
        Fault { kind: self.kind, offset: base + self.offset }
    }
}

/// The result `r` of a rule on the input `s` is what the reading `m` says:
/// the bytes that were read and the rest of `s` behind those that were
/// used, or the fault.
pub open spec fn agrees(r: Result<(&[u8], &[u8]), Fault>, s: Seq<u8>, m: Reading<Seq<u8>>) -> bool {
    &&& m.within(s.len())
    &&& match m {
        Reading::Done { used, value } => r matches Ok((rest, out)) && rest@ == s.skip(used)
            && out@ == value,
        Reading::Stopped { kind, at } => r matches Err(f) && f.kind == kind && f.offset == at,
    }
}

/// As `agrees`, for a rule that hands the bytes out as text: the text is
/// made of the bytes that were read, and is what they decode to.
pub open spec fn agrees_text(r: Result<(&[u8], &str), Fault>, s: Seq<u8>, m: Reading<Seq<u8>>) -> bool {
    &&& m.within(s.len())
    &&& match m {
        Reading::Done { used, value } => r matches Ok((rest, out)) && rest@ == s.skip(used)
            && out.spec_bytes() == value && out@ == decode_utf8(value),
        Reading::Stopped { kind, at } => r matches Err(f) && f.kind == kind && f.offset == at,
    }
}

/// As `agrees`, for a rule that hands out a number.
pub open spec fn agrees_number(r: Result<(&[u8], i32), Fault>, s: Seq<u8>, m: Reading<int>) -> bool {
    &&& m.within(s.len())
    &&& match m {
        Reading::Done { used, value } => r matches Ok((rest, out)) && rest@ == s.skip(used)
            && out == value,
        Reading::Stopped { kind, at } => r matches Err(f) && f.kind == kind && f.offset == at,
    }
}

} // verus!
