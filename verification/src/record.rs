//! The record of one access point, and the rule that reads it.

use vstd::prelude::*;
use vstd::string::StringSliceAdditionalSpecFns;
use vstd::utf8::{decode_utf8, encode_utf8};
use crate::bytes::{is_hex_digit, COLON};
use crate::failure::{lemma_chained, Failure, FailureKind, Fault, Reading, Stage};
use crate::field::{
    address, channel, essid, parse_address, parse_channel, parse_essid,
    parse_signal_strength_ubuntu, signal,
};
use crate::power::{decimal, parse_signal_strength, power_of};
use crate::scan::{block, take};

verus! {

/// The number of bytes between the name line and the frequency line that
/// are passed over: the protocol and mode lines of the one layout that is
/// read.
pub const MODE_LINES_LEN: usize = 73;

/// The number of bytes between the channel and the signal line that are
/// passed over: the encryption, bit rate and information element lines of
/// the one layout that is read.
pub const RATE_LINES_LEN: usize = 449;

/// The number of bytes of a well-formed hardware address.
pub const MAC_LEN: usize = 17;

/// One access point, as a scan reports it.
#[derive(Debug, PartialEq, Eq)]
pub struct Wifi {
    /// The hardware address.
    pub mac: String,
    /// The name of the network. May be empty.
    pub ssid: String,
    /// The channel number, in digits.
    pub channel: String,
    /// The power of the signal, as a decimal number.
    pub signal_level: String,
    /// Never read: always empty.
    pub security: String,
}

/// The texts of a record.
pub struct WifiView {
    pub mac: Seq<char>,
    pub ssid: Seq<char>,
    pub channel: Seq<char>,
    pub signal_level: Seq<char>,
    pub security: Seq<char>,
}

impl View for Wifi {
    type V = WifiView;

    open spec fn view(&self) -> WifiView {
        WifiView {
            mac: self.mac@,
            ssid: self.ssid@,
            channel: self.channel@,
            signal_level: self.signal_level@,
            security: self.security@,
        }
    }
}

/// The byte at `i` is what a well-formed hardware address has there: a
/// colon behind every pair, a hexadecimal digit elsewhere.
pub open spec fn mac_byte(t: Seq<u8>, i: int) -> bool {
    if i % 3 == 2 {
        t[i] == COLON
    } else {
        is_hex_digit(t[i])
    }
}

/// A well-formed hardware address: six pairs of hexadecimal digits with a
/// colon between each two pairs.
pub open spec fn is_mac(t: Seq<u8>) -> bool {
    t.len() == MAC_LEN && forall|i: int| 0 <= i < MAC_LEN ==> #[trigger] mac_byte(t, i)
}

impl Wifi {
    /// Whether the hardware address of this record is well formed. The
    /// record rule takes the address as its line gives it and does not ask.
    pub fn has_well_formed_mac(&self) -> (b: bool)
        ensures
            b == is_mac(encode_utf8(self.mac@)),
    {
        let t = self.mac.as_str().as_bytes();
        if t.len() != MAC_LEN {
            return false;
        }
        let mut i: usize = 0;
        while i < MAC_LEN
            invariant
                i <= MAC_LEN,
                t@.len() == MAC_LEN,
                t@ == encode_utf8(self.mac@),
                forall|j: int| 0 <= j < i ==> #[trigger] mac_byte(t@, j),
            decreases MAC_LEN - i,
        {
            let b = t[i];
            let fits = if i % 3 == 2 {
                b == COLON
            } else {
                (0x30 <= b && b <= 0x39) || (0x41 <= b && b <= 0x46) || (0x61 <= b && b <= 0x66)
            };
            if !fits {
                assert(!mac_byte(t@, i as int));
                return false;
            }
            i += 1;
        }
        true
    }
}

/// What the grammar makes of the input of a record.
pub enum Assembly {
    /// The first `used` bytes are a record.
    Built { used: int, record: WifiView },
    /// The stage `stage` failed `at` bytes into the input. There is no
    /// record, and nothing is used.
    Broken { stage: Stage, kind: FailureKind, at: int },
}

impl Assembly {
    /// What is left of the input `s` after this assembly: the bytes behind
    /// the record, or all of `s` where there is none.
    pub open spec fn leftover(self, s: Seq<u8>) -> Seq<u8> {
        match self {
            Assembly::Built { used, record } => s.skip(used),
            Assembly::Broken { stage, kind, at } => s,
        }
    }
}

/// The stage that fails first where the readings of the six stages are
/// these, each with its positions counted from the head of the record.
pub open spec fn first_failure(
    mac: Reading<Seq<u8>>,
    ssid: Reading<Seq<u8>>,
    modes: Reading<Seq<u8>>,
    chan: Reading<Seq<u8>>,
    rates: Reading<Seq<u8>>,
    level: Reading<int>,
) -> Stage {
    if mac is Stopped {
        Stage::Mac
    } else if ssid is Stopped {
        Stage::Ssid
    } else if modes is Stopped {
        Stage::ModeLines
    } else if chan is Stopped {
        Stage::Channel
    } else if rates is Stopped {
        Stage::RateLines
    } else {
        Stage::Signal
    }
}

/// A record: the hardware address, the name, the mode lines, the channel,
/// the rate lines and the signal quality, in this order and with nothing
/// between them. A stage begins where the one before it ended. The first
/// stage that fails breaks the record.
pub open spec fn record(s: Seq<u8>) -> Assembly {
    let mac = address(s);
    let ssid = mac.followed_by(essid(mac.leftover(s)));
    let modes = ssid.before(block(ssid.leftover(s), MODE_LINES_LEN as int));
    let chan = modes.followed_by(channel(modes.leftover(s)));
    let rates = chan.before(block(chan.leftover(s), RATE_LINES_LEN as int));
    let level = rates.followed_by(signal(rates.leftover(s)));
    match level {
        Reading::Done { used, value } => Assembly::Built {
            used,
            record: WifiView {
                mac: decode_utf8(mac->value),
                ssid: decode_utf8(ssid->value),
                channel: decode_utf8(chan->value),
                signal_level: decimal(power_of(value)),
                security: Seq::empty(),
            },
        },
        Reading::Stopped { kind, at } => Assembly::Broken {
            stage: first_failure(mac, ssid, modes, chan, rates, level),
            kind,
            at,
        },
    }
}

/// The result `r` of the record rule on the input `s` is what the assembly
/// `m` says: the record and the rest of `s` behind the bytes that were
/// used, or the failure.
pub open spec fn assembled(r: Result<(&[u8], Wifi), Failure>, s: Seq<u8>, m: Assembly) -> bool {
    match m {
        Assembly::Built { used, record } => {
            &&& 0 <= used <= s.len()
            &&& r matches Ok((rest, wifi))
            &&& rest@ == s.skip(used)
            &&& wifi@ == record
        },
        Assembly::Broken { stage, kind, at } => {
            &&& 0 <= at <= s.len()
            &&& r matches Err(f)
            &&& f.stage == stage
            &&& f.kind == kind
            &&& f.offset == at
        },
    }
}

/// The failure of the stage `stage`, which began `base` bytes into the
/// record and failed with `f`.
fn broken(stage: Stage, base: usize, f: Fault) -> (failure: Failure)
    requires
        base + f.offset <= usize::MAX,
    ensures
        failure.stage == stage,
        failure.kind == f.kind,
        failure.offset == base + f.offset,
{
    Failure { stage, kind: f.kind, offset: base + f.offset }
}

/// Reads one record from the head of `input`. Hands back the record and
/// the input behind it, or the failure of the first stage that failed.
pub fn wifi<'a>(input: &'a [u8]) -> (r: Result<(&'a [u8], Wifi), Failure>)
    ensures
        assembled(r, input@, record(input@)),
{
    let ghost s = input@;
    let ghost m1 = address(s);
    let (rest, mac) = match parse_address(input) {
        Ok(parts) => parts,
        Err(f) => {
            return Err(broken(Stage::Mac, 0, f));
        },
    };
    let ghost m2 = m1.followed_by(essid(rest@));
    let found = parse_essid(rest);
    proof {
        lemma_chained(s, m1, essid(rest@));
    }
    let (rest, ssid) = match found {
        Ok(parts) => parts,
        Err(f) => {
            return Err(broken(Stage::Ssid, input.len() - rest.len(), f));
        },
    };
    let ghost m3 = m2.before(block(rest@, MODE_LINES_LEN as int));
    let found = take(rest, MODE_LINES_LEN);
    proof {
        lemma_chained(s, m2, block(rest@, MODE_LINES_LEN as int));
    }
    let (rest, _) = match found {
        Ok(parts) => parts,
        Err(f) => {
            return Err(broken(Stage::ModeLines, input.len() - rest.len(), f));
        },
    };
    let ghost m4 = m3.followed_by(channel(rest@));
    let found = parse_channel(rest);
    proof {
        lemma_chained(s, m3, channel(rest@));
    }
    let (rest, channel) = match found {
        Ok(parts) => parts,
        Err(f) => {
            return Err(broken(Stage::Channel, input.len() - rest.len(), f));
        },
    };
    let ghost m5 = m4.before(block(rest@, RATE_LINES_LEN as int));
    let found = take(rest, RATE_LINES_LEN);
    proof {
        lemma_chained(s, m4, block(rest@, RATE_LINES_LEN as int));
    }
    let (rest, _) = match found {
        Ok(parts) => parts,
        Err(f) => {
            return Err(broken(Stage::RateLines, input.len() - rest.len(), f));
        },
    };
    let found = parse_signal_strength_ubuntu(rest);
    proof {
        lemma_chained(s, m5, signal(rest@));
    }
    let (rest, quality) = match found {
        Ok(parts) => parts,
        Err(f) => {
            return Err(broken(Stage::Signal, input.len() - rest.len(), f));
        },
    };
    let wifi = Wifi {
        mac: mac.to_owned(),
        ssid: ssid.to_owned(),
        channel: channel.to_owned(),
        signal_level: parse_signal_strength(quality),
        security: String::new(),
    };
    Ok((rest, wifi))
}

} // verus!
