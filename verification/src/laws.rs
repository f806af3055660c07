//! What holds of the rules whatever the input.

use vstd::prelude::*;
use vstd::string::{is_ascii, is_ascii_spec_bytes, StringSliceAdditionalSpecFns};
use vstd::utf8::{
    decode_utf8, encode_utf8, encode_utf8_decode_utf8, encode_utf8_valid_utf8, is_ascii_chars,
    is_ascii_chars_encode_utf8, valid_utf8,
};
use crate::bytes::{
    all_but, digits, digits_len, is_digit, is_space, lemma_run_len, lemma_run_len_is, space_len,
    spaces, OPEN_PAREN, QUOTE,
};
use crate::failure::{FailureKind, Reading, Stage};
use crate::field::{address, channel, essid, signal, HEADER_LEN};
use crate::power::{decimal, power_of};
use crate::record::{record, Assembly};
use crate::scan::{block, trimmed, up_to};
use crate::token::{channel_mark, enclosed, label, quoted, ADDRESS, CHANNEL, ESSID, SIGNAL_LEVEL};

verus! {

/// The bytes of the four labels.
pub proof fn lemma_labels()
    ensures
        ESSID.spec_bytes() == seq![0x45u8, 0x53, 0x53, 0x49, 0x44, 0x3a],
        ADDRESS.spec_bytes() == seq![0x41u8, 0x64, 0x64, 0x72, 0x65, 0x73, 0x73, 0x3a, 0x20],
        CHANNEL.spec_bytes() == seq![0x43u8, 0x68, 0x61, 0x6e, 0x6e, 0x65, 0x6c, 0x20],
        SIGNAL_LEVEL.spec_bytes() == seq![
            0x53u8,
            0x69,
            0x67,
            0x6e,
            0x61,
            0x6c,
            0x20,
            0x6c,
            0x65,
            0x76,
            0x65,
            0x6c,
        ],
{
    reveal_strlit("ESSID:");
    reveal_strlit("Address: ");
    reveal_strlit("Channel ");
    reveal_strlit("Signal level");
    assert(is_ascii(ESSID));
    assert(is_ascii(ADDRESS));
    assert(is_ascii(CHANNEL));
    assert(is_ascii(SIGNAL_LEVEL));
    is_ascii_spec_bytes(ESSID);
    is_ascii_spec_bytes(ADDRESS);
    is_ascii_spec_bytes(CHANNEL);
    is_ascii_spec_bytes(SIGNAL_LEVEL);
    assert(ESSID.spec_bytes() =~= seq![0x45u8, 0x53, 0x53, 0x49, 0x44, 0x3a]);
    assert(ADDRESS.spec_bytes() =~= seq![0x41u8, 0x64, 0x64, 0x72, 0x65, 0x73, 0x73, 0x3a, 0x20]);
    assert(CHANNEL.spec_bytes() =~= seq![0x43u8, 0x68, 0x61, 0x6e, 0x6e, 0x65, 0x6c, 0x20]);
    assert(SIGNAL_LEVEL.spec_bytes() =~= seq![
        0x53u8,
        0x69,
        0x67,
        0x6e,
        0x61,
        0x6c,
        0x20,
        0x6c,
        0x65,
        0x76,
        0x65,
        0x6c,
    ]);
}

/// Every byte of `w` is whitespace.
pub open spec fn all_space(w: Seq<u8>) -> bool {
    forall|i: int| 0 <= i < w.len() ==> is_space(#[trigger] w[i])
}

/// The bytes `body` between two double quotes.
pub open spec fn quote(body: Seq<u8>) -> Seq<u8> {
    seq![QUOTE] + body + seq![QUOTE]
}

/// Whitespace before bytes that do not begin with whitespace is all the
/// whitespace at the head.
pub proof fn lemma_space_before(w: Seq<u8>, rest: Seq<u8>)
    requires
        all_space(w),
        rest.len() > 0 ==> !is_space(rest[0]),
    ensures
        space_len(w + rest) == w.len(),
        trimmed(w + rest) == rest,
{
    let s = w + rest;
    assert forall|i: int| 0 <= i < w.len() implies spaces()(#[trigger] s[i]) by {
        assert(s[i] == w[i]);
    }
    if rest.len() > 0 {
        assert(s[w.len() as int] == rest[0]);
    }
    lemma_run_len_is(s, spaces(), w.len());
    assert(s.skip(w.len() as int) =~= rest);
}

/// A label that does not begin with whitespace is read from between any
/// whitespace, whatever follows.
pub proof fn lemma_label_reads(w: Seq<u8>, word: Seq<u8>, rest: Seq<u8>)
    requires
        all_space(w),
        word.len() > 0,
        !is_space(word[0]),
    ensures
        label(w + word + rest, word) == (Reading::Done {
            used: (w.len() + word.len() + space_len(rest)) as int,
            value: word,
        }),
        label(w + word + rest, word).leftover(w + word + rest) == trimmed(rest),
{
    let s = w + word + rest;
    assert(s =~= w + (word + rest));
    assert((word + rest)[0] == word[0]);
    lemma_space_before(w, word + rest);
    assert((word + rest).subrange(0, word.len() as int) =~= word);
    assert(s.skip((w.len() + word.len()) as int) =~= rest);
    lemma_run_len(rest, spaces());
    assert(s.skip((w.len() + word.len() + space_len(rest)) as int) =~= rest.skip(
        space_len(rest) as int,
    ));
}

/// Bytes that hold no `close`, between an `open` and a `close`, are read
/// back as they are, whatever follows.
pub proof fn lemma_enclosed_reads(body: Seq<u8>, open: u8, close: u8, rest: Seq<u8>)
    requires
        !body.contains(close),
    ensures
        enclosed(seq![open] + body + seq![close] + rest, open, close) == (Reading::Done {
            used: (body.len() + 2) as int,
            value: body,
        }),
{
    let s = seq![open] + body + seq![close] + rest;
    let t = s.skip(1);
    assert(s[0] == open);
    assert(t =~= body + seq![close] + rest);
    assert forall|i: int| 0 <= i < body.len() implies all_but(close)(#[trigger] t[i]) by {
        assert(t[i] == body[i]);
        assert(body.contains(body[i]));
    }
    assert(t[body.len() as int] == close);
    lemma_run_len_is(t, all_but(close), body.len());
    assert(t.take(body.len() as int) =~= body);
    assert(s.skip((1 + body.len()) as int) =~= seq![close] + rest);
}

/// A text between double quotes and any whitespace is read back as it is:
/// all of it is used, and the value is the text. The text is any UTF-8
/// that holds no double quote.
pub proof fn lemma_quoted_reads(w1: Seq<u8>, body: Seq<u8>, w2: Seq<u8>)
    requires
        all_space(w1),
        all_space(w2),
        valid_utf8(body),
        !body.contains(QUOTE),
    ensures
        quoted(w1 + quote(body) + w2) == (Reading::Done {
            used: (w1 + quote(body) + w2).len() as int,
            value: body,
        }),
{
    let s = w1 + quote(body) + w2;
    let q = quote(body) + w2;
    assert(s =~= w1 + q);
    assert(q[0] == QUOTE);
    lemma_space_before(w1, q);
    assert(q =~= seq![QUOTE] + body + seq![QUOTE] + w2);
    lemma_enclosed_reads(body, QUOTE, QUOTE, w2);
    assert(s.skip((w1.len() + body.len() + 2) as int) =~= w2);
    lemma_space_before(w2, Seq::<u8>::empty());
    assert(w2 + Seq::<u8>::empty() =~= w2);
}

/// Unquoting undoes quoting: a text that is UTF-8 and holds no double
/// quote, put between double quotes, is read back as it is.
pub proof fn lemma_unquote_quote(body: Seq<u8>)
    requires
        valid_utf8(body),
        !body.contains(QUOTE),
    ensures
        quoted(quote(body)) == (Reading::Done { used: (body.len() + 2) as int, value: body }),
{
    let none = Seq::<u8>::empty();
    lemma_quoted_reads(none, body, none);
    assert(none + quote(body) + none =~= quote(body));
}

/// The name label and a quoted name are read from between any whitespace:
/// all of the input is used, and the value is the name. The name is any
/// UTF-8 that holds no double quote.
pub proof fn lemma_essid_reads(w1: Seq<u8>, name: Seq<u8>, w2: Seq<u8>)
    requires
        all_space(w1),
        all_space(w2),
        valid_utf8(name),
        !name.contains(QUOTE),
    ensures
        essid(w1 + ESSID.spec_bytes() + quote(name) + w2) == (Reading::Done {
            used: (w1 + ESSID.spec_bytes() + quote(name) + w2).len() as int,
            value: name,
        }),
{
    reveal(essid);
    lemma_labels();
    let word = ESSID.spec_bytes();
    let s = w1 + word + quote(name) + w2;
    let q = quote(name) + w2;
    assert(s =~= w1 + word + q);
    lemma_label_reads(w1, word, q);
    assert(q[0] == QUOTE);
    let none = Seq::<u8>::empty();
    lemma_space_before(none, q);
    assert(none + q =~= q);
    lemma_quoted_reads(none, name, w2);
    assert(none + quote(name) + w2 =~= q);
}

/// An input that is shorter than the header of a cell is no record: the
/// address fails, as malformed, at the head.
pub proof fn lemma_short_header_breaks(s: Seq<u8>)
    requires
        s.len() < HEADER_LEN,
    ensures
        record(s) == (Assembly::Broken {
            stage: Stage::Mac,
            kind: FailureKind::Malformed,
            at: 0,
        }),
{
    reveal(address);
}

/// An input without the address label behind the header of a cell is no
/// record: the address fails, as malformed, where the label should stand.
pub proof fn lemma_missing_address_breaks(s: Seq<u8>)
    requires
        s.len() >= HEADER_LEN,
        !ADDRESS.spec_bytes().is_prefix_of(trimmed(s.skip(HEADER_LEN as int))),
    ensures
        record(s) == (Assembly::Broken {
            stage: Stage::Mac,
            kind: FailureKind::Malformed,
            at: HEADER_LEN + space_len(s.skip(HEADER_LEN as int)),
        }),
{
    reveal(address);
}

/// An input without the name label behind the address line is no record:
/// the name fails, as malformed, where the label should stand.
pub proof fn lemma_missing_essid_breaks(s: Seq<u8>)
    requires
        address(s) is Done,
        !ESSID.spec_bytes().is_prefix_of(trimmed(address(s).leftover(s))),
    ensures
        record(s) == (Assembly::Broken {
            stage: Stage::Ssid,
            kind: FailureKind::Malformed,
            at: address(s)->used + space_len(address(s).leftover(s)),
        }),
{
    reveal(essid);
}

/// A rule that failed fails again in the same way on the input that it
/// left: a failure uses nothing, and a rule keeps no state.
pub proof fn lemma_same_failure<V>(rule: spec_fn(Seq<u8>) -> Reading<V>, s: Seq<u8>)
    requires
        rule(s) is Stopped,
    ensures
        rule(s).leftover(s) == s,
        rule(rule(s).leftover(s)) == rule(s),
{
}

/// A record that broke breaks again in the same way on the input that it
/// left.
pub proof fn lemma_same_breakage(s: Seq<u8>)
    requires
        record(s) is Broken,
    ensures
        record(s).leftover(s) == s,
        record(record(s).leftover(s)) == record(s),
{
}

/// The text whose characters are the bytes `b`, one for one.
pub open spec fn ascii_text(b: Seq<u8>) -> Seq<char> {
    Seq::new(b.len(), |i: int| b[i] as char)
}

/// Bytes below 128 are UTF-8, and the text that they are has one character
/// for each byte.
pub proof fn lemma_ascii_text(b: Seq<u8>)
    requires
        forall|i: int| 0 <= i < b.len() ==> #[trigger] b[i] < 0x80,
    ensures
        valid_utf8(b),
        decode_utf8(b) == ascii_text(b),
{
    let chars = ascii_text(b);
    assert(is_ascii_chars(chars));
    is_ascii_chars_encode_utf8(chars);
    assert(encode_utf8(chars) =~= b);
    encode_utf8_valid_utf8(chars);
    encode_utf8_decode_utf8(chars);
}

/// The channel that is read is one digit or more and nothing else, and the
/// channel rule never fails for the encoding.
pub proof fn lemma_channel_is_number(s: Seq<u8>)
    ensures
        channel(s) matches Reading::Done { used, value } ==> {
            &&& value.len() > 0
            &&& forall|i: int| 0 <= i < value.len() ==> is_digit(#[trigger] value[i])
            &&& decode_utf8(value) == ascii_text(value)
        },
        channel(s) matches Reading::Stopped { kind, at } ==> kind == FailureKind::Malformed,
{
    reveal(channel);
    lemma_labels();
    let junk = up_to(s, OPEN_PAREN);
    if let Reading::Done { used, value } = junk {
        let t = junk.leftover(s);
        if let Reading::Done { used: n, value: run } = channel_mark(t) {
            let d = t.skip(1 + CHANNEL.spec_bytes().len() as int);
            lemma_run_len(d, digits());
            assert(run == d.take(digits_len(d) as int));
            assert forall|i: int| 0 <= i < run.len() implies is_digit(#[trigger] run[i]) by {
                assert(run[i] == d[i]);
                assert(digits()(d[i]));
            }
            lemma_ascii_text(run);
        }
    }
}

/// What every record holds: a channel of one digit or more and nothing
/// else, the decimal text of the power of a quality, and no security.
pub proof fn lemma_record_texts(s: Seq<u8>)
    ensures
        record(s) matches Assembly::Built { used, record } ==> {
            &&& record.channel.len() > 0
            &&& forall|i: int|
                0 <= i < record.channel.len() ==> '0' <= #[trigger] record.channel[i] <= '9'
            &&& exists|q: int|
                i32::MIN <= q <= i32::MAX && record.signal_level == decimal(#[trigger] power_of(q))
            &&& record.security.len() == 0
        },
{
    if let Assembly::Built { used, record: r } = record(s) {
        let mac = address(s);
        let ssid = mac.followed_by(essid(mac.leftover(s)));
        let modes = ssid.before(block(ssid.leftover(s), crate::record::MODE_LINES_LEN as int));
        let chan = modes.followed_by(channel(modes.leftover(s)));
        let rates = chan.before(block(chan.leftover(s), crate::record::RATE_LINES_LEN as int));
        let level = rates.followed_by(signal(rates.leftover(s)));
        lemma_channel_is_number(modes.leftover(s));
        let text = chan->value;
        assert(r.channel == ascii_text(text));
        assert forall|i: int| 0 <= i < r.channel.len() implies '0' <= #[trigger] r.channel[i]
            <= '9' by {
            assert(is_digit(text[i]));
        }
        reveal(signal);
        let q = level->value;
        assert(r.signal_level == decimal(power_of(q)));
    }
}

} // verus!
