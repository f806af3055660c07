use wifiscan::failure::{Failure, FailureKind, Fault, Stage};
use wifiscan::field::{
    parse_address, parse_channel, parse_essid, parse_signal_strength_ubuntu, HEADER_LEN,
    SIGNAL_SUFFIX_LEN,
};
use wifiscan::record::{wifi, Wifi, MODE_LINES_LEN, RATE_LINES_LEN};
use wifiscan::scan::{byte, digit, literal, not_line_ending, space, take, take_until, text};
use wifiscan::token::{
    delimited, labeled, tag_address, tag_channel, tag_essid, tag_quote, tag_signal,
    tag_signal_value, unquoted,
};

const CELL: &[u8] = br#"          Cell 01 - Address: 00:35:1A:6F:0F:40
                    ESSID:"TEST-Wifi"
                    Protocol:IEEE 802.11gn
                    Mode:Master
                    Frequency:2.437 GHz (Channel 6)
                    Encryption key:on
                    Bit Rates:6 Mb/s; 9 Mb/s; 12 Mb/s; 18 Mb/s; 24 Mb/s
                              36 Mb/s; 48 Mb/s; 54 Mb/s
                    Extra:rsn_ie=30140100000fac040100000fac040100000fac022800
                    IE: IEEE 802.11i/WPA2 Version 1
                        Group Cipher : CCMP
                        Pairwise Ciphers (1) : CCMP
                        Authentication Suites (1) : PSK
                    Signal level=56/100"#;

fn malformed(offset: usize) -> Fault {
    Fault { kind: FailureKind::Malformed, offset }
}

fn encoding(offset: usize) -> Fault {
    Fault { kind: FailureKind::Encoding, offset }
}

#[test]
fn take_splits_behind_the_count() {
    assert_eq!(take(b"abcdef", 2), Ok((&b"cdef"[..], &b"ab"[..])));
    assert_eq!(take(b"ab", 2), Ok((&b""[..], &b"ab"[..])));
    assert_eq!(take(b"ab", 0), Ok((&b"ab"[..], &b""[..])));
    assert_eq!(take(b"ab", 3), Err(malformed(0)));
}

#[test]
fn literal_wants_every_byte_of_the_word() {
    assert_eq!(literal(b"ESSID:x", "ESSID:"), Ok((&b"x"[..], &b"ESSID:"[..])));
    assert_eq!(literal(b"ESSID", "ESSID:"), Err(malformed(0)));
    assert_eq!(literal(b"ESSIDx", "ESSID:"), Err(malformed(0)));
    assert_eq!(literal(b" ESSID:", "ESSID:"), Err(malformed(0)));
    assert_eq!(literal(b"abc", ""), Ok((&b"abc"[..], &b""[..])));
}

#[test]
fn byte_wants_the_first_byte() {
    assert_eq!(byte(b"(x", b'('), Ok((&b"x"[..], &b"("[..])));
    assert_eq!(byte(b"x(", b'('), Err(malformed(0)));
    assert_eq!(byte(b"", b'('), Err(malformed(0)));
}

#[test]
fn take_until_stops_before_the_first_match() {
    assert_eq!(take_until(b"ab(c(d", b'('), Ok((&b"(c(d"[..], &b"ab"[..])));
    assert_eq!(take_until(b"(c", b'('), Ok((&b"(c"[..], &b""[..])));
    assert_eq!(take_until(b"abc", b'('), Err(malformed(0)));
    assert_eq!(take_until(b"", b'('), Err(malformed(0)));
}

#[test]
fn space_drops_the_four_kinds_of_whitespace() {
    assert_eq!(space(b" \t\r\n x y "), &b"x y "[..]);
    assert_eq!(space(b"x "), &b"x "[..]);
    assert_eq!(space(b"  "), &b""[..]);
    assert_eq!(space(b""), &b""[..]);
    assert_eq!(space(b"\x0b x"), &b"\x0b x"[..]);
}

#[test]
fn digit_takes_the_leading_digits() {
    assert_eq!(digit(b"123abc"), Ok((&b"abc"[..], &b"123"[..])));
    assert_eq!(digit(b"09"), Ok((&b""[..], &b"09"[..])));
    assert_eq!(digit(b"a1"), Err(malformed(0)));
    assert_eq!(digit(b""), Err(malformed(0)));
    assert_eq!(digit(b"/1"), Err(malformed(0)));
    assert_eq!(digit(b":1"), Err(malformed(0)));
}

#[test]
fn not_line_ending_stops_before_the_line_break() {
    assert_eq!(not_line_ending(b"ab\ncd"), Ok((&b"\ncd"[..], &b"ab"[..])));
    assert_eq!(not_line_ending(b"ab\r\ncd"), Ok((&b"\r\ncd"[..], &b"ab"[..])));
    assert_eq!(not_line_ending(b"abcd"), Ok((&b""[..], &b"abcd"[..])));
    assert_eq!(not_line_ending(b""), Ok((&b""[..], &b""[..])));
    assert_eq!(not_line_ending(b"\nab"), Ok((&b"\nab"[..], &b""[..])));
}

#[test]
fn not_line_ending_refuses_a_lone_carriage_return() {
    assert_eq!(not_line_ending(b"ab\rcd"), Err(malformed(0)));
    assert_eq!(not_line_ending(b"ab\r"), Err(malformed(0)));
    assert_eq!(not_line_ending(b"ab\r\r\n"), Err(malformed(0)));
    assert_eq!(not_line_ending(b"ab\n\r"), Ok((&b"\n\r"[..], &b"ab"[..])));
}

#[test]
fn delimited_hands_back_what_stands_between() {
    assert_eq!(delimited(b"=56/100", b'=', b'/'), Ok((&b"100"[..], &b"56"[..])));
    assert_eq!(delimited(b"=/", b'=', b'/'), Ok((&b""[..], &b""[..])));
    assert_eq!(delimited(b"56/", b'=', b'/'), Err(malformed(0)));
    assert_eq!(delimited(b"=56", b'=', b'/'), Err(malformed(1)));
    assert_eq!(delimited(b"=", b'=', b'/'), Err(malformed(1)));
    assert_eq!(delimited(b"", b'=', b'/'), Err(malformed(0)));
}

#[test]
fn tag_quote_reads_one_quote() {
    assert_eq!(tag_quote(b"\"a"), Ok((&b"a"[..], &b"\""[..])));
    assert_eq!(tag_quote(b" \"a"), Err(malformed(0)));
    assert_eq!(tag_quote(b""), Err(malformed(0)));
}

#[test]
fn unquoted_undoes_quoting() {
    for body in ["", "a", "foobar", "TEST-Wifi", "two words", "caf\u{e9} \u{4e2d}\u{6587}"] {
        let quoted = format!("\"{}\"", body);
        assert_eq!(unquoted(quoted.as_bytes()), Ok((&b""[..], body)));
    }
}

#[test]
fn unquoted_keeps_the_whitespace_between_the_quotes() {
    assert_eq!(unquoted(b"\" a \""), Ok((&b""[..], " a ")));
    assert_eq!(unquoted(b"\"\t\""), Ok((&b""[..], "\t")));
    assert_eq!(unquoted(b"\"a\nb\""), Ok((&b""[..], "a\nb")));
}

#[test]
fn unquoted_passes_over_the_whitespace_around_the_quotes() {
    assert_eq!(unquoted(b" \t\r\n\"foobar\"\n \t"), Ok((&b""[..], "foobar")));
    assert_eq!(unquoted(b"\"foobar\"  next"), Ok((&b"next"[..], "foobar")));
    assert_eq!(unquoted(b"\"a\"\"b\""), Ok((&b"\"b\""[..], "a")));
}

#[test]
fn unquoted_fails_without_its_quotes() {
    assert_eq!(unquoted(b"foobar\""), Err(malformed(0)));
    assert_eq!(unquoted(b"  foobar\""), Err(malformed(2)));
    assert_eq!(unquoted(b"\"foobar"), Err(malformed(1)));
    assert_eq!(unquoted(b"  \"foobar"), Err(malformed(3)));
    assert_eq!(unquoted(b"\""), Err(malformed(1)));
    assert_eq!(unquoted(b""), Err(malformed(0)));
    assert_eq!(unquoted(b"   "), Err(malformed(3)));
}

#[test]
fn unquoted_fails_on_bytes_that_are_no_text() {
    assert_eq!(unquoted(b"\"\xff\""), Err(encoding(0)));
    assert_eq!(unquoted(b"  \"a\xc3\""), Err(encoding(0)));
    assert_eq!(unquoted(b"\"\xc3\xa9\""), Ok((&b""[..], "\u{e9}")));
}

#[test]
fn labeled_passes_over_the_whitespace_around_the_label() {
    assert_eq!(labeled(b"  ESSID: \"x\"", "ESSID:"), Ok((&b"\"x\""[..], &b"ESSID:"[..])));
    assert_eq!(labeled(b"ESSID:", "ESSID:"), Ok((&b""[..], &b"ESSID:"[..])));
    assert_eq!(labeled(b"  SSID:", "ESSID:"), Err(malformed(2)));
    assert_eq!(labeled(b"   ", "ESSID:"), Err(malformed(3)));
}

#[test]
fn the_tags_read_their_labels() {
    assert_eq!(tag_essid(b" ESSID:\"x\""), Ok((&b"\"x\""[..], &b"ESSID:"[..])));
    assert_eq!(tag_essid(b" essid:\"x\""), Err(malformed(1)));
    assert_eq!(tag_address(b" Address: 00:11"), Ok((&b"00:11"[..], &b"Address: "[..])));
    assert_eq!(tag_address(b"Address:00:11"), Err(malformed(0)));
    assert_eq!(tag_signal(b"Signal level=5"), Ok((&b"=5"[..], &b"Signal level"[..])));
    assert_eq!(tag_signal(b" Signal level=5"), Err(malformed(0)));
    assert_eq!(tag_signal_value(b"=56/100"), Ok((&b"100"[..], &b"56"[..])));
    assert_eq!(tag_signal_value(b"56/100"), Err(malformed(0)));
    assert_eq!(tag_signal_value(b"=56"), Err(malformed(1)));
}

#[test]
fn tag_channel_reads_the_digits_in_the_brackets() {
    assert_eq!(tag_channel(b"(Channel 6)"), Ok((&b""[..], &b"6"[..])));
    assert_eq!(tag_channel(b"(Channel 149)\n"), Ok((&b"\n"[..], &b"149"[..])));
    assert_eq!(tag_channel(b"Channel 6)"), Err(malformed(0)));
    assert_eq!(tag_channel(b"(channel 6)"), Err(malformed(1)));
    assert_eq!(tag_channel(b"(Channel"), Err(malformed(1)));
    assert_eq!(tag_channel(b"(Channel )"), Err(malformed(9)));
    assert_eq!(tag_channel(b"(Channel "), Err(malformed(9)));
    assert_eq!(tag_channel(b"(Channel x)"), Err(malformed(9)));
    assert_eq!(tag_channel(b"(Channel 6"), Err(malformed(10)));
    assert_eq!(tag_channel(b"(Channel 6 )"), Err(malformed(10)));
    assert_eq!(tag_channel(b"(Channel -6)"), Err(malformed(9)));
}

#[test]
fn the_ssid_is_found_between_any_whitespace() {
    for before in ["", " ", "                    ", "\t", "\n\r\n \t"] {
        for after in ["", " ", "\n", "\r\n        ", "\t \n"] {
            let line = format!("{}ESSID:\"foobar\"{}", before, after);
            assert_eq!(parse_essid(line.as_bytes()), Ok((&b""[..], "foobar")));
        }
    }
}

#[test]
fn the_ssid_may_be_empty_or_stand_apart_from_its_label() {
    assert_eq!(parse_essid(b"ESSID:\"\""), Ok((&b""[..], "")));
    assert_eq!(parse_essid(b"ESSID: \"a b\" rest"), Ok((&b"rest"[..], "a b")));
}

#[test]
fn the_ssid_fails_where_its_line_is_wrong() {
    assert_eq!(parse_essid(b"  SSID:\"foobar\""), Err(malformed(2)));
    assert_eq!(parse_essid(b"  ESSID:foobar"), Err(malformed(8)));
    assert_eq!(parse_essid(b"  ESSID: \"foobar"), Err(malformed(10)));
    assert_eq!(parse_essid(b"  ESSID: \"\xfe\""), Err(encoding(9)));
    assert_eq!(parse_essid(b""), Err(malformed(0)));
}

#[test]
fn the_address_is_the_rest_of_its_line() {
    assert_eq!(HEADER_LEN, 20);
    let line = b"          Cell 01 - Address: 00:35:1A:6F:0F:40\n        ESSID";
    assert_eq!(parse_address(line), Ok((&b"\n        ESSID"[..], "00:35:1A:6F:0F:40")));
    let line = b"          Cell 01 - Address: 00:35:1A:6F:0F:40\r\nx";
    assert_eq!(parse_address(line), Ok((&b"\r\nx"[..], "00:35:1A:6F:0F:40")));
    let line = b"01234567890123456789Address: ";
    assert_eq!(parse_address(line), Ok((&b""[..], "")));
    let line = b"01234567890123456789  Address:   any text ";
    assert_eq!(parse_address(line), Ok((&b""[..], "any text ")));
}

#[test]
fn the_address_fails_where_its_line_is_wrong() {
    assert_eq!(parse_address(b""), Err(malformed(0)));
    assert_eq!(parse_address(b"          Cell 01 - "), Err(malformed(20)));
    assert_eq!(parse_address(b"          Cell 01 -"), Err(malformed(0)));
    assert_eq!(parse_address(b"     Cell 01 - Address: 00:35:1A:6F:0F:40"), Err(malformed(20)));
    assert_eq!(parse_address(b"          Cell 01 -   Addr"), Err(malformed(22)));
    assert_eq!(parse_address(b"          Cell 01 - Address: 00\rx"), Err(malformed(29)));
    assert_eq!(parse_address(b"          Cell 01 - Address: \xff\n"), Err(encoding(29)));
}

#[test]
fn the_channel_is_found_behind_the_first_bracket() {
    assert_eq!(parse_channel(b"(Channel 11)"), Ok((&b""[..], "11")));
    assert_eq!(parse_channel(b"Frequency:5.18 GHz (Channel 36)\n"), Ok((&b"\n"[..], "36")));
    assert_eq!(parse_channel(b"Frequency:2.437 GHz"), Err(malformed(0)));
    assert_eq!(parse_channel(b""), Err(malformed(0)));
    assert_eq!(parse_channel(b"ab (x) (Channel 6)"), Err(malformed(4)));
    assert_eq!(parse_channel(b"ab (Channel 6"), Err(malformed(13)));
    assert_eq!(parse_channel(b"ab (Channel )"), Err(malformed(12)));
}

#[test]
fn the_signal_is_an_integer_before_a_slash() {
    assert_eq!(SIGNAL_SUFFIX_LEN, 3);
    assert_eq!(parse_signal_strength_ubuntu(b"Signal level=0/100"), Ok((&b""[..], 0)));
    assert_eq!(parse_signal_strength_ubuntu(b"Signal level=100/100\n"), Ok((&b""[..], 100)));
    assert_eq!(parse_signal_strength_ubuntu(b"Signal level=-7/100"), Ok((&b""[..], -7)));
    assert_eq!(parse_signal_strength_ubuntu(b"Signal level=+7/100"), Ok((&b""[..], 7)));
    assert_eq!(parse_signal_strength_ubuntu(b"Signal level=56/1000"), Ok((&b"0"[..], 56)));
    assert_eq!(parse_signal_strength_ubuntu(b" Signal level =56/ 100 x"), Ok((&b"x"[..], 56)));
    assert_eq!(
        parse_signal_strength_ubuntu(b"Signal level=2147483647/100"),
        Ok((&b""[..], i32::MAX))
    );
}

#[test]
fn the_signal_fails_where_its_line_is_wrong() {
    assert_eq!(parse_signal_strength_ubuntu(b"  Signal=56/100"), Err(malformed(2)));
    assert_eq!(parse_signal_strength_ubuntu(b"  Signal level:56/100"), Err(malformed(14)));
    assert_eq!(parse_signal_strength_ubuntu(b"Signal level=56"), Err(malformed(13)));
    assert_eq!(parse_signal_strength_ubuntu(b"Signal level=56/10"), Err(malformed(16)));
    assert_eq!(parse_signal_strength_ubuntu(b"Signal level=56/"), Err(malformed(16)));
    assert_eq!(parse_signal_strength_ubuntu(b"Signal level=/100"), Err(malformed(0)));
    assert_eq!(parse_signal_strength_ubuntu(b"Signal level=ab/100"), Err(malformed(0)));
    assert_eq!(parse_signal_strength_ubuntu(b"Signal level= 56/100"), Err(malformed(0)));
    assert_eq!(parse_signal_strength_ubuntu(b"Signal level=2147483648/100"), Err(malformed(0)));
    assert_eq!(parse_signal_strength_ubuntu(b""), Err(malformed(0)));
}

#[test]
fn the_sample_cell_is_read_whole() {
    assert_eq!(MODE_LINES_LEN, 73);
    assert_eq!(RATE_LINES_LEN, 449);
    let expected = Wifi {
        mac: "00:35:1A:6F:0F:40".to_string(),
        ssid: "TEST-Wifi".to_string(),
        channel: "6".to_string(),
        signal_level: "-72".to_string(),
        security: String::new(),
    };
    assert_eq!(wifi(CELL), Ok((&b""[..], expected)));
}

#[test]
fn the_sample_cell_leaves_what_follows_its_whitespace() {
    let mut text = CELL.to_vec();
    text.extend_from_slice(b"\n\n  next");
    let (rest, record) = wifi(&text).unwrap();
    assert_eq!(rest, &b"next"[..]);
    assert_eq!(record.signal_level, "-72");
    assert_eq!(record.security, "");
}

#[test]
fn a_record_breaks_at_the_stage_that_fails() {
    let broken = |stage, offset| Failure { stage, kind: FailureKind::Malformed, offset };
    assert_eq!(wifi(b""), Err(broken(Stage::Mac, 0)));
    assert_eq!(wifi(b"          Cell 01 -"), Err(broken(Stage::Mac, 0)));
    assert_eq!(wifi(&CELL[..25]), Err(broken(Stage::Mac, 20)));
    assert_eq!(wifi(&CELL[5..]), Err(broken(Stage::Mac, 20)));
    assert_eq!(wifi(&CELL[..46]), Err(broken(Stage::Ssid, 46)));
    assert_eq!(wifi(&CELL[..83]), Err(broken(Stage::Ssid, 74)));
    assert_eq!(wifi(&CELL[..84]), Err(broken(Stage::ModeLines, 84)));
    assert_eq!(wifi(&CELL[..85]), Err(broken(Stage::ModeLines, 85)));
    assert_eq!(wifi(&CELL[..177]), Err(broken(Stage::ModeLines, 105)));
    assert_eq!(wifi(&CELL[..178]), Err(broken(Stage::Channel, 178)));
    assert_eq!(wifi(&CELL[..200]), Err(broken(Stage::Channel, 178)));
    assert_eq!(wifi(&CELL[..210]), Err(broken(Stage::Channel, 210)));
    assert_eq!(wifi(&CELL[..211]), Err(broken(Stage::RateLines, 211)));
    assert_eq!(wifi(&CELL[..659]), Err(broken(Stage::RateLines, 211)));
    assert_eq!(wifi(&CELL[..660]), Err(broken(Stage::Signal, 660)));
    assert_eq!(wifi(&CELL[..680]), Err(broken(Stage::Signal, 680)));
    assert_eq!(wifi(&CELL[..698]), Err(broken(Stage::Signal, 696)));
}

#[test]
fn a_record_without_its_name_label_breaks_at_the_name() {
    let text = String::from_utf8(CELL.to_vec()).unwrap().replace("ESSID:", "SSID: ");
    assert_eq!(
        wifi(text.as_bytes()),
        Err(Failure { stage: Stage::Ssid, kind: FailureKind::Malformed, offset: 67 })
    );
}

#[test]
fn a_record_whose_header_is_short_breaks_at_the_address() {
    let text = String::from_utf8(CELL.to_vec()).unwrap().replace("Cell 01 - ", "Cell 1 - ");
    assert_eq!(
        wifi(text.as_bytes()),
        Err(Failure { stage: Stage::Mac, kind: FailureKind::Malformed, offset: 20 })
    );
}

#[test]
fn a_record_whose_name_is_no_text_breaks_for_the_encoding() {
    let mut text = CELL.to_vec();
    text[74] = 0xff;
    assert_eq!(
        wifi(&text),
        Err(Failure { stage: Stage::Ssid, kind: FailureKind::Encoding, offset: 73 })
    );
}

#[test]
fn a_record_whose_quality_is_no_number_breaks_at_the_signal() {
    let text = String::from_utf8(CELL.to_vec()).unwrap().replace("=56/", "=5x/");
    assert_eq!(
        wifi(text.as_bytes()),
        Err(Failure { stage: Stage::Signal, kind: FailureKind::Malformed, offset: 660 })
    );
}

#[test]
fn a_failure_comes_again_on_the_same_input() {
    for input in [&b""[..], &CELL[..25], &CELL[..83], &CELL[..200], &CELL[..698], &b"\"x"[..]] {
        assert_eq!(wifi(input), wifi(input));
        assert!(wifi(input).is_err());
        assert_eq!(unquoted(input), unquoted(input));
        assert_eq!(parse_address(input), parse_address(input));
        assert_eq!(parse_essid(input), parse_essid(input));
        assert_eq!(parse_channel(input), parse_channel(input));
        assert_eq!(parse_signal_strength_ubuntu(input), parse_signal_strength_ubuntu(input));
    }
}

#[test]
fn other_qualities_give_other_powers() {
    for (quality, power) in [("0", "-100"), ("100", "-50"), ("1", "-100"), ("-1", "-100"),
        ("-3", "-101"), ("200", "0"), ("321", "60")]
    {
        let text =
            String::from_utf8(CELL.to_vec()).unwrap().replace("=56/", &format!("={}/", quality));
        let (_, record) = wifi(text.as_bytes()).unwrap();
        assert_eq!(record.signal_level, power);
        assert_eq!(record.channel, "6");
    }
}

#[test]
fn text_is_given_for_utf8_alone() {
    assert_eq!(text(b"TEST-Wifi"), Some("TEST-Wifi"));
    assert_eq!(text(b""), Some(""));
    assert_eq!(text(b"caf\xc3\xa9"), Some("caf\u{e9}"));
    assert_eq!(text(b"caf\xc3"), None);
    assert_eq!(text(b"\xff"), None);
    assert_eq!(text(b"\xed\xa0\x80"), None);
    assert_eq!(text(b"\xc0\x80"), None);
}

fn with_mac(mac: &str) -> Wifi {
    Wifi {
        mac: mac.to_string(),
        ssid: String::new(),
        channel: "1".to_string(),
        signal_level: "-100".to_string(),
        security: String::new(),
    }
}

#[test]
fn a_well_formed_address_is_six_pairs_of_hexadecimal_digits() {
    assert!(with_mac("00:35:1A:6F:0F:40").has_well_formed_mac());
    assert!(with_mac("ab:cd:ef:AB:CD:EF").has_well_formed_mac());
    assert!(with_mac("09:90:aF:Fa:00:99").has_well_formed_mac());
    assert!(wifi(CELL).unwrap().1.has_well_formed_mac());
}

#[test]
fn an_address_of_another_shape_is_not_well_formed() {
    for mac in ["", "00:35:1A:6F:0F", "00:35:1A:6F:0F:40 ", "00:35:1A:6F:0F:4", "00-35-1A-6F-0F-40",
        "00:35:1A:6F:0F:4G", "0:035:1A:6F:0F:40", "00:35:1A:6F:0F:40:", ":00:35:1A:6F:0F:4",
        "00:35:1A:6F:0F:4\u{e9}", "g0:35:1A:6F:0F:40", "00:35:1A:6F:0F:4@", "00:35:1A:6F:0F:4`",
        "00:35:1A:6F:0F:4/", "00;35:1A:6F:0F:40"]
    {
        assert!(!with_mac(mac).has_well_formed_mac(), "{:?}", mac);
    }
}

#[test]
fn the_record_rule_takes_the_address_as_its_line_gives_it() {
    let text = String::from_utf8(CELL.to_vec()).unwrap().replace("0F:40", "0F:4 ");
    let (rest, record) = wifi(text.as_bytes()).unwrap();
    assert_eq!(rest, &b""[..]);
    assert_eq!(record.mac, "00:35:1A:6F:0F:4 ");
    assert!(!record.has_well_formed_mac());
}
