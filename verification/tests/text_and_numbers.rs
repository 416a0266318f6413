use faas_trigger::byte_list::{byte_list_text_of, parse_byte_line, ByteLineError};
use faas_trigger::decimal::{decimal_text, parse_unsigned};
use faas_trigger::text::{chars_of, setting_or, string_of_chars, trim_bounds};

#[test]
fn decimal_text_writes_plain_digits() {
    assert_eq!(decimal_text(0), "0");
    assert_eq!(decimal_text(7), "7");
    assert_eq!(decimal_text(1953), "1953");
    assert_eq!(decimal_text(u64::MAX), "18446744073709551615");
}

#[test]
fn parse_unsigned_follows_str_parse() {
    let cases = ["0", "42", "+42", "007", "", "+", "-", "-1", "1a", " 1", "255", "256", "18446744073709551615", "18446744073709551616"];
    for case in cases.iter() {
        let chars = chars_of(case);
        let got8 = parse_unsigned(&chars, 0, chars.len(), 255).map(|v| v as u8);
        assert_eq!(got8, case.parse::<u8>().ok(), "u8 {:?}", case);
        let got64 = parse_unsigned(&chars, 0, chars.len(), u64::MAX);
        assert_eq!(got64, case.parse::<u64>().ok(), "u64 {:?}", case);
    }
}

#[test]
fn trim_matches_str_trim() {
    let cases = ["  12 ", "\t7\n", "\u{3000}9\u{a0}", "   ", "", "a b"];
    for case in cases.iter() {
        let chars = chars_of(case);
        let (a, b) = trim_bounds(&chars, 0, chars.len());
        let trimmed: String = chars[a..b].iter().collect();
        assert_eq!(trimmed, case.trim());
    }
}

#[test]
fn chars_round_trip_through_string() {
    let chars = chars_of("héllo");
    assert_eq!(chars.len(), 5);
    assert_eq!(string_of_chars(&chars), "héllo");
}

#[test]
fn setting_or_prefers_given_value() {
    assert_eq!(setting_or(Some("x".to_string()), "d"), "x");
    assert_eq!(setting_or(None, "d"), "d");
}

#[test]
fn byte_line_reads_framed_lists() {
    assert_eq!(parse_byte_line("[1, 2, 3]"), Ok(vec![1, 2, 3]));
    assert_eq!(parse_byte_line("[ +7 ,\t8 ]"), Ok(vec![7, 8]));
    assert_eq!(parse_byte_line("[255]"), Ok(vec![255]));
    assert_eq!(parse_byte_line("x0y"), Ok(vec![0]));
}

#[test]
fn byte_line_refusals() {
    assert_eq!(parse_byte_line(""), Err(ByteLineError::Unframed));
    assert_eq!(parse_byte_line("["), Err(ByteLineError::Unframed));
    assert_eq!(parse_byte_line("[1é"), Err(ByteLineError::Unframed));
    assert_eq!(parse_byte_line("[]"), Err(ByteLineError::InvalidByte));
    assert_eq!(parse_byte_line("[256]"), Err(ByteLineError::InvalidByte));
    assert_eq!(parse_byte_line("[-1]"), Err(ByteLineError::InvalidByte));
    assert_eq!(parse_byte_line("[1,,2]"), Err(ByteLineError::InvalidByte));
    assert_eq!(parse_byte_line("[1, x]"), Err(ByteLineError::InvalidByte));
}

#[test]
fn byte_list_text_joins_with_comma_space() {
    assert_eq!(byte_list_text_of(&vec![]), "");
    assert_eq!(byte_list_text_of(&vec![42]), "42");
    assert_eq!(byte_list_text_of(&vec![0, 255, 10]), "0, 255, 10");
}

#[test]
fn byte_list_round_trip() {
    let bytes: Vec<u8> = vec![145, 164, 34, 104, 105, 34, 0, 255];
    let line = format!("[{}]", byte_list_text_of(&bytes));
    assert_eq!(parse_byte_line(&line), Ok(bytes));
}

#[test]
fn byte_line_reads_padded_pieces() {
    assert_eq!(parse_byte_line("(\t1 ,2,\u{3000}30\n)"), Ok(vec![1, 2, 30]));
    assert_eq!(parse_byte_line("x  0  y"), Ok(vec![0]));
    assert_eq!(parse_byte_line("é9,8]"), Ok(vec![9, 8]));
}
