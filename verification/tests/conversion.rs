use h2i::convert::convert;
use h2i::parse::Output;
use h2i::parse::ParseError;
use h2i::parse::dec_to_hex;
use h2i::parse::hex_to_dec;
use h2i::parse::parse;
use h2i::render::dec_string;
use h2i::render::format_output;
use h2i::render::hex_string;

#[test]
fn hex_input_renders_decimal() {
    assert_eq!(convert(b"0x1A"), Ok(b"26".to_vec()));
}

#[test]
fn dec_input_renders_hex() {
    assert_eq!(convert(b"26"), Ok(b"0X1A".to_vec()));
}

#[test]
fn hex_zero_renders_decimal_zero() {
    assert_eq!(convert(b"0x0"), Ok(b"0".to_vec()));
}

#[test]
fn dec_zero_renders_hex_zero() {
    assert_eq!(convert(b"0"), Ok(b"0X0".to_vec()));
}

#[test]
fn empty_input_is_rejected() {
    assert_eq!(convert(b""), Err(ParseError::Unrecognized));
}

#[test]
fn bad_hex_digits_are_rejected() {
    assert_eq!(convert(b"0xZZ"), Err(ParseError::Unrecognized));
}

#[test]
fn letters_are_rejected() {
    assert_eq!(convert(b"abc"), Err(ParseError::Unrecognized));
}

#[test]
fn bare_prefix_is_rejected() {
    assert_eq!(convert(b"0x"), Err(ParseError::Unrecognized));
}

#[test]
fn uppercase_prefix_is_rejected() {
    assert_eq!(convert(b"0X1A"), Err(ParseError::Unrecognized));
}

#[test]
fn hex_digits_without_prefix_are_rejected() {
    assert_eq!(convert(b"1A"), Err(ParseError::Unrecognized));
}

#[test]
fn hex_parsing_ignores_digit_case() {
    assert_eq!(parse(b"0xff"), Ok(Output::ToInt(255)));
    assert_eq!(parse(b"0xFF"), Ok(Output::ToInt(255)));
    assert_eq!(parse(b"0xFf"), Ok(Output::ToInt(255)));
    assert_eq!(convert(b"0xff"), convert(b"0xFF"));
}

#[test]
fn hex_like_digits_are_decimal_without_prefix() {
    assert_eq!(convert(b"10"), Ok(b"0XA".to_vec()));
}

#[test]
fn leading_zeros_are_plain_digits() {
    assert_eq!(convert(b"007"), Ok(b"0X7".to_vec()));
    assert_eq!(convert(b"0x00ff"), Ok(b"255".to_vec()));
}

#[test]
fn decimal_overflow_is_reported() {
    assert_eq!(convert(b"18446744073709551616"), Err(ParseError::Overflow));
    assert_eq!(
        parse(b"18446744073709551615"),
        Ok(Output::ToHex(u64::MAX))
    );
}

#[test]
fn hex_overflow_is_reported() {
    assert_eq!(convert(b"0x10000000000000000"), Err(ParseError::Overflow));
    assert_eq!(parse(b"0xFFFFFFFFFFFFFFFF"), Ok(Output::ToInt(u64::MAX)));
    assert_eq!(convert(b"0xFFFFFFFFFFFFFFFF"), Ok(b"18446744073709551615".to_vec()));
}

#[test]
fn hex_path_alone_matches_full_parse() {
    assert_eq!(hex_to_dec(b"0x1A"), Ok(Output::ToInt(26)));
    assert_eq!(hex_to_dec(b"26"), Err(ParseError::Unrecognized));
    assert_eq!(dec_to_hex(b"26"), Ok(Output::ToHex(26)));
    assert_eq!(dec_to_hex(b"0x1A"), Err(ParseError::Unrecognized));
}

#[test]
fn rendering_gives_canonical_text() {
    assert_eq!(dec_string(26), b"26".to_vec());
    assert_eq!(dec_string(0), b"0".to_vec());
    assert_eq!(dec_string(u64::MAX), b"18446744073709551615".to_vec());
    assert_eq!(hex_string(26), b"0X1A".to_vec());
    assert_eq!(hex_string(0), b"0X0".to_vec());
    assert_eq!(hex_string(u64::MAX), b"0XFFFFFFFFFFFFFFFF".to_vec());
}

#[test]
fn format_output_follows_the_tag() {
    assert_eq!(format_output(&Output::ToInt(26)), b"26".to_vec());
    assert_eq!(format_output(&Output::ToHex(26)), b"0X1A".to_vec());
}

#[test]
fn decimal_round_trip_on_samples() {
    for n in [0u64, 1, 9, 10, 26, 255, 4096, 12345678901234567, u64::MAX] {
        let text = dec_string(n);
        assert_eq!(parse(&text), Ok(Output::ToHex(n)));
    }
}

#[test]
fn hex_round_trip_on_samples() {
    for n in [0u64, 1, 9, 10, 15, 16, 26, 255, 4096, u64::MAX] {
        let mut text = hex_string(n);
        text[1] = b'x';
        assert_eq!(parse(&text), Ok(Output::ToInt(n)));
    }
}
