use wasmtime_component_serde::number::{checked_integer, checked_integer_text, parse_literal};
use wasmtime_component_serde::{DecodeError, Kind, Number, TokenKind, Val};

fn out_of_range(expected: Kind, text: &str) -> Result<Val, DecodeError> {
    Err(DecodeError::RangeError { expected, value: Number::Text(text.to_string()) })
}

fn literal(s: &str) -> Option<(bool, Option<u64>)> {
    parse_literal(s).map(|lit| (lit.negative, lit.magnitude))
}

#[test]
fn literals_are_read() {
    assert_eq!(literal("0"), Some((false, Some(0))));
    assert_eq!(literal("255"), Some((false, Some(255))));
    assert_eq!(literal("+5"), Some((false, Some(5))));
    assert_eq!(literal("-5"), Some((true, Some(5))));
    assert_eq!(literal("-0"), Some((true, Some(0))));
    assert_eq!(literal("007"), Some((false, Some(7))));
    assert_eq!(literal("18446744073709551615"), Some((false, Some(u64::MAX))));
}

#[test]
fn literals_beyond_64_bits_have_no_magnitude() {
    assert_eq!(literal("18446744073709551616"), Some((false, None)));
    assert_eq!(literal("-99999999999999999999999999"), Some((true, None)));
    assert_eq!(literal("184467440737095516150"), Some((false, None)));
}

#[test]
fn what_is_no_literal() {
    assert_eq!(literal(""), None);
    assert_eq!(literal("+"), None);
    assert_eq!(literal("-"), None);
    assert_eq!(literal("abc"), None);
    assert_eq!(literal("12a"), None);
    assert_eq!(literal("1 "), None);
    assert_eq!(literal(" 1"), None);
    assert_eq!(literal("1.0"), None);
    assert_eq!(literal("--1"), None);
    assert_eq!(literal("+-1"), None);
    assert_eq!(literal("１２"), None);
    assert_eq!(literal("1☃"), None);
    assert_eq!(literal("0x10"), None);
}

#[test]
fn literals_agree_with_the_standard_parser() {
    let samples = [
        "0", "1", "-1", "+1", "-0", "+0", "127", "128", "-128", "-129", "255", "256", "65535",
        "65536", "4294967295", "4294967296", "9223372036854775807", "9223372036854775808",
        "-9223372036854775808", "-9223372036854775809", "18446744073709551615",
        "18446744073709551616", "", "+", "-", "a", "1a", "00012",
    ];
    for s in samples {
        let unsigned = checked_integer_text(Kind::U64, s).ok();
        assert_eq!(unsigned, s.parse::<u64>().ok().map(Val::U64), "{s:?} as u64");
        let signed = checked_integer_text(Kind::S64, s).ok();
        assert_eq!(signed, s.parse::<i64>().ok().map(Val::S64), "{s:?} as i64");
        let byte = checked_integer_text(Kind::U8, s).ok();
        assert_eq!(byte, s.parse::<u8>().ok().map(Val::U8), "{s:?} as u8");
        let small = checked_integer_text(Kind::S8, s).ok();
        assert_eq!(small, s.parse::<i8>().ok().map(Val::S8), "{s:?} as i8");
    }
}

#[test]
fn range_enforcement() {
    assert_eq!(checked_integer_text(Kind::U8, "256"), out_of_range(Kind::U8, "256"));
    assert_eq!(checked_integer_text(Kind::U8, "255"), Ok(Val::U8(255)));
}

#[test]
fn each_kind_has_its_range() {
    let cases: [(Kind, i128, i128); 8] = [
        (Kind::S8, i8::MIN as i128, i8::MAX as i128),
        (Kind::U8, 0, u8::MAX as i128),
        (Kind::S16, i16::MIN as i128, i16::MAX as i128),
        (Kind::U16, 0, u16::MAX as i128),
        (Kind::S32, i32::MIN as i128, i32::MAX as i128),
        (Kind::U32, 0, u32::MAX as i128),
        (Kind::S64, i64::MIN as i128, i64::MAX as i128),
        (Kind::U64, 0, u64::MAX as i128),
    ];
    for (kind, least, greatest) in cases {
        assert!(checked_integer(kind, least).is_some());
        assert!(checked_integer(kind, greatest).is_some());
        assert_eq!(checked_integer(kind, least - 1), None);
        assert_eq!(checked_integer(kind, greatest + 1), None);
    }
    assert_eq!(checked_integer(Kind::S8, -128), Some(Val::S8(-128)));
    assert_eq!(checked_integer(Kind::U16, 65535), Some(Val::U16(65535)));
    assert_eq!(checked_integer(Kind::S32, -5), Some(Val::S32(-5)));
    assert_eq!(checked_integer(Kind::U32, 7), Some(Val::U32(7)));
    assert_eq!(checked_integer(Kind::S16, 300), Some(Val::S16(300)));
    assert_eq!(checked_integer(Kind::S64, i64::MIN as i128), Some(Val::S64(i64::MIN)));
    assert_eq!(checked_integer(Kind::U64, u64::MAX as i128), Some(Val::U64(u64::MAX)));
    assert_eq!(checked_integer(Kind::Bool, 0), None);
    assert_eq!(checked_integer(Kind::List, 1), None);
}

#[test]
fn text_that_is_no_number_is_a_shape_mismatch() {
    assert_eq!(
        checked_integer_text(Kind::S32, "abc"),
        Err(DecodeError::ShapeMismatch { expected: Kind::S32, found: TokenKind::String })
    );
    assert_eq!(
        checked_integer_text(Kind::U64, ""),
        Err(DecodeError::ShapeMismatch { expected: Kind::U64, found: TokenKind::String })
    );
}

#[test]
fn a_minus_sign_is_out_of_range_for_unsigned_kinds() {
    assert_eq!(checked_integer_text(Kind::U8, "-1"), out_of_range(Kind::U8, "-1"));
    assert_eq!(checked_integer_text(Kind::U32, "-0"), out_of_range(Kind::U32, "-0"));
    assert_eq!(checked_integer_text(Kind::S8, "-0"), Ok(Val::S8(0)));
    assert_eq!(checked_integer_text(Kind::U8, "+7"), Ok(Val::U8(7)));
}

#[test]
fn text_beyond_64_bits_is_out_of_range() {
    for (kind, text) in [
        (Kind::U64, "18446744073709551616"),
        (Kind::S64, "-9223372036854775809"),
        (Kind::S8, "99999999999999999999999999999999999999999"),
    ] {
        assert_eq!(checked_integer_text(kind, text), out_of_range(kind, text));
    }
    assert_eq!(
        checked_integer_text(Kind::S64, "-9223372036854775808"),
        Ok(Val::S64(i64::MIN))
    );
}
