use cremeux::decimal::{
    format_isize, format_u64, format_usize, parse_isize, parse_u64, parse_usize, ParseIntError,
};

#[test]
fn parse_u64_reads_plain_and_plus_signed_digits() {
    assert_eq!(parse_u64("0"), Ok(0));
    assert_eq!(parse_u64("42"), Ok(42));
    assert_eq!(parse_u64("+42"), Ok(42));
    assert_eq!(parse_u64("007"), Ok(7));
    assert_eq!(parse_u64("18446744073709551615"), Ok(u64::MAX));
    assert_eq!(parse_u64("783333213854629958"), Ok(783333213854629958));
}

#[test]
fn parse_u64_errors_are_those_of_std() {
    assert_eq!(parse_u64(""), Err(ParseIntError::Empty));
    assert_eq!(parse_u64("+"), Err(ParseIntError::InvalidDigit));
    assert_eq!(parse_u64("-"), Err(ParseIntError::InvalidDigit));
    assert_eq!(parse_u64("-1"), Err(ParseIntError::InvalidDigit));
    assert_eq!(parse_u64("12a"), Err(ParseIntError::InvalidDigit));
    assert_eq!(parse_u64(" 12"), Err(ParseIntError::InvalidDigit));
    assert_eq!(parse_u64("1é"), Err(ParseIntError::InvalidDigit));
    assert_eq!(parse_u64("18446744073709551616"), Err(ParseIntError::PosOverflow));
    assert_eq!(parse_u64("99999999999999999999x"), Err(ParseIntError::PosOverflow));
}

#[test]
fn parse_agrees_with_std_on_samples() {
    let samples = [
        "", "+", "-", "0", "-0", "+0", "12", "-12", "+12", "1_000", "abc", "9223372036854775807",
        "9223372036854775808", "-9223372036854775808", "-9223372036854775809",
        "18446744073709551615", "18446744073709551616", "٣", "12 ", "--1", "+-1",
    ];
    for s in samples.iter() {
        let ours_u64 = parse_u64(s).ok();
        assert_eq!(ours_u64, s.parse::<u64>().ok(), "u64 {:?}", s);
        let ours_usize = parse_usize(s).ok();
        assert_eq!(ours_usize, s.parse::<usize>().ok(), "usize {:?}", s);
        let ours_isize = parse_isize(s).ok();
        assert_eq!(ours_isize, s.parse::<isize>().ok(), "isize {:?}", s);
        if let Err(e) = s.parse::<isize>() {
            assert_eq!(parse_isize(s).unwrap_err().message(), e.to_string(), "isize {:?}", s);
        }
        if let Err(e) = s.parse::<u64>() {
            assert_eq!(parse_u64(s).unwrap_err().message(), e.to_string(), "u64 {:?}", s);
        }
    }
}

#[test]
fn parse_isize_takes_a_sign() {
    assert_eq!(parse_isize("-15"), Ok(-15));
    assert_eq!(parse_isize("+15"), Ok(15));
    assert_eq!(parse_isize("-0"), Ok(0));
    assert_eq!(parse_isize(&isize::MIN.to_string()), Ok(isize::MIN));
    assert_eq!(parse_isize(&isize::MAX.to_string()), Ok(isize::MAX));
    assert_eq!(parse_isize("-99999999999999999999"), Err(ParseIntError::NegOverflow));
    assert_eq!(parse_isize("99999999999999999999"), Err(ParseIntError::PosOverflow));
}

#[test]
fn messages_are_those_of_std() {
    assert_eq!(ParseIntError::Empty.message(), "cannot parse integer from empty string");
    assert_eq!(ParseIntError::InvalidDigit.message(), "invalid digit found in string");
    assert_eq!(ParseIntError::PosOverflow.message(), "number too large to fit in target type");
    assert_eq!(ParseIntError::NegOverflow.message(), "number too small to fit in target type");
}

#[test]
fn format_writes_what_display_writes() {
    assert_eq!(format_u64(0), "0");
    assert_eq!(format_u64(10), "10");
    assert_eq!(format_u64(u64::MAX), u64::MAX.to_string());
    assert_eq!(format_usize(123), "123");
    assert_eq!(format_isize(-7), "-7");
    assert_eq!(format_isize(0), "0");
    assert_eq!(format_isize(isize::MIN), isize::MIN.to_string());
    assert_eq!(format_isize(isize::MAX), isize::MAX.to_string());
}

#[test]
fn format_then_parse_gives_the_number_back() {
    for n in [0u64, 1, 9, 10, 99, 100, 783333213854629958, u64::MAX] {
        assert_eq!(parse_u64(&format_u64(n)), Ok(n));
    }
    for i in [0isize, -1, 1, -60, 210, isize::MIN, isize::MAX] {
        assert_eq!(parse_isize(&format_isize(i)), Ok(i));
    }
    for n in [0usize, 10, usize::MAX] {
        assert_eq!(parse_usize(&format_usize(n)), Ok(n));
    }
}
