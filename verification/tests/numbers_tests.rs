use matrix_osu_bot::numbers::{format_decimal, format_grouped, parse_u32, parse_u64, IntErrorKind};
use num_format::{Locale, ToFormattedString};

#[test]
fn decimal_matches_to_string() {
    for n in [0u64, 7, 10, 99, 100, 12345, u64::MAX] {
        assert_eq!(format_decimal(n), n.to_string());
    }
}

#[test]
fn grouped_examples() {
    assert_eq!(format_grouped(0), "0");
    assert_eq!(format_grouped(999), "999");
    assert_eq!(format_grouped(1000), "1,000");
    assert_eq!(format_grouped(1234567), "1,234,567");
    assert_eq!(format_grouped(100200), "100,200");
}

#[test]
fn grouped_matches_num_format_en() {
    let mut n: u64 = 1;
    for _ in 0..40 {
        for m in [n - 1, n, n + 1, n * 7 + 3] {
            assert_eq!(format_grouped(m), m.to_formatted_string(&Locale::en));
        }
        n = n.saturating_mul(3);
    }
    assert_eq!(format_grouped(u64::MAX), u64::MAX.to_formatted_string(&Locale::en));
}

#[test]
fn grouping_only_adds_separators_on_examples() {
    for n in [0u64, 999, 1000, 987654321, u64::MAX] {
        assert_eq!(format_grouped(n).replace(',', ""), format_decimal(n));
    }
}

#[test]
fn parse_u32_matches_std() {
    for s in [
        "", "+", "-", "0", "+7", "-5", "007", "12a", "a12", "4294967295", "4294967296",
        "99999999999x", " 1", "1 ", "١٢", "+-1",
    ] {
        let ours = parse_u32(s);
        match s.parse::<u32>() {
            Ok(v) => assert_eq!(ours, Ok(v), "{s:?}"),
            Err(e) => {
                let kind = ours.expect_err(s);
                assert_eq!(kind.message(), e.to_string(), "{s:?}");
            }
        }
    }
}

#[test]
fn parse_error_kinds() {
    assert_eq!(parse_u32(""), Err(IntErrorKind::Empty));
    assert_eq!(parse_u32("+"), Err(IntErrorKind::InvalidDigit));
    assert_eq!(parse_u32("x"), Err(IntErrorKind::InvalidDigit));
    assert_eq!(parse_u32("4294967296"), Err(IntErrorKind::PosOverflow));
    assert_eq!(parse_u32("99999999999x"), Err(IntErrorKind::PosOverflow));
    assert_eq!(parse_u64("18446744073709551615"), Ok(u64::MAX));
    assert_eq!(parse_u64("18446744073709551616"), Err(IntErrorKind::PosOverflow));
}

#[test]
fn parse_reads_back_decimal() {
    for n in [0u64, 5, 42, 4294967295, u64::MAX] {
        assert_eq!(parse_u64(&format_decimal(n)), Ok(n));
    }
}

#[test]
fn error_messages() {
    assert_eq!(IntErrorKind::Empty.message(), "cannot parse integer from empty string");
    assert_eq!(IntErrorKind::InvalidDigit.message(), "invalid digit found in string");
    assert_eq!(IntErrorKind::PosOverflow.message(), "number too large to fit in target type");
}
