use verditum::decimal::{parse_i64, parse_usize};

const SAMPLES: &[&str] = &[
    "", "0", "7", "+7", "-7", "+", "-", "--1", "+-1", "007", "12a", " 1", "1 ", "٣", "18446744073709551615",
    "18446744073709551616", "9223372036854775807", "9223372036854775808", "-9223372036854775808",
    "-9223372036854775809", "99999999999999999999999", "-0", "+0", "1_000", "4278190335", "16711680",
];

#[test]
fn reads_usize_as_std_does() {
    for s in SAMPLES {
        assert_eq!(parse_usize(s), s.parse::<usize>().ok(), "{s:?}");
    }
}

#[test]
fn reads_i64_as_std_does() {
    for s in SAMPLES {
        assert_eq!(parse_i64(s), s.parse::<i64>().ok(), "{s:?}");
    }
}

#[test]
fn reads_plain_numbers() {
    assert_eq!(parse_usize("42"), Some(42));
    assert_eq!(parse_usize("-1"), None);
    assert_eq!(parse_i64("-42"), Some(-42));
    assert_eq!(parse_i64("-9223372036854775808"), Some(i64::MIN));
    assert_eq!(parse_i64("x"), None);
}
