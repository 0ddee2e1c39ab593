use flagfile_cli::num::{parse_i64_of, parse_unsigned_of};
use flagfile_cli::text::{decimal_of, int_text};

fn chars(s: &str) -> Vec<char> {
    s.chars().collect()
}

#[test]
fn parse_i64_like_std() {
    for t in ["0", "-0", "+12", "-9223372036854775808", "9223372036854775807", "", "-", "+", "1a", " 1", "9223372036854775808", "-9223372036854775809"] {
        assert_eq!(parse_i64_of(&chars(t)), t.parse::<i64>().ok(), "input {:?}", t);
    }
}

#[test]
fn parse_u64_and_u16_like_std() {
    for t in ["0", "+7", "-0", "-1", "18446744073709551615", "18446744073709551616", "", "+"] {
        assert_eq!(parse_unsigned_of(&chars(t), u64::MAX), t.parse::<u64>().ok(), "input {:?}", t);
    }
    for t in ["65535", "65536", "+80", "8080"] {
        assert_eq!(parse_unsigned_of(&chars(t), 65535).map(|v| v as u16), t.parse::<u16>().ok(), "input {:?}", t);
    }
}

#[test]
fn decimal_rendering() {
    assert_eq!(decimal_of(0), "0");
    assert_eq!(decimal_of(1234567890), "1234567890");
    assert_eq!(decimal_of(u64::MAX), u64::MAX.to_string());
    assert_eq!(int_text(-42), "-42");
    assert_eq!(int_text(i64::MIN), i64::MIN.to_string());
}
