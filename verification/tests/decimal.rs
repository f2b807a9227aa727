use mindurka_bot::decimal::{parse_decimal, DecimalValue};
use std::str::FromStr;

fn dec(negative: bool, magnitude: u128, scale: u32) -> DecimalValue {
    DecimalValue { negative, magnitude, scale }
}

#[test]
fn parses_plain_and_fractional_numbers() {
    assert_eq!(parse_decimal("4"), Some(dec(false, 4, 0)));
    assert_eq!(parse_decimal("4.1"), Some(dec(false, 41, 1)));
    assert_eq!(parse_decimal("4.10"), Some(dec(false, 410, 2)));
    assert_eq!(parse_decimal("-2.5"), Some(dec(true, 25, 1)));
    assert_eq!(parse_decimal("0.005"), Some(dec(false, 5, 3)));
}

#[test]
fn refuses_what_is_not_a_number() {
    assert_eq!(parse_decimal(""), None);
    assert_eq!(parse_decimal("four"), None);
    assert_eq!(parse_decimal("1.2.3"), None);
}

#[test]
fn prints_as_rust_decimal_does() {
    let texts = [
        "0", "0.00", "1", "-1", "4.1", "4.10", "0.005", "-0.5", "123456789.000001",
        "79228162514264337593543950335", "0.0000000000000000000000000001", "-0", "-0.000",
        "10", "100.0",
    ];
    for t in texts {
        let ours = parse_decimal(t).unwrap().to_text();
        let theirs = rust_decimal::Decimal::from_str(t).unwrap().to_string();
        assert_eq!(ours, theirs, "text {:?}", t);
    }
}

#[test]
fn prints_built_values() {
    assert_eq!(dec(false, 5, 3).to_text(), "0.005");
    assert_eq!(dec(true, 1234, 2).to_text(), "-12.34");
    assert_eq!(dec(false, 0, 0).to_text(), "0");
    assert_eq!(dec(false, 7, 0).to_text(), "7");
    assert_eq!(dec(false, 0, 2).to_text(), "0.00");
}

#[test]
fn normalize_strips_trailing_zeros_and_zero_sign() {
    assert_eq!(dec(false, 410, 2).normalize(), dec(false, 41, 1));
    assert_eq!(dec(false, 4100, 2).normalize(), dec(false, 41, 0));
    assert_eq!(dec(false, 4100, 0).normalize(), dec(false, 4100, 0));
    assert_eq!(dec(true, 0, 3).normalize(), dec(false, 0, 0));
    assert_eq!(dec(true, 50, 1).normalize(), dec(true, 5, 0));
}

#[test]
fn equal_numbers_share_one_canonical_form() {
    let a = parse_decimal("4.10").unwrap().normalize();
    let b = parse_decimal("4.1").unwrap().normalize();
    let c = parse_decimal("4.01").unwrap().normalize();
    assert_eq!(a, b);
    assert_ne!(a, c);
    assert_eq!(parse_decimal("-0").unwrap().normalize(), parse_decimal("0.0").unwrap().normalize());
}
