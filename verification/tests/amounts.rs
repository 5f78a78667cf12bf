use fintrackr::amount::{amount_to_text, parse_amount};

fn canon(text: &str) -> String {
    amount_to_text(&parse_amount(text).unwrap())
}

#[test]
fn parse_keeps_exact_value_in_canonical_form() {
    assert_eq!(canon("42.50"), "42.5");
    assert_eq!(canon("42.5"), "42.5");
    assert_eq!(canon("007"), "7");
    assert_eq!(canon("0"), "0");
    assert_eq!(canon("000.000"), "0");
    assert_eq!(canon("-0"), "0");
    assert_eq!(canon("-0.00"), "0");
    assert_eq!(canon(".5"), "0.5");
    assert_eq!(canon("-.25"), "-0.25");
    assert_eq!(canon("+3.1400"), "3.14");
    assert_eq!(canon("3."), "3");
    assert_eq!(canon("10"), "10");
    assert_eq!(canon("0.050"), "0.05");
    assert_eq!(canon("123456789012345678901234567890.1"), "123456789012345678901234567890.1");
}

#[test]
fn parse_rejects_what_the_validator_rejects() {
    assert!(parse_amount("").is_none());
    assert!(parse_amount(".").is_none());
    assert!(parse_amount("1..2").is_none());
    assert!(parse_amount("five").is_none());
    assert!(parse_amount("-").is_none());
}

#[test]
fn canonical_amounts_are_structural() {
    let a = parse_amount("42.50").unwrap();
    assert!(!a.negative);
    assert_eq!(a.digits, vec![4u8, 2, 5]);
    assert_eq!(a.frac, 1);
    let z = parse_amount("-0.0").unwrap();
    assert!(!z.negative);
    assert_eq!(z.digits, vec![0u8]);
    assert_eq!(z.frac, 0);
}
