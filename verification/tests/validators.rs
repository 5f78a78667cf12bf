use fintrackr::validate::{
    validate_amount, validate_category, validate_date, validate_description, Annotation,
};

#[test]
fn amount_accepts_plain_decimals() {
    assert_eq!(validate_amount("42.50"), Annotation::Valid);
    assert_eq!(validate_amount("0"), Annotation::Valid);
    assert_eq!(validate_amount("007"), Annotation::Valid);
    assert_eq!(validate_amount("-3."), Annotation::Valid);
    assert_eq!(validate_amount(".5"), Annotation::Valid);
    assert_eq!(validate_amount("+0.75"), Annotation::Valid);
    assert_eq!(validate_amount("-123456789.000000001"), Annotation::Valid);
}

#[test]
fn amount_rejects_non_decimals() {
    assert_eq!(validate_amount(""), Annotation::InvalidAmount);
    assert_eq!(validate_amount("."), Annotation::InvalidAmount);
    assert_eq!(validate_amount("+"), Annotation::InvalidAmount);
    assert_eq!(validate_amount("-."), Annotation::InvalidAmount);
    assert_eq!(validate_amount("1.2.3"), Annotation::InvalidAmount);
    assert_eq!(validate_amount("12a"), Annotation::InvalidAmount);
    assert_eq!(validate_amount("inf"), Annotation::InvalidAmount);
    assert_eq!(validate_amount("NaN"), Annotation::InvalidAmount);
    assert_eq!(validate_amount("1e5"), Annotation::InvalidAmount);
    assert_eq!(validate_amount("4 2"), Annotation::InvalidAmount);
    assert_eq!(validate_amount("--1"), Annotation::InvalidAmount);
}

#[test]
fn date_accepts_real_calendar_days() {
    assert_eq!(validate_date("2024-03-15"), Annotation::Valid);
    assert_eq!(validate_date("2024-02-29"), Annotation::Valid);
    assert_eq!(validate_date("2000-02-29"), Annotation::Valid);
    assert_eq!(validate_date("0001-01-01"), Annotation::Valid);
    assert_eq!(validate_date("9999-12-31"), Annotation::Valid);
}

#[test]
fn date_rejects_bad_days_and_shapes() {
    assert_eq!(validate_date("2024-02-30"), Annotation::InvalidDateFormat);
    assert_eq!(validate_date("2023-02-29"), Annotation::InvalidDateFormat);
    assert_eq!(validate_date("1900-02-29"), Annotation::InvalidDateFormat);
    assert_eq!(validate_date("2024-13-01"), Annotation::InvalidDateFormat);
    assert_eq!(validate_date("2024-00-10"), Annotation::InvalidDateFormat);
    assert_eq!(validate_date("2024-04-31"), Annotation::InvalidDateFormat);
    assert_eq!(validate_date("2024-3-15"), Annotation::InvalidDateFormat);
    assert_eq!(validate_date("24-03-15"), Annotation::InvalidDateFormat);
    assert_eq!(validate_date("2024/03/15"), Annotation::InvalidDateFormat);
    assert_eq!(validate_date(""), Annotation::InvalidDateFormat);
    assert_eq!(validate_date("2024-03-15 "), Annotation::InvalidDateFormat);
}

#[test]
fn category_accepts_alphanumeric_and_whitespace() {
    assert_eq!(validate_category("Food"), Annotation::Valid);
    assert_eq!(validate_category("My Food 2"), Annotation::Valid);
    assert_eq!(validate_category("caf\u{e9}"), Annotation::Valid);
    assert_eq!(validate_category(" "), Annotation::Valid);
}

#[test]
fn category_rejects_empty_and_symbols() {
    assert_eq!(validate_category(""), Annotation::InvalidCategory);
    assert_eq!(validate_category("Food!"), Annotation::InvalidCategory);
    assert_eq!(validate_category("a,b"), Annotation::InvalidCategory);
    assert_eq!(validate_category("x_y"), Annotation::InvalidCategory);
}

#[test]
fn description_requires_text() {
    assert_eq!(validate_description("Lunch"), Annotation::Valid);
    assert_eq!(validate_description(""), Annotation::MissingDescription);
}

#[test]
fn annotations_have_display_texts() {
    assert_eq!(Annotation::Valid.text(), "OK");
    assert_eq!(Annotation::InvalidAmount.text(), "ERROR: Invalid Amount");
    assert_eq!(Annotation::InvalidCategory.text(), "ERROR: Invalid Category");
    assert_eq!(Annotation::InvalidDateFormat.text(), "ERROR: Invalid Date Format");
    assert_eq!(
        Annotation::MissingDescription.text(),
        "ERROR: Enter a Description"
    );
}
