//! Per-field validation: each validator maps raw text to a verdict and a
//! display annotation, and never blocks typing.

use vstd::prelude::*;
use crate::amount::is_amount_text;
use crate::amount::parse_amount;
use crate::date::is_date_text;
use crate::date::parse_date;
use crate::text::{char_alphanumeric, char_whitespace};

verus! {

/// The display annotation a validator attaches to a field.
#[derive(Clone, Copy, PartialEq, Eq, Structural, Debug)]
pub enum Annotation {
    Valid,
    InvalidAmount,
    InvalidCategory,
    InvalidDateFormat,
    MissingDescription,
}

/// The text shown beside a field for each annotation.
pub open spec fn spec_annotation_text(a: Annotation) -> Seq<char> {
    match a {
        Annotation::Valid => "OK"@,
        Annotation::InvalidAmount => "ERROR: Invalid Amount"@,
        Annotation::InvalidCategory => "ERROR: Invalid Category"@,
        Annotation::InvalidDateFormat => "ERROR: Invalid Date Format"@,
        Annotation::MissingDescription => "ERROR: Enter a Description"@,
    }
}

impl Annotation {
    /// The text shown beside the field.
    pub fn text(&self) -> (r: String)
        ensures
            r@ == spec_annotation_text(*self),
    {
        match self {
            Annotation::Valid => String::from_str("OK"),
            Annotation::InvalidAmount => String::from_str("ERROR: Invalid Amount"),
            Annotation::InvalidCategory => String::from_str("ERROR: Invalid Category"),
            Annotation::InvalidDateFormat => String::from_str("ERROR: Invalid Date Format"),
            Annotation::MissingDescription => String::from_str("ERROR: Enter a Description"),
        }
    }
}

/// Whether a category text is acceptable: non-empty and composed only of
/// alphanumeric and whitespace characters.
pub open spec fn is_category_text(s: Seq<char>) -> bool {
    s.len() > 0 && forall|i: int|
        0 <= i < s.len() ==> char_alphanumeric(s[i]) || char_whitespace(s[i])
}

/// Whether a description text is acceptable: non-empty.
pub open spec fn is_description_text(s: Seq<char>) -> bool {
    s.len() > 0
}

/// Validates the amount field: acceptable exactly when the text is a finite
/// decimal numeral.
pub fn validate_amount(text: &str) -> (v: Annotation)
    ensures
        v == (if is_amount_text(text@) {
            Annotation::Valid
        } else {
            Annotation::InvalidAmount
        }),
{
    if parse_amount(text).is_some() {
        Annotation::Valid
    } else {
        Annotation::InvalidAmount
    }
}

/// Validates the category field: acceptable exactly when the text is
/// non-empty and every character is alphanumeric or whitespace.
pub fn validate_category(text: &str) -> (v: Annotation)
    ensures
        v == (if is_category_text(text@) {
            Annotation::Valid
        } else {
            Annotation::InvalidCategory
        }),
{
    let n = text.unicode_len();
    if n == 0 {
        return Annotation::InvalidCategory;
    }
    let mut i: usize = 0;
    while i < n
        invariant
            n == text@.len(),
            i <= n,
            forall|j: int|
                0 <= j < i ==> char_alphanumeric(text@[j]) || char_whitespace(text@[j]),
        decreases n - i,
    {
        let c = text.get_char(i);
        if !(c.is_alphanumeric() || c.is_whitespace()) {
            return Annotation::InvalidCategory;
        }
        i = i + 1;
    }
    Annotation::Valid
}

/// Validates the date field: acceptable exactly when the text matches
/// `YYYY-MM-DD` and names a real calendar date.
pub fn validate_date(text: &str) -> (v: Annotation)
    ensures
        v == (if is_date_text(text@) {
            Annotation::Valid
        } else {
            Annotation::InvalidDateFormat
        }),
{
    if parse_date(text).is_some() {
        Annotation::Valid
    } else {
        Annotation::InvalidDateFormat
    }
}

/// Validates the description field: acceptable exactly when non-empty.
pub fn validate_description(text: &str) -> (v: Annotation)
    ensures
        v == (if is_description_text(text@) {
            Annotation::Valid
        } else {
            Annotation::MissingDescription
        }),
{
    if text.unicode_len() > 0 {
        Annotation::Valid
    } else {
        Annotation::MissingDescription
    }
}

/// The four form fields, in focus order.
#[derive(Clone, Copy, PartialEq, Eq, Structural, Debug)]
pub enum FieldKind {
    Amount,
    Category,
    DateField,
    Description,
}

/// Whether `text` is acceptable for a field of kind `kind`.
pub open spec fn spec_field_valid(kind: FieldKind, text: Seq<char>) -> bool {
    match kind {
        FieldKind::Amount => is_amount_text(text),
        FieldKind::Category => is_category_text(text),
        FieldKind::DateField => is_date_text(text),
        FieldKind::Description => is_description_text(text),
    }
}

/// The annotation a validator of kind `kind` attaches to `text`.
pub open spec fn spec_verdict(kind: FieldKind, text: Seq<char>) -> Annotation {
    if spec_field_valid(kind, text) {
        Annotation::Valid
    } else {
        match kind {
            FieldKind::Amount => Annotation::InvalidAmount,
            FieldKind::Category => Annotation::InvalidCategory,
            FieldKind::DateField => Annotation::InvalidDateFormat,
            FieldKind::Description => Annotation::MissingDescription,
        }
    }
}

/// Runs the validator for a field of kind `kind` on `text`.
pub fn validate_field(kind: FieldKind, text: &str) -> (v: Annotation)
    ensures
        v == spec_verdict(kind, text@),
        (v == Annotation::Valid) == spec_field_valid(kind, text@),
{
    match kind {
        FieldKind::Amount => validate_amount(text),
        FieldKind::Category => validate_category(text),
        FieldKind::DateField => validate_date(text),
        FieldKind::Description => validate_description(text),
    }
}

} // verus!
