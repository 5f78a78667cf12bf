//! Character classification and text helpers shared by the validators and
//! the category resolver.

use vstd::prelude::*;

verus! {

/// Whether `c` counts as alphanumeric, exactly as `char::is_alphanumeric`
/// decides it.
pub uninterp spec fn char_alphanumeric(c: char) -> bool;

/// Whether `c` counts as whitespace, exactly as `char::is_whitespace`
/// decides it.
pub uninterp spec fn char_whitespace(c: char) -> bool;

/// Relies on `char::is_alphanumeric`: true exactly for Unicode alphabetic and
/// numeric characters; the result depends on the character alone.
pub assume_specification[ char::is_alphanumeric ](c: char) -> (r: bool)
    ensures
        r == char_alphanumeric(c),
;

/// Relies on `char::is_whitespace`: true exactly for Unicode whitespace
/// characters; the result depends on the character alone.
pub assume_specification[ char::is_whitespace ](c: char) -> (r: bool)
    ensures
        r == char_whitespace(c),
;

/// Relies on `String::push`: appends exactly one character at the end.
#[verifier::external_body]
pub fn push_char(s: &mut String, c: char)
    ensures
        final(s)@ == old(s)@.push(c),
{
    s.push(c)
}

/// Whether `c` is an ASCII decimal digit.
pub open spec fn is_digit(c: char) -> bool {
    48 <= c as int && c as int <= 57
}

/// The numeric value of an ASCII decimal digit.
pub open spec fn digit_val(c: char) -> int {
    c as int - 48
}

/// The ASCII character for the decimal digit `v`.
pub open spec fn digit_char(v: int) -> char {
    ((48 + v) as u8) as char
}

/// Appends the ASCII digit for `v` to `s`.
pub fn push_digit(s: &mut String, v: u8)
    requires
        v <= 9,
    ensures
        final(s)@ == old(s)@.push(digit_char(v as int)),
{
    let b: u8 = 48 + v;
    push_char(s, b as char);
}

/// `s` with leading and trailing whitespace removed.
pub open spec fn trimmed(s: Seq<char>) -> Seq<char>
    decreases s.len(),
{
    if s.len() == 0 {
        s
    } else if char_whitespace(s[0]) {
        trimmed(s.drop_first())
    } else if char_whitespace(s[s.len() - 1]) {
        trimmed(s.drop_last())
    } else {
        s
    }
}

proof fn lemma_trimmed_subrange(s: Seq<char>, a: int, b: int)
    requires
        0 <= a <= b <= s.len(),
        forall|i: int| 0 <= i < a ==> char_whitespace(s[i]),
        forall|i: int| b <= i < s.len() ==> char_whitespace(s[i]),
        a < b ==> !char_whitespace(s[a]) && !char_whitespace(s[b - 1]),
    ensures
        trimmed(s) == s.subrange(a, b),
    decreases s.len(),
{
    if s.len() == 0 {
        assert(s.subrange(a, b) =~= s);
    } else if char_whitespace(s[0]) {
        // a == 0 would force a == b, which the subrange below still covers.
        if a == b {
            assert(forall|i: int| 0 <= i < s.len() ==> char_whitespace(s[i]));
            let t = s.drop_first();
            lemma_trimmed_subrange(t, 0, 0);
            assert(s.subrange(a, b) =~= t.subrange(0, 0));
        } else {
            assert(!char_whitespace(s[a]));
            assert(a >= 1);
            let t = s.drop_first();
            lemma_trimmed_subrange(t, a - 1, b - 1);
            assert(s.subrange(a, b) =~= t.subrange(a - 1, b - 1));
        }
    } else if char_whitespace(s[s.len() - 1]) {
        if a == b {
            assert(char_whitespace(s[0]));
        } else {
            assert(!char_whitespace(s[b - 1]));
            assert(b <= s.len() - 1);
            let t = s.drop_last();
            lemma_trimmed_subrange(t, a, b);
            assert(s.subrange(a, b) =~= t.subrange(a, b));
        }
    } else {
        if a == b {
            assert(char_whitespace(s[0]));
        } else {
            assert(a == 0);
            assert(b == s.len());
            assert(s.subrange(a, b) =~= s);
        }
    }
}

/// Returns `s` with leading and trailing whitespace removed.
pub fn trim_text(s: &str) -> (r: String)
    ensures
        r@ == trimmed(s@),
{
    let n = s.unicode_len();
    let mut start: usize = 0;
    while start < n && s.get_char(start).is_whitespace()
        invariant
            n == s@.len(),
            start <= n,
            forall|i: int| 0 <= i < start ==> char_whitespace(s@[i]),
        decreases n - start,
    {
        start = start + 1;
    }
    let mut end: usize = n;
    while end > start && s.get_char(end - 1).is_whitespace()
        invariant
            n == s@.len(),
            start <= end <= n,
            forall|i: int| end <= i < n ==> char_whitespace(s@[i]),
        decreases end,
    {
        end = end - 1;
    }
    proof {
        lemma_trimmed_subrange(s@, start as int, end as int);
    }
    let r = s.substring_char(start, end);
    r.to_owned()
}

} // verus!
