//! Signed decimal amounts: the text grammar the amount field accepts, an
//! exact decimal representation, and parsing and printing between the two.

use vstd::prelude::*;
use crate::text::{is_digit, digit_val, digit_char, push_char, push_digit};

verus! {

/// A signed decimal number in canonical form. The value is
/// `(-1)^negative * digits / 10^frac`, where `digits` holds the decimal
/// digits of the magnitude, most significant first.
#[derive(Clone, Debug)]
pub struct Amount {
    pub negative: bool,
    pub digits: Vec<u8>,
    pub frac: usize,
}

/// The mathematical content of an [`Amount`].
#[verifier::ext_equal]
pub struct AmountV {
    pub negative: bool,
    pub digits: Seq<u8>,
    pub frac: nat,
}

impl View for Amount {
    type V = AmountV;

    open spec fn view(&self) -> AmountV {
        AmountV { negative: self.negative, digits: self.digits@, frac: self.frac as nat }
    }
}

/// Canonical form: at least one digit, every digit in range, no redundant
/// leading zero, no trailing zero in the fraction, and zero itself written
/// as a single non-negative digit with no fraction.
pub open spec fn amount_v_wf(a: AmountV) -> bool {
    &&& a.digits.len() > 0
    &&& forall|i: int| 0 <= i < a.digits.len() ==> a.digits[i] <= 9
    &&& a.digits.len() > 1 ==> a.digits[0] != 0
    &&& a.frac > 0 ==> a.digits[a.digits.len() - 1] != 0
    &&& a.digits =~= seq![0u8] ==> a.frac == 0 && !a.negative
}

/// Whether every character of `s` is an ASCII digit.
pub open spec fn all_digits(s: Seq<char>) -> bool {
    forall|i: int| 0 <= i < s.len() ==> is_digit(s[i])
}

/// An unsigned decimal numeral: digits with at most one decimal point and
/// at least one digit.
pub open spec fn is_unsigned_amount_text(s: Seq<char>) -> bool {
    ||| (s.len() > 0 && all_digits(s))
    ||| (s.len() > 1 && exists|i: int|
        0 <= i < s.len() && s[i] == '.' && all_digits(s.subrange(0, i)) && all_digits(
            s.subrange(i + 1, s.len() as int),
        ))
}

/// A finite decimal numeral: an optional sign followed by an unsigned
/// decimal numeral.
pub open spec fn is_amount_text(s: Seq<char>) -> bool {
    if s.len() > 0 && (s[0] == '+' || s[0] == '-') {
        is_unsigned_amount_text(s.skip(1))
    } else {
        is_unsigned_amount_text(s)
    }
}

/// Whether `s` contains a decimal point.
pub open spec fn has_dot(s: Seq<char>) -> bool {
    exists|i: int| 0 <= i < s.len() && s[i] == '.'
}

/// The position of the decimal point of `s` (unique in a valid numeral).
pub open spec fn dot_pos(s: Seq<char>) -> int {
    choose|i: int| 0 <= i < s.len() && s[i] == '.'
}

/// The digit values of a sequence of ASCII digit characters.
pub open spec fn char_digits(s: Seq<char>) -> Seq<u8> {
    Seq::new(s.len(), |i: int| digit_val(s[i]) as u8)
}

/// The digit characters of a sequence of digit values.
pub open spec fn digit_chars(ds: Seq<u8>) -> Seq<char> {
    Seq::new(ds.len(), |i: int| digit_char(ds[i] as int))
}

/// `n` zero digits.
pub open spec fn zero_digits(n: nat) -> Seq<u8> {
    Seq::new(n, |i: int| 0u8)
}

/// Drops trailing zeros of the fraction.
pub open spec fn strip_frac(ds: Seq<u8>, frac: nat) -> (Seq<u8>, nat)
    decreases frac,
{
    if frac > 0 && ds.len() > 0 && ds[ds.len() - 1] == 0 {
        strip_frac(ds.drop_last(), (frac - 1) as nat)
    } else {
        (ds, frac)
    }
}

/// Drops redundant leading zero digits.
pub open spec fn strip_lead(ds: Seq<u8>) -> Seq<u8>
    decreases ds.len(),
{
    if ds.len() > 1 && ds[0] == 0 {
        strip_lead(ds.drop_first())
    } else {
        ds
    }
}

/// The canonical amount with sign `neg`, digits `ds` and `frac` fraction
/// digits.
pub open spec fn canon_amount(neg: bool, ds: Seq<u8>, frac: nat) -> AmountV {
    let (ds1, f1) = strip_frac(ds, frac);
    let ds2 = strip_lead(ds1);
    if ds2.len() == 0 || ds2 =~= seq![0u8] {
        AmountV { negative: false, digits: seq![0u8], frac: 0 }
    } else {
        AmountV { negative: neg, digits: ds2, frac: f1 }
    }
}

/// The digit values of an unsigned numeral, the decimal point removed.
pub open spec fn unsigned_digits(u: Seq<char>) -> Seq<u8> {
    if has_dot(u) {
        char_digits(u.subrange(0, dot_pos(u)) + u.subrange(dot_pos(u) + 1, u.len() as int))
    } else {
        char_digits(u)
    }
}

/// The number of fraction digits of an unsigned numeral.
pub open spec fn unsigned_frac(u: Seq<char>) -> nat {
    if has_dot(u) {
        (u.len() - dot_pos(u) - 1) as nat
    } else {
        0
    }
}

/// The canonical amount named by a valid amount text.
pub open spec fn spec_parse_amount(s: Seq<char>) -> Option<AmountV> {
    if !is_amount_text(s) {
        None
    } else {
        let neg = s.len() > 0 && s[0] == '-';
        let u = if s.len() > 0 && (s[0] == '+' || s[0] == '-') {
            s.skip(1)
        } else {
            s
        };
        Some(canon_amount(neg, unsigned_digits(u), unsigned_frac(u)))
    }
}

/// The text of an amount: sign, integer digits, then the fraction after a
/// decimal point, zero-padded when the value has no integer digits.
pub open spec fn amount_text(a: AmountV) -> Seq<char> {
    let sign: Seq<char> = if a.negative {
        seq!['-']
    } else {
        Seq::<char>::empty()
    };
    let intd: Seq<u8> = if a.digits.len() > a.frac {
        a.digits.subrange(0, a.digits.len() - a.frac)
    } else {
        seq![0u8]
    };
    let fracd: Seq<u8> = if a.digits.len() >= a.frac {
        a.digits.subrange(a.digits.len() - a.frac, a.digits.len() as int)
    } else {
        zero_digits((a.frac - a.digits.len()) as nat) + a.digits
    };
    sign + digit_chars(intd) + (if a.frac > 0 {
        seq!['.'] + digit_chars(fracd)
    } else {
        Seq::<char>::empty()
    })
}

proof fn lemma_not_unsigned_two_dots(u: Seq<char>, d1: int, d2: int)
    requires
        0 <= d1 < d2 < u.len(),
        u[d1] == '.',
        u[d2] == '.',
    ensures
        !is_unsigned_amount_text(u),
{
    assert(!is_digit('.'));
    if is_unsigned_amount_text(u) {
        if all_digits(u) {
            assert(is_digit(u[d1]));
        } else {
            let i = choose|i: int|
                0 <= i < u.len() && u[i] == '.' && all_digits(u.subrange(0, i)) && all_digits(
                    u.subrange(i + 1, u.len() as int),
                );
            let d = if i == d1 {
                d2
            } else {
                d1
            };
            if d < i {
                assert(u.subrange(0, i)[d] == '.');
            } else {
                assert(u.subrange(i + 1, u.len() as int)[d - i - 1] == '.');
            }
        }
    }
}

proof fn lemma_not_unsigned_bad_char(u: Seq<char>, k: int)
    requires
        0 <= k < u.len(),
        !is_digit(u[k]),
        u[k] != '.',
    ensures
        !is_unsigned_amount_text(u),
{
    if is_unsigned_amount_text(u) {
        if all_digits(u) {
            assert(is_digit(u[k]));
        } else {
            let i = choose|i: int|
                0 <= i < u.len() && u[i] == '.' && all_digits(u.subrange(0, i)) && all_digits(
                    u.subrange(i + 1, u.len() as int),
                );
            if k < i {
                assert(u.subrange(0, i)[k] == u[k]);
            } else if k > i {
                assert(u.subrange(i + 1, u.len() as int)[k - i - 1] == u[k]);
            }
        }
    }
}

/// Parses a finite decimal numeral into its canonical amount. Returns an
/// amount exactly when the text is a valid numeral.
pub fn parse_amount(s: &str) -> (r: Option<Amount>)
    ensures
        r is Some <==> is_amount_text(s@),
        r is Some ==> amount_v_wf(r->Some_0@) && Some(r->Some_0@) == spec_parse_amount(s@),
{
    let n = s.unicode_len();
    let mut start: usize = 0;
    let mut neg = false;
    if n > 0 {
        let c0 = s.get_char(0);
        if c0 == '-' {
            neg = true;
            start = 1;
        } else if c0 == '+' {
            start = 1;
        }
    }
    let ghost u = s@.skip(start as int);
    proof {
        if start == 0 {
            assert(u =~= s@);
        }
        assert(is_amount_text(s@) == is_unsigned_amount_text(u));
        assert(neg == (s@.len() > 0 && s@[0] == '-'));
    }
    let mut i: usize = start;
    let mut dot: Option<usize> = None;
    while i < n
        invariant
            n == s@.len(),
            start <= i <= n,
            start <= 1,
            u == s@.skip(start as int),
            is_amount_text(s@) == is_unsigned_amount_text(u),
            match dot {
                Some(d) => start <= d < i && s@[d as int] == '.' && forall|j: int|
                    start <= j < i && j != d ==> is_digit(s@[j]),
                None => forall|j: int| start <= j < i ==> is_digit(s@[j]),
            },
        decreases n - i,
    {
        let c = s.get_char(i);
        if c == '.' {
            if let Some(d) = dot {
                proof {
                    lemma_not_unsigned_two_dots(u, d - start, i - start);
                }
                return None;
            }
            dot = Some(i);
        } else {
            let v = c as u32;
            if !(48 <= v && v <= 57) {
                proof {
                    lemma_not_unsigned_bad_char(u, i - start);
                }
                return None;
            }
        }
        i = i + 1;
    }
    if let Some(d) = dot {
        if n - start < 2 {
            proof {
                assert(u.len() == 1);
                assert(u[0] == '.');
                assert(all_digits(u) ==> is_digit(u[0]));
                assert(!is_digit('.'));
            }
            return None;
        }
        proof {
            let dp = d - start;
            assert(u[dp] == '.');
            assert forall|k: int| 0 <= k < dp implies is_digit(u.subrange(0, dp)[k]) by {
                assert(u[k] == s@[start + k]);
            }
            assert forall|k: int| 0 <= k < u.len() - dp - 1 implies #[trigger] is_digit(
                u.subrange(dp + 1, u.len() as int)[k],
            ) by {
                assert(u[dp + 1 + k] == s@[start + dp + 1 + k]);
            }
            assert(is_unsigned_amount_text(u));
        }
    } else {
        if n == start {
            proof {
                assert(u.len() == 0);
            }
            return None;
        }
        proof {
            assert forall|k: int| 0 <= k < u.len() implies is_digit(u[k]) by {
                assert(u[k] == s@[start + k]);
            }
            assert(is_unsigned_amount_text(u));
        }
    }
    let mut ds: Vec<u8> = Vec::new();
    if let Some(d) = dot {
        let mut j: usize = start;
        while j < d
            invariant
                n == s@.len(),
                start <= j <= d < n,
                forall|k: int| start <= k < n && k != d ==> is_digit(s@[k]),
                ds@ == char_digits(s@.subrange(start as int, j as int)),
            decreases d - j,
        {
            let c = s.get_char(j);
            ds.push(((c as u32) - 48) as u8);
            proof {
                assert(ds@ =~= char_digits(s@.subrange(start as int, j + 1)));
            }
            j = j + 1;
        }
        let mut j2: usize = d + 1;
        while j2 < n
            invariant
                n == s@.len(),
                start <= d < j2 <= n,
                forall|k: int| start <= k < n && k != d ==> is_digit(s@[k]),
                ds@ == char_digits(s@.subrange(start as int, d as int)) + char_digits(
                    s@.subrange(d + 1, j2 as int),
                ),
            decreases n - j2,
        {
            let c = s.get_char(j2);
            ds.push(((c as u32) - 48) as u8);
            proof {
                assert(ds@ =~= char_digits(s@.subrange(start as int, d as int)) + char_digits(
                    s@.subrange(d + 1, j2 + 1),
                ));
            }
            j2 = j2 + 1;
        }
    } else {
        let mut j: usize = start;
        while j < n
            invariant
                n == s@.len(),
                start <= j <= n,
                forall|k: int| start <= k < n ==> is_digit(s@[k]),
                ds@ == char_digits(s@.subrange(start as int, j as int)),
            decreases n - j,
        {
            let c = s.get_char(j);
            ds.push(((c as u32) - 48) as u8);
            proof {
                assert(ds@ =~= char_digits(s@.subrange(start as int, j + 1)));
            }
            j = j + 1;
        }
    }
    let mut frac: usize = 0;
    if let Some(d) = dot {
        frac = n - d - 1;
    }
    proof {
        if let Some(d) = dot {
            let dp = d - start;
            assert(has_dot(u));
            let q = dot_pos(u);
            assert(0 <= q < u.len() && u[q] == '.');
            if q != dp {
                assert(is_digit(s@[start + q]));
                assert(u[q] == s@[start + q]);
                assert(!is_digit('.'));
            }
            assert(q == dp);
            assert(u.subrange(0, dp) =~= s@.subrange(start as int, d as int));
            assert(u.subrange(dp + 1, u.len() as int) =~= s@.subrange(d + 1, n as int));
            assert(char_digits(u.subrange(0, dp)) + char_digits(
                u.subrange(dp + 1, u.len() as int),
            ) =~= char_digits(u.subrange(0, dp) + u.subrange(dp + 1, u.len() as int)));
            assert(ds@ == unsigned_digits(u));
            assert(frac as nat == unsigned_frac(u));
        } else {
            if has_dot(u) {
                let q = dot_pos(u);
                assert(0 <= q < u.len() && u[q] == '.');
                assert(is_digit(s@[start + q]));
                assert(!is_digit('.'));
            }
            assert(u =~= s@.subrange(start as int, n as int));
            assert(ds@ == unsigned_digits(u));
            assert(frac as nat == unsigned_frac(u));
        }
    }
    let ghost ds0 = ds@;
    let ghost frac0 = frac as nat;
    while frac > 0 && ds.len() > 0 && ds[ds.len() - 1] == 0
        invariant
            strip_frac(ds0, frac0) == strip_frac(ds@, frac as nat),
            forall|k: int| 0 <= k < ds@.len() ==> ds@[k] <= 9,
            ds@.len() >= frac,
        decreases frac,
    {
        let _last = ds.pop();
        frac = frac - 1;
    }
    proof {
        assert(strip_frac(ds@, frac as nat) == (ds@, frac as nat));
    }
    let ghost ds1 = ds@;
    let ghost f1 = frac as nat;
    while ds.len() > 1 && ds[0] == 0
        invariant
            strip_lead(ds1) == strip_lead(ds@),
            forall|k: int| 0 <= k < ds@.len() ==> ds@[k] <= 9,
            frac as nat == f1,
            frac > 0 ==> ds@.len() > 0 && ds@[ds@.len() - 1] != 0,
        decreases ds@.len(),
    {
        proof {
            assert(ds@.remove(0) =~= ds@.drop_first());
        }
        ds.remove(0);
    }
    proof {
        assert(strip_lead(ds@) == ds@);
    }
    if ds.len() == 0 {
        let mut z: Vec<u8> = Vec::new();
        z.push(0);
        proof {
            assert(z@ =~= seq![0u8]);
        }
        return Some(Amount { negative: false, digits: z, frac: 0 });
    }
    if ds.len() == 1 && ds[0] == 0 {
        proof {
            assert(ds@ =~= seq![0u8]);
        }
        return Some(Amount { negative: false, digits: ds, frac: 0 });
    }
    proof {
        assert(!(ds@ =~= seq![0u8]));
    }
    Some(Amount { negative: neg, digits: ds, frac })
}

proof fn lemma_digit_char_val(v: int)
    requires
        0 <= v <= 9,
    ensures
        is_digit(digit_char(v)),
        digit_val(digit_char(v)) == v,
{
}

pub proof fn lemma_digits_roundtrip(ds: Seq<u8>)
    requires
        forall|i: int| 0 <= i < ds.len() ==> ds[i] <= 9,
    ensures
        char_digits(digit_chars(ds)) =~= ds,
        forall|i: int| 0 <= i < ds.len() ==> #[trigger] is_digit(digit_chars(ds)[i]),
{
    assert forall|i: int| 0 <= i < ds.len() implies #[trigger] is_digit(digit_chars(ds)[i])
        && digit_val(digit_chars(ds)[i]) == ds[i] by {
        lemma_digit_char_val(ds[i] as int);
    }
}

proof fn lemma_strip_lead_zeros(k: nat, ds: Seq<u8>)
    requires
        ds.len() > 0,
        ds[0] != 0,
    ensures
        strip_lead(zero_digits(k) + ds) == ds,
    decreases k,
{
    if k == 0 {
        assert(zero_digits(0) + ds =~= ds);
        if ds.len() > 1 {
            assert(strip_lead(ds) == ds);
        }
    } else {
        let w = zero_digits(k) + ds;
        assert(w[0] == 0);
        assert(w.len() > 1);
        assert(w.drop_first() =~= zero_digits((k - 1) as nat) + ds);
        lemma_strip_lead_zeros((k - 1) as nat, ds);
    }
}

/// Prints a well-formed amount as a finite decimal numeral.
pub fn amount_to_text(a: &Amount) -> (r: String)
    requires
        amount_v_wf(a@),
    ensures
        r@ == amount_text(a@),
{
    let mut r = String::new();
    if a.negative {
        push_char(&mut r, '-');
    }
    let ghost sign: Seq<char> = if a.negative {
        seq!['-']
    } else {
        Seq::<char>::empty()
    };
    proof {
        assert(r@ =~= sign);
    }
    let len = a.digits.len();
    let ghost intd: Seq<u8> = if len > a.frac {
        a.digits@.subrange(0, len - a.frac)
    } else {
        seq![0u8]
    };
    if len > a.frac {
        let m = len - a.frac;
        let mut i: usize = 0;
        while i < m
            invariant
                amount_v_wf(a@),
                len == a.digits@.len(),
                m == len - a.frac,
                m <= len,
                i <= m,
                r@ == sign + digit_chars(a.digits@.subrange(0, i as int)),
            decreases m - i,
        {
            push_digit(&mut r, a.digits[i]);
            proof {
                assert(r@ =~= sign + digit_chars(a.digits@.subrange(0, i + 1)));
            }
            i = i + 1;
        }
        proof {
            assert(r@ == sign + digit_chars(intd));
        }
    } else {
        push_digit(&mut r, 0);
        proof {
            assert(digit_chars(seq![0u8]) =~= seq![digit_char(0)]);
            assert(r@ =~= sign + digit_chars(intd));
        }
    }
    if a.frac > 0 {
        push_char(&mut r, '.');
        let ghost mid: Seq<char> = sign + digit_chars(intd) + seq!['.'];
        proof {
            assert(r@ =~= mid);
        }
        if len >= a.frac {
            let base = len - a.frac;
            let mut i: usize = base;
            while i < len
                invariant
                    amount_v_wf(a@),
                    len == a.digits@.len(),
                    base == len - a.frac,
                    base <= i <= len,
                    r@ == mid + digit_chars(a.digits@.subrange(base as int, i as int)),
                decreases len - i,
            {
                push_digit(&mut r, a.digits[i]);
                proof {
                    assert(r@ =~= mid + digit_chars(a.digits@.subrange(base as int, i + 1)));
                }
                i = i + 1;
            }
            proof {
                assert(r@ =~= amount_text(a@));
            }
        } else {
            let pad = a.frac - len;
            let mut k: usize = 0;
            while k < pad
                invariant
                    k <= pad,
                    r@ == mid + digit_chars(zero_digits(k as nat)),
                decreases pad - k,
            {
                push_digit(&mut r, 0);
                proof {
                    assert(r@ =~= mid + digit_chars(zero_digits((k + 1) as nat)));
                }
                k = k + 1;
            }
            let mut i: usize = 0;
            while i < len
                invariant
                    amount_v_wf(a@),
                    len == a.digits@.len(),
                    i <= len,
                    r@ == mid + digit_chars(zero_digits(pad as nat)) + digit_chars(
                        a.digits@.subrange(0, i as int),
                    ),
                decreases len - i,
            {
                push_digit(&mut r, a.digits[i]);
                proof {
                    assert(r@ =~= mid + digit_chars(zero_digits(pad as nat)) + digit_chars(
                        a.digits@.subrange(0, i + 1),
                    ));
                }
                i = i + 1;
            }
            proof {
                assert(digit_chars(zero_digits(pad as nat)) + digit_chars(a.digits@) =~= digit_chars(
                    zero_digits(pad as nat) + a.digits@,
                ));
                assert(a.digits@.subrange(0, len as int) =~= a.digits@);
                assert(r@ =~= amount_text(a@));
            }
        }
    } else {
        proof {
            assert(r@ =~= amount_text(a@));
        }
    }
    r
}

/// An amount printed in canonical form parses back to itself.
#[verifier::rlimit(100)]
pub proof fn lemma_amount_text_parse(a: AmountV)
    requires
        amount_v_wf(a),
    ensures
        is_amount_text(amount_text(a)),
        spec_parse_amount(amount_text(a)) == Some(a),
{
    let t = amount_text(a);
    let sign: Seq<char> = if a.negative {
        seq!['-']
    } else {
        Seq::<char>::empty()
    };
    let len = a.digits.len() as int;
    let intd: Seq<u8> = if len > a.frac {
        a.digits.subrange(0, len - a.frac)
    } else {
        seq![0u8]
    };
    let fracd: Seq<u8> = if len >= a.frac {
        a.digits.subrange(len - a.frac, len)
    } else {
        zero_digits((a.frac - len) as nat) + a.digits
    };
    let u: Seq<char> = digit_chars(intd) + (if a.frac > 0 {
        seq!['.'] + digit_chars(fracd)
    } else {
        Seq::<char>::empty()
    });
    assert(t =~= sign + u);
    assert(forall|i: int| 0 <= i < intd.len() ==> intd[i] <= 9);
    assert(forall|i: int| 0 <= i < fracd.len() ==> fracd[i] <= 9);
    lemma_digits_roundtrip(intd);
    lemma_digits_roundtrip(fracd);
    assert(intd.len() >= 1);
    // the sign prefix
    assert(is_digit(u[0]));
    if a.negative {
        assert(t[0] == '-');
        assert(t.skip(1) =~= u);
    } else {
        assert(t == u);
        assert(t[0] != '+' && t[0] != '-');
    }
    assert(is_amount_text(t) == is_unsigned_amount_text(u));
    let neg = t.len() > 0 && t[0] == '-';
    assert(neg == a.negative);
    if a.frac == 0 {
        assert(u == digit_chars(intd));
        assert(intd =~= a.digits);
        assert(all_digits(u));
        assert(is_unsigned_amount_text(u));
        if has_dot(u) {
            let q = dot_pos(u);
            assert(0 <= q < u.len() && u[q] == '.');
            assert(is_digit(u[q]));
        }
        assert(unsigned_digits(u) =~= a.digits) by {
            lemma_digits_roundtrip(a.digits);
            assert(digit_chars(a.digits) =~= u);
        }
        assert(unsigned_frac(u) == 0);
        let c = canon_amount(neg, unsigned_digits(u), unsigned_frac(u));
        assert(strip_frac(a.digits, 0) == (a.digits, 0nat));
        assert(strip_lead(a.digits) == a.digits);
        if a.digits =~= seq![0u8] {
            assert(c =~= a);
        } else {
            assert(c =~= a);
        }
        assert(spec_parse_amount(t) == Some(a));
    } else {
        let di = intd.len() as int;
        assert(u[di] == '.');
        assert(fracd.len() == a.frac);
        assert(u.len() == di + 1 + a.frac);
        assert forall|j: int| 0 <= j < u.len() && j != di implies #[trigger] is_digit(u[j]) by {
            if j < di {
                assert(u[j] == digit_chars(intd)[j]);
            } else {
                assert(u[j] == digit_chars(fracd)[j - di - 1]);
            }
        }
        assert(u.subrange(0, di) =~= digit_chars(intd));
        assert(u.subrange(di + 1, u.len() as int) =~= digit_chars(fracd));
        assert(is_unsigned_amount_text(u));
        assert(has_dot(u));
        let q = dot_pos(u);
        assert(0 <= q < u.len() && u[q] == '.');
        if q != di {
            assert(is_digit(u[q]));
            assert(!is_digit('.'));
        }
        assert(q == di);
        assert(unsigned_digits(u) =~= intd + fracd) by {
            assert(char_digits(digit_chars(intd) + digit_chars(fracd)) =~= char_digits(
                digit_chars(intd),
            ) + char_digits(digit_chars(fracd)));
            assert(u.subrange(0, di) + u.subrange(di + 1, u.len() as int) =~= digit_chars(intd)
                + digit_chars(fracd));
        }
        assert(unsigned_frac(u) == a.frac);
        let w = intd + fracd;
        assert(w.len() > 0);
        assert(w[w.len() - 1] == a.digits[a.digits.len() - 1]);
        assert(w[w.len() - 1] != 0);
        assert(strip_frac(w, a.frac) == (w, a.frac));
        if len > a.frac {
            assert(w =~= a.digits);
            assert(a.digits.len() > 1);
            assert(a.digits[0] != 0);
            assert(strip_lead(a.digits) == a.digits);
            assert(!(a.digits =~= seq![0u8]));
            let c = canon_amount(neg, unsigned_digits(u), unsigned_frac(u));
            assert(c =~= a);
            assert(spec_parse_amount(t) == Some(a));
        } else {
            assert(a.digits[0] != 0) by {
                if a.digits.len() == 1 && a.digits[0] == 0 {
                    assert(a.digits =~= seq![0u8]);
                }
            }
            assert(w =~= zero_digits((a.frac - len + 1) as nat) + a.digits);
            lemma_strip_lead_zeros((a.frac - len + 1) as nat, a.digits);
            assert(strip_lead(w) == a.digits);
            assert(!(a.digits =~= seq![0u8]));
            let c = canon_amount(neg, unsigned_digits(u), unsigned_frac(u));
            assert(c =~= a);
            assert(spec_parse_amount(t) == Some(a));
        }
    }
}

} // verus!
