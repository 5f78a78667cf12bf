//! The persisted document format: a fixed JSON shape holding the two
//! transaction buckets and the category lists, with an encoder and a strict
//! decoder that are proved inverse to one another.

use vstd::prelude::*;
use crate::amount::{
    Amount, AmountV, all_digits, amount_text, amount_v_wf, char_digits, digit_chars,
    lemma_amount_text_parse, lemma_digits_roundtrip, parse_amount, spec_parse_amount,
};
use crate::data::{
    Transaction, TransactionV, Transactions, TransactionsV, transaction_v_wf, transactions_v_wf,
};
use crate::date::{date_text, is_date_text, lemma_date_text_parse, parse_date, spec_date_of,
    spec_date_text};
use crate::text::{is_digit, digit_val, digit_char, push_char, push_digit};

verus! {

// ---------------------------------------------------------------------------
// The document shape, as sequences of characters.
// ---------------------------------------------------------------------------
/// The opening of the document, up to the expense list.
pub open spec fn lit_doc() -> Seq<char> {
    "{\"transactions\":{\"expenses\":"@
}

/// The separator before the income list.
pub open spec fn lit_income() -> Seq<char> {
    ",\"income\":"@
}

/// The separator before the expense category list.
pub open spec fn lit_ecat() -> Seq<char> {
    ",\"expense_categories\":"@
}

/// The separator before the income category list.
pub open spec fn lit_icat() -> Seq<char> {
    ",\"income_categories\":"@
}

/// The closing braces of the document.
pub open spec fn lit_end() -> Seq<char> {
    "}}"@
}

/// The opening of one transaction, up to its id.
pub open spec fn lit_id() -> Seq<char> {
    "{\"id\":"@
}

/// The separator before a transaction's amount.
pub open spec fn lit_amount() -> Seq<char> {
    ",\"amount\":"@
}

/// The separator before a transaction's category, opening quote included.
pub open spec fn lit_category() -> Seq<char> {
    ",\"category\":\""@
}

/// The separator before a transaction's date, opening quote included.
pub open spec fn lit_date() -> Seq<char> {
    ",\"date\":\""@
}

/// The separator before a transaction's description, opening quote included.
pub open spec fn lit_description() -> Seq<char> {
    ",\"description\":\""@
}

/// The closing brace of one transaction.
pub open spec fn lit_tx_end() -> Seq<char> {
    "}"@
}

// ---------------------------------------------------------------------------
// Encoding, at the specification level.
// ---------------------------------------------------------------------------
/// A character as it stands inside a quoted string: quotes and backslashes
/// get a backslash before them, everything else stands as itself.
pub open spec fn esc_char(c: char) -> Seq<char> {
    if c == '"' || c == '\\' {
        seq!['\\', c]
    } else {
        seq![c]
    }
}

/// A text with every quote and backslash escaped.
pub open spec fn esc(s: Seq<char>) -> Seq<char>
    decreases s.len(),
{
    if s.len() == 0 {
        Seq::<char>::empty()
    } else {
        esc_char(s[0]) + esc(s.drop_first())
    }
}

/// A quoted, escaped string.
pub open spec fn enc_string(s: Seq<char>) -> Seq<char> {
    seq!['"'] + esc(s) + seq!['"']
}

/// The decimal digits of `n`, most significant first.
pub open spec fn nat_digits(n: nat) -> Seq<u8>
    decreases n,
{
    if n < 10 {
        seq![n as u8]
    } else {
        nat_digits(n / 10) + seq![(n % 10) as u8]
    }
}

/// The decimal text of an id.
pub open spec fn u32_text(n: u32) -> Seq<char> {
    digit_chars(nat_digits(n as nat))
}

/// One encoded transaction.
pub open spec fn enc_tx(t: TransactionV) -> Seq<char> {
    lit_id() + u32_text(t.id) + lit_amount() + amount_text(t.amount) + lit_category() + esc(
        t.category,
    ) + seq!['"'] + lit_date() + esc(spec_date_text(t.date)) + seq!['"'] + lit_description() + esc(
        t.description,
    ) + seq!['"'] + lit_tx_end()
}

/// The encoded items after the first of a transaction list, each preceded
/// by a comma.
pub open spec fn enc_tx_tail(ts: Seq<TransactionV>) -> Seq<char>
    decreases ts.len(),
{
    if ts.len() == 0 {
        Seq::<char>::empty()
    } else {
        seq![','] + enc_tx(ts[0]) + enc_tx_tail(ts.drop_first())
    }
}

/// An encoded transaction list.
pub open spec fn enc_tx_list(ts: Seq<TransactionV>) -> Seq<char> {
    if ts.len() == 0 {
        seq!['[', ']']
    } else {
        seq!['['] + enc_tx(ts[0]) + enc_tx_tail(ts.drop_first()) + seq![']']
    }
}

/// The encoded items after the first of a category list.
pub open spec fn enc_str_tail(ss: Seq<Seq<char>>) -> Seq<char>
    decreases ss.len(),
{
    if ss.len() == 0 {
        Seq::<char>::empty()
    } else {
        seq![','] + enc_string(ss[0]) + enc_str_tail(ss.drop_first())
    }
}

/// An encoded category list.
pub open spec fn enc_str_list(ss: Seq<Seq<char>>) -> Seq<char> {
    if ss.len() == 0 {
        seq!['[', ']']
    } else {
        seq!['['] + enc_string(ss[0]) + enc_str_tail(ss.drop_first()) + seq![']']
    }
}

/// The whole encoded document.
pub open spec fn spec_encode(ts: TransactionsV) -> Seq<char> {
    lit_doc() + (enc_tx_list(ts.expenses) + (lit_income() + (enc_tx_list(ts.income) + (lit_ecat()
        + (enc_str_list(ts.expense_categories) + (lit_icat() + (enc_str_list(ts.income_categories)
        + lit_end())))))))
}

// ---------------------------------------------------------------------------
// Decoding, at the specification level.
// ---------------------------------------------------------------------------
/// Consumes the exact literal `lit` from the front of `u`.
pub open spec fn expect(u: Seq<char>, lit: Seq<char>) -> Option<Seq<char>> {
    if u.len() >= lit.len() && u.subrange(0, lit.len() as int) == lit {
        Some(u.skip(lit.len() as int))
    } else {
        None
    }
}

/// Reads a string body up to its closing quote, undoing the escapes.
pub open spec fn parse_str_body(u: Seq<char>) -> Option<(Seq<char>, Seq<char>)>
    decreases u.len(),
{
    if u.len() == 0 {
        None
    } else if u[0] == '"' {
        Some((Seq::<char>::empty(), u.skip(1)))
    } else if u[0] == '\\' {
        if u.len() >= 2 {
            match parse_str_body(u.skip(2)) {
                Some(p) => Some((seq![u[1]] + p.0, p.1)),
                None => None,
            }
        } else {
            None
        }
    } else {
        match parse_str_body(u.skip(1)) {
            Some(p) => Some((seq![u[0]] + p.0, p.1)),
            None => None,
        }
    }
}

/// A character that can stand in a number.
pub open spec fn num_char(c: char) -> bool {
    is_digit(c) || c == '.' || c == '-' || c == '+'
}

/// Splits off the longest run of number characters.
pub open spec fn take_num(u: Seq<char>) -> (Seq<char>, Seq<char>)
    decreases u.len(),
{
    if u.len() > 0 && num_char(u[0]) {
        let p = take_num(u.skip(1));
        (seq![u[0]] + p.0, p.1)
    } else {
        (Seq::<char>::empty(), u)
    }
}

/// The number a run of decimal digits names.
pub open spec fn digits_num(ds: Seq<u8>) -> nat
    decreases ds.len(),
{
    if ds.len() == 0 {
        0
    } else {
        (digits_num(ds.drop_last()) * 10 + ds[ds.len() - 1]) as nat
    }
}

/// Reads an id: a non-empty digit run naming a number that fits in 32 bits.
pub open spec fn parse_u32(u: Seq<char>) -> Option<(u32, Seq<char>)> {
    let (run, rest) = take_num(u);
    if run.len() > 0 && all_digits(run) && digits_num(char_digits(run)) <= 0xffff_ffff {
        Some((digits_num(char_digits(run)) as u32, rest))
    } else {
        None
    }
}

/// Reads one encoded transaction.
pub open spec fn parse_tx(u: Seq<char>) -> Option<(TransactionV, Seq<char>)> {
    match expect(u, lit_id()) {
        None => None,
        Some(u1) => match parse_u32(u1) {
            None => None,
            Some((id, u2)) => match expect(u2, lit_amount()) {
                None => None,
                Some(u3) => {
                    let (run, u4) = take_num(u3);
                    match spec_parse_amount(run) {
                        None => None,
                        Some(av) => match expect(u4, lit_category()) {
                            None => None,
                            Some(u5) => match parse_str_body(u5) {
                                None => None,
                                Some((cat, u6)) => match expect(u6, lit_date()) {
                                    None => None,
                                    Some(u7) => match parse_str_body(u7) {
                                        None => None,
                                        Some((dstr, u8r)) => if !is_date_text(dstr) {
                                            None
                                        } else {
                                            match expect(u8r, lit_description()) {
                                                None => None,
                                                Some(u9) => match parse_str_body(u9) {
                                                    None => None,
                                                    Some((desc, u10)) => match expect(
                                                        u10,
                                                        lit_tx_end(),
                                                    ) {
                                                        None => None,
                                                        Some(u11) => Some(
                                                            (
                                                                TransactionV {
                                                                    id,
                                                                    amount: av,
                                                                    category: cat,
                                                                    date: spec_date_of(dstr),
                                                                    description: desc,
                                                                },
                                                                u11,
                                                            ),
                                                        ),
                                                    },
                                                },
                                            }
                                        },
                                    },
                                },
                            },
                        },
                    }
                },
            },
        },
    }
}

/// Reads the rest of a transaction list: comma-separated items up to the
/// closing bracket.
pub open spec fn parse_tx_more(u: Seq<char>) -> Option<(Seq<TransactionV>, Seq<char>)>
    decreases u.len(),
{
    if u.len() == 0 {
        None
    } else if u[0] == ']' {
        Some((Seq::<TransactionV>::empty(), u.skip(1)))
    } else if u[0] == ',' {
        match parse_tx(u.skip(1)) {
            None => None,
            Some((t, rest)) => if rest.len() < u.len() {
                match parse_tx_more(rest) {
                    None => None,
                    Some((ts, rest2)) => Some((seq![t] + ts, rest2)),
                }
            } else {
                None
            },
        }
    } else {
        None
    }
}

/// Reads a whole transaction list.
pub open spec fn parse_tx_list(u: Seq<char>) -> Option<(Seq<TransactionV>, Seq<char>)> {
    if u.len() >= 2 && u[0] == '[' && u[1] == ']' {
        Some((Seq::<TransactionV>::empty(), u.skip(2)))
    } else if u.len() >= 1 && u[0] == '[' {
        match parse_tx(u.skip(1)) {
            None => None,
            Some((t, rest)) => if rest.len() < u.len() {
                match parse_tx_more(rest) {
                    None => None,
                    Some((ts, rest2)) => Some((seq![t] + ts, rest2)),
                }
            } else {
                None
            },
        }
    } else {
        None
    }
}

/// Reads one quoted string.
pub open spec fn parse_quoted(u: Seq<char>) -> Option<(Seq<char>, Seq<char>)> {
    if u.len() >= 1 && u[0] == '"' {
        parse_str_body(u.skip(1))
    } else {
        None
    }
}

/// Reads the rest of a category list.
pub open spec fn parse_str_more(u: Seq<char>) -> Option<(Seq<Seq<char>>, Seq<char>)>
    decreases u.len(),
{
    if u.len() == 0 {
        None
    } else if u[0] == ']' {
        Some((Seq::<Seq<char>>::empty(), u.skip(1)))
    } else if u[0] == ',' {
        match parse_quoted(u.skip(1)) {
            None => None,
            Some((s, rest)) => if rest.len() < u.len() {
                match parse_str_more(rest) {
                    None => None,
                    Some((ss, rest2)) => Some((seq![s] + ss, rest2)),
                }
            } else {
                None
            },
        }
    } else {
        None
    }
}

/// Reads a whole category list.
pub open spec fn parse_str_list(u: Seq<char>) -> Option<(Seq<Seq<char>>, Seq<char>)> {
    if u.len() >= 2 && u[0] == '[' && u[1] == ']' {
        Some((Seq::<Seq<char>>::empty(), u.skip(2)))
    } else if u.len() >= 1 && u[0] == '[' {
        match parse_quoted(u.skip(1)) {
            None => None,
            Some((s, rest)) => if rest.len() < u.len() {
                match parse_str_more(rest) {
                    None => None,
                    Some((ss, rest2)) => Some((seq![s] + ss, rest2)),
                }
            } else {
                None
            },
        }
    } else {
        None
    }
}

/// Reads a whole document; the text must be consumed exactly.
pub open spec fn spec_decode(u: Seq<char>) -> Option<TransactionsV> {
    match expect(u, lit_doc()) {
        None => None,
        Some(u1) => match parse_tx_list(u1) {
            None => None,
            Some((expenses, u2)) => match expect(u2, lit_income()) {
                None => None,
                Some(u3) => match parse_tx_list(u3) {
                    None => None,
                    Some((income, u4)) => match expect(u4, lit_ecat()) {
                        None => None,
                        Some(u5) => match parse_str_list(u5) {
                            None => None,
                            Some((ecats, u6)) => match expect(u6, lit_icat()) {
                                None => None,
                                Some(u7) => match parse_str_list(u7) {
                                    None => None,
                                    Some((icats, u8r)) => match expect(u8r, lit_end()) {
                                        None => None,
                                        Some(rest) => if rest.len() == 0 {
                                            Some(
                                                TransactionsV {
                                                    expenses,
                                                    income,
                                                    expense_categories: ecats,
                                                    income_categories: icats,
                                                },
                                            )
                                        } else {
                                            None
                                        },
                                    },
                                },
                            },
                        },
                    },
                },
            },
        },
    }
}

// ---------------------------------------------------------------------------
// The encoder and decoder are inverse to one another.
// ---------------------------------------------------------------------------
proof fn lemma_expect_prefix(lit: Seq<char>, rest: Seq<char>)
    ensures
        expect(lit + rest, lit) == Some(rest),
{
    let u = lit + rest;
    assert(u.subrange(0, lit.len() as int) =~= lit);
    assert(u.skip(lit.len() as int) =~= rest);
}

proof fn lemma_parse_str_body_esc(s: Seq<char>, rest: Seq<char>)
    ensures
        parse_str_body(esc(s) + seq!['"'] + rest) == Some((s, rest)),
    decreases s.len(),
{
    let u = esc(s) + seq!['"'] + rest;
    if s.len() == 0 {
        assert(esc(s) =~= Seq::<char>::empty());
        assert(u =~= seq!['"'] + rest);
        assert(u[0] == '"');
        assert(u.skip(1) =~= rest);
    } else {
        let c = s[0];
        let t = s.drop_first();
        lemma_parse_str_body_esc(t, rest);
        if c == '"' || c == '\\' {
            assert(u[0] == '\\');
            assert(u[1] == c);
            assert(u.len() >= 2);
            assert(u.skip(2) =~= esc(t) + seq!['"'] + rest);
            assert(seq![c] + t =~= s);
        } else {
            assert(u[0] == c);
            assert(u.skip(1) =~= esc(t) + seq!['"'] + rest);
            assert(seq![c] + t =~= s);
        }
    }
}

proof fn lemma_take_num_prefix(p: Seq<char>, rest: Seq<char>)
    requires
        forall|i: int| 0 <= i < p.len() ==> num_char(#[trigger] p[i]),
        rest.len() == 0 || !num_char(rest[0]),
    ensures
        take_num(p + rest) == (p, rest),
    decreases p.len(),
{
    if p.len() == 0 {
        assert(p + rest =~= rest);
        assert(take_num(rest).0 =~= p);
    } else {
        assert((p + rest)[0] == p[0]);
        assert((p + rest).skip(1) =~= p.drop_first() + rest);
        lemma_take_num_prefix(p.drop_first(), rest);
        assert(seq![p[0]] + p.drop_first() =~= p);
        assert(take_num(p + rest).0 =~= p);
    }
}

proof fn lemma_nat_digits(n: nat)
    ensures
        nat_digits(n).len() >= 1,
        forall|i: int| 0 <= i < nat_digits(n).len() ==> #[trigger] nat_digits(n)[i] <= 9,
        digits_num(nat_digits(n)) == n,
    decreases n,
{
    if n < 10 {
        assert(nat_digits(n) =~= seq![n as u8]);
        assert(digits_num(Seq::<u8>::empty()) == 0);
        assert(seq![n as u8].drop_last() =~= Seq::<u8>::empty());
        assert(digits_num(nat_digits(n)) == n);
    } else {
        lemma_nat_digits(n / 10);
        let d = nat_digits(n / 10);
        assert((d + seq![(n % 10) as u8]).drop_last() =~= d);
        assert(digits_num(nat_digits(n)) == digits_num(d) * 10 + n % 10);
    }
}

proof fn lemma_parse_u32_text(n: u32, rest: Seq<char>)
    requires
        rest.len() == 0 || !num_char(rest[0]),
    ensures
        parse_u32(u32_text(n) + rest) == Some((n, rest)),
{
    lemma_nat_digits(n as nat);
    let ds = nat_digits(n as nat);
    lemma_digits_roundtrip(ds);
    assert(forall|i: int| 0 <= i < u32_text(n).len() ==> num_char(#[trigger] u32_text(n)[i]));
    lemma_take_num_prefix(u32_text(n), rest);
    assert(all_digits(u32_text(n)));
    assert(char_digits(u32_text(n)) =~= ds);
}

proof fn lemma_amount_text_numchars(a: AmountV)
    requires
        amount_v_wf(a),
    ensures
        forall|i: int| 0 <= i < amount_text(a).len() ==> num_char(#[trigger] amount_text(a)[i]),
{
    let t = amount_text(a);
    let len = a.digits.len() as int;
    let intd: Seq<u8> = if len > a.frac {
        a.digits.subrange(0, len - a.frac)
    } else {
        seq![0u8]
    };
    let fracd: Seq<u8> = if len >= a.frac {
        a.digits.subrange(len - a.frac, len)
    } else {
        crate::amount::zero_digits((a.frac - len) as nat) + a.digits
    };
    assert(forall|i: int| 0 <= i < intd.len() ==> intd[i] <= 9);
    assert(forall|i: int| 0 <= i < fracd.len() ==> fracd[i] <= 9);
    lemma_digits_roundtrip(intd);
    lemma_digits_roundtrip(fracd);
    let sign: Seq<char> = if a.negative {
        seq!['-']
    } else {
        Seq::<char>::empty()
    };
    assert(t =~= sign + digit_chars(intd) + (if a.frac > 0 {
        seq!['.'] + digit_chars(fracd)
    } else {
        Seq::<char>::empty()
    }));
    assert forall|i: int| 0 <= i < t.len() implies num_char(#[trigger] t[i]) by {
        let sl = sign.len() as int;
        let il = digit_chars(intd).len() as int;
        if i < sl {
            assert(t[i] == '-');
        } else if i < sl + il {
            assert(t[i] == digit_chars(intd)[i - sl]);
        } else if i == sl + il {
            assert(a.frac > 0);
            assert(t[i] == '.');
        } else {
            assert(a.frac > 0);
            assert(t[i] == digit_chars(fracd)[i - sl - il - 1]);
        }
    }
}

#[verifier::rlimit(80)]
proof fn lemma_parse_tx_enc(t: TransactionV, rest: Seq<char>)
    requires
        transaction_v_wf(t),
    ensures
        parse_tx(enc_tx(t) + rest) == Some((t, rest)),
{
    reveal_strlit(",\"amount\":");
    reveal_strlit(",\"category\":\"");
    let s10 = lit_tx_end() + rest;
    let s9 = esc(t.description) + seq!['"'] + s10;
    let s8 = lit_description() + s9;
    let s7 = esc(spec_date_text(t.date)) + seq!['"'] + s8;
    let s6 = lit_date() + s7;
    let s5 = esc(t.category) + seq!['"'] + s6;
    let s4 = lit_category() + s5;
    let s3 = amount_text(t.amount) + s4;
    let s2 = lit_amount() + s3;
    let s1 = u32_text(t.id) + s2;
    let u = enc_tx(t) + rest;
    assert(u =~= lit_id() + s1);
    lemma_expect_prefix(lit_id(), s1);
    assert(expect(u, lit_id()) == Some(s1));
    assert(s2[0] == ',');
    assert(!num_char(','));
    lemma_parse_u32_text(t.id, s2);
    assert(parse_u32(s1) == Some((t.id, s2)));
    lemma_expect_prefix(lit_amount(), s3);
    assert(expect(s2, lit_amount()) == Some(s3));
    assert(s4[0] == ',');
    lemma_amount_text_numchars(t.amount);
    lemma_take_num_prefix(amount_text(t.amount), s4);
    assert(take_num(s3) == (amount_text(t.amount), s4));
    lemma_amount_text_parse(t.amount);
    assert(spec_parse_amount(amount_text(t.amount)) == Some(t.amount));
    lemma_expect_prefix(lit_category(), s5);
    assert(expect(s4, lit_category()) == Some(s5));
    lemma_parse_str_body_esc(t.category, s6);
    assert(parse_str_body(s5) == Some((t.category, s6)));
    lemma_expect_prefix(lit_date(), s7);
    assert(expect(s6, lit_date()) == Some(s7));
    lemma_parse_str_body_esc(spec_date_text(t.date), s8);
    assert(parse_str_body(s7) == Some((spec_date_text(t.date), s8)));
    lemma_date_text_parse(t.date);
    assert(is_date_text(spec_date_text(t.date)));
    assert(spec_date_of(spec_date_text(t.date)) == t.date);
    lemma_expect_prefix(lit_description(), s9);
    assert(expect(s8, lit_description()) == Some(s9));
    lemma_parse_str_body_esc(t.description, s10);
    assert(parse_str_body(s9) == Some((t.description, s10)));
    lemma_expect_prefix(lit_tx_end(), rest);
    assert(expect(s10, lit_tx_end()) == Some(rest));
    assert(parse_tx(u)->Some_0.0 =~= t);
}

#[verifier::rlimit(80)]
proof fn lemma_parse_tx_more_enc(ts: Seq<TransactionV>, rest: Seq<char>)
    requires
        forall|i: int| 0 <= i < ts.len() ==> transaction_v_wf(#[trigger] ts[i]),
    ensures
        parse_tx_more(enc_tx_tail(ts) + seq![']'] + rest) == Some((ts, rest)),
    decreases ts.len(),
{
    let u = enc_tx_tail(ts) + seq![']'] + rest;
    if ts.len() == 0 {
        assert(enc_tx_tail(ts) =~= Seq::<char>::empty());
        assert(u =~= seq![']'] + rest);
        assert(u[0] == ']');
        assert(u.skip(1) =~= rest);
        assert(parse_tx_more(u)->Some_0.0 =~= ts);
    } else {
        let dt = ts.drop_first();
        let inner = enc_tx_tail(dt) + seq![']'] + rest;
        assert(u[0] == ',');
        assert(u.skip(1) =~= enc_tx(ts[0]) + inner);
        lemma_parse_tx_enc(ts[0], inner);
        assert(parse_tx(u.skip(1)) == Some((ts[0], inner)));
        assert(inner.len() < u.len());
        lemma_parse_tx_more_enc(dt, rest);
        assert(parse_tx_more(inner) == Some((dt, rest)));
        assert(seq![ts[0]] + dt =~= ts);
    }
}

#[verifier::rlimit(80)]
proof fn lemma_parse_tx_list_enc(ts: Seq<TransactionV>, rest: Seq<char>)
    requires
        forall|i: int| 0 <= i < ts.len() ==> transaction_v_wf(#[trigger] ts[i]),
    ensures
        parse_tx_list(enc_tx_list(ts) + rest) == Some((ts, rest)),
{
    let u = enc_tx_list(ts) + rest;
    if ts.len() == 0 {
        assert(u =~= seq!['[', ']'] + rest);
        assert(u[0] == '[' && u[1] == ']');
        assert(u.skip(2) =~= rest);
        assert(parse_tx_list(u)->Some_0.0 =~= ts);
    } else {
        reveal_strlit("{\"id\":");
        let dt = ts.drop_first();
        let inner = enc_tx_tail(dt) + seq![']'] + rest;
        assert(u[0] == '[');
        assert(u[1] == lit_id()[0]);
        assert(u[1] == '{');
        assert(u.skip(1) =~= enc_tx(ts[0]) + inner);
        lemma_parse_tx_enc(ts[0], inner);
        assert(parse_tx(u.skip(1)) == Some((ts[0], inner)));
        assert(inner.len() < u.len());
        lemma_parse_tx_more_enc(dt, rest);
        assert(seq![ts[0]] + dt =~= ts);
    }
}

proof fn lemma_parse_quoted_enc(s: Seq<char>, rest: Seq<char>)
    ensures
        parse_quoted(enc_string(s) + rest) == Some((s, rest)),
{
    let u = enc_string(s) + rest;
    assert(u[0] == '"');
    assert(u.skip(1) =~= esc(s) + seq!['"'] + rest);
    lemma_parse_str_body_esc(s, rest);
}

proof fn lemma_parse_str_more_enc(ss: Seq<Seq<char>>, rest: Seq<char>)
    ensures
        parse_str_more(enc_str_tail(ss) + seq![']'] + rest) == Some((ss, rest)),
    decreases ss.len(),
{
    let u = enc_str_tail(ss) + seq![']'] + rest;
    if ss.len() == 0 {
        assert(enc_str_tail(ss) =~= Seq::<char>::empty());
        assert(u =~= seq![']'] + rest);
        assert(u[0] == ']');
        assert(u.skip(1) =~= rest);
        assert(parse_str_more(u)->Some_0.0 =~= ss);
    } else {
        let dt = ss.drop_first();
        let inner = enc_str_tail(dt) + seq![']'] + rest;
        assert(u[0] == ',');
        assert(u.skip(1) =~= enc_string(ss[0]) + inner);
        lemma_parse_quoted_enc(ss[0], inner);
        assert(parse_quoted(u.skip(1)) == Some((ss[0], inner)));
        assert(inner.len() < u.len());
        lemma_parse_str_more_enc(dt, rest);
        assert(seq![ss[0]] + dt =~= ss);
    }
}

proof fn lemma_parse_str_list_enc(ss: Seq<Seq<char>>, rest: Seq<char>)
    ensures
        parse_str_list(enc_str_list(ss) + rest) == Some((ss, rest)),
{
    let u = enc_str_list(ss) + rest;
    if ss.len() == 0 {
        assert(u =~= seq!['[', ']'] + rest);
        assert(u[0] == '[' && u[1] == ']');
        assert(u.skip(2) =~= rest);
        assert(parse_str_list(u)->Some_0.0 =~= ss);
    } else {
        let dt = ss.drop_first();
        let inner = enc_str_tail(dt) + seq![']'] + rest;
        assert(u[0] == '[');
        assert(u[1] == '"');
        assert(u.skip(1) =~= enc_string(ss[0]) + inner);
        lemma_parse_quoted_enc(ss[0], inner);
        assert(parse_quoted(u.skip(1)) == Some((ss[0], inner)));
        assert(inner.len() < u.len());
        lemma_parse_str_more_enc(dt, rest);
        assert(seq![ss[0]] + dt =~= ss);
    }
}

/// Decoding an encoded transaction set yields the same set: the same ids,
/// amounts, dates, categories and descriptions, in the same order.
#[verifier::rlimit(100)]
pub proof fn lemma_codec_roundtrip(ts: TransactionsV)
    requires
        transactions_v_wf(ts),
    ensures
        spec_decode(spec_encode(ts)) == Some(ts),
{
    let empty_rest = Seq::<char>::empty();
    let r8 = lit_end();
    let r7 = enc_str_list(ts.income_categories) + r8;
    let r6 = lit_icat() + r7;
    let r5 = enc_str_list(ts.expense_categories) + r6;
    let r4 = lit_ecat() + r5;
    let r3 = enc_tx_list(ts.income) + r4;
    let r2 = lit_income() + r3;
    let r1 = enc_tx_list(ts.expenses) + r2;
    let u = spec_encode(ts);
    assert(u == lit_doc() + r1);
    lemma_expect_prefix(lit_doc(), r1);
    assert(expect(u, lit_doc()) == Some(r1));
    lemma_parse_tx_list_enc(ts.expenses, r2);
    assert(parse_tx_list(r1) == Some((ts.expenses, r2)));
    lemma_expect_prefix(lit_income(), r3);
    assert(expect(r2, lit_income()) == Some(r3));
    lemma_parse_tx_list_enc(ts.income, r4);
    assert(parse_tx_list(r3) == Some((ts.income, r4)));
    lemma_expect_prefix(lit_ecat(), r5);
    assert(expect(r4, lit_ecat()) == Some(r5));
    lemma_parse_str_list_enc(ts.expense_categories, r6);
    assert(parse_str_list(r5) == Some((ts.expense_categories, r6)));
    lemma_expect_prefix(lit_icat(), r7);
    assert(expect(r6, lit_icat()) == Some(r7));
    lemma_parse_str_list_enc(ts.income_categories, r8);
    assert(parse_str_list(r7) == Some((ts.income_categories, r8)));
    lemma_expect_prefix(lit_end(), empty_rest);
    assert(lit_end() + empty_rest =~= lit_end());
    assert(expect(r8, lit_end()) == Some(empty_rest));
    assert(spec_decode(u)->Some_0 =~= ts);
}

// ---------------------------------------------------------------------------
// The executable encoder.
// ---------------------------------------------------------------------------
proof fn lemma_esc_concat(s1: Seq<char>, s2: Seq<char>)
    ensures
        esc(s1 + s2) == esc(s1) + esc(s2),
    decreases s1.len(),
{
    if s1.len() == 0 {
        assert(s1 + s2 =~= s2);
        assert(esc(s1) + esc(s2) =~= esc(s2));
    } else {
        assert((s1 + s2)[0] == s1[0]);
        assert((s1 + s2).drop_first() =~= s1.drop_first() + s2);
        lemma_esc_concat(s1.drop_first(), s2);
        assert(esc_char(s1[0]) + (esc(s1.drop_first()) + esc(s2)) =~= (esc_char(s1[0]) + esc(
            s1.drop_first(),
        )) + esc(s2));
    }
}

proof fn lemma_enc_tx_tail_snoc(q: Seq<TransactionV>, t: TransactionV)
    ensures
        enc_tx_tail(q.push(t)) == enc_tx_tail(q) + (seq![','] + enc_tx(t)),
    decreases q.len(),
{
    let w = q.push(t);
    assert(w.len() == q.len() + 1);
    assert(enc_tx_tail(w) == seq![','] + enc_tx(w[0]) + enc_tx_tail(w.drop_first()));
    if q.len() == 0 {
        assert(w[0] == t);
        assert(w.drop_first() =~= Seq::<TransactionV>::empty());
        assert(enc_tx_tail(Seq::<TransactionV>::empty()) == Seq::<char>::empty());
        assert(enc_tx_tail(q) == Seq::<char>::empty());
        assert(enc_tx_tail(w) =~= enc_tx_tail(q) + (seq![','] + enc_tx(t)));
    } else {
        assert(w[0] == q[0]);
        assert(w.drop_first() =~= q.drop_first().push(t));
        lemma_enc_tx_tail_snoc(q.drop_first(), t);
        assert(enc_tx_tail(q) == seq![','] + enc_tx(q[0]) + enc_tx_tail(q.drop_first()));
        assert(enc_tx_tail(w) =~= enc_tx_tail(q) + (seq![','] + enc_tx(t)));
    }
}

proof fn lemma_enc_str_tail_snoc(q: Seq<Seq<char>>, s: Seq<char>)
    ensures
        enc_str_tail(q.push(s)) == enc_str_tail(q) + (seq![','] + enc_string(s)),
    decreases q.len(),
{
    let w = q.push(s);
    assert(w.len() == q.len() + 1);
    assert(enc_str_tail(w) == seq![','] + enc_string(w[0]) + enc_str_tail(w.drop_first()));
    if q.len() == 0 {
        assert(w[0] == s);
        assert(w.drop_first() =~= Seq::<Seq<char>>::empty());
        assert(enc_str_tail(Seq::<Seq<char>>::empty()) == Seq::<char>::empty());
        assert(enc_str_tail(q) == Seq::<char>::empty());
        assert(enc_str_tail(w) =~= enc_str_tail(q) + (seq![','] + enc_string(s)));
    } else {
        assert(w[0] == q[0]);
        assert(w.drop_first() =~= q.drop_first().push(s));
        lemma_enc_str_tail_snoc(q.drop_first(), s);
        assert(enc_str_tail(q) == seq![','] + enc_string(q[0]) + enc_str_tail(q.drop_first()));
        assert(enc_str_tail(w) =~= enc_str_tail(q) + (seq![','] + enc_string(s)));
    }
}

/// Appends one character in its escaped form.
fn push_escaped(r: &mut String, c: char)
    ensures
        final(r)@ == old(r)@ + esc_char(c),
{
    if c == '"' || c == '\\' {
        push_char(r, '\\');
        push_char(r, c);
        proof {
            assert(old(r)@.push('\\').push(c) =~= old(r)@ + esc_char(c));
        }
    } else {
        push_char(r, c);
        proof {
            assert(old(r)@.push(c) =~= old(r)@ + esc_char(c));
        }
    }
}

/// Appends the escaped form of a whole text.
fn push_esc_str(r: &mut String, s: &str)
    ensures
        final(r)@ == old(r)@ + esc(s@),
{
    let n = s.unicode_len();
    let mut i: usize = 0;
    while i < n
        invariant
            n == s@.len(),
            i <= n,
            r@ == old(r)@ + esc(s@.subrange(0, i as int)),
        decreases n - i,
    {
        let c = s.get_char(i);
        push_escaped(r, c);
        proof {
            lemma_esc_concat(s@.subrange(0, i as int), seq![c]);
            assert(s@.subrange(0, i + 1) =~= s@.subrange(0, i as int) + seq![c]);
            assert(seq![c].drop_first() =~= Seq::<char>::empty());
            assert(esc(Seq::<char>::empty()) == Seq::<char>::empty());
            assert(esc(seq![c]) =~= esc_char(c));
            assert(r@ =~= old(r)@ + esc(s@.subrange(0, i + 1)));
        }
        i = i + 1;
    }
    proof {
        assert(s@.subrange(0, n as int) =~= s@);
    }
}

/// Appends a quoted, escaped string.
fn push_quoted(r: &mut String, s: &str)
    ensures
        final(r)@ == old(r)@ + enc_string(s@),
{
    push_char(r, '"');
    push_esc_str(r, s);
    push_char(r, '"');
    proof {
        assert(r@ =~= old(r)@ + enc_string(s@));
    }
}

/// Appends the decimal text of an id.
fn push_u32(r: &mut String, n: u32)
    ensures
        final(r)@ == old(r)@ + u32_text(n),
    decreases n,
{
    if n >= 10 {
        push_u32(r, n / 10);
        push_digit(r, (n % 10) as u8);
        proof {
            assert(nat_digits(n as nat) == nat_digits(n as nat / 10) + seq![(n as nat % 10) as u8]);
            assert(n as nat / 10 == (n / 10) as nat);
            assert(u32_text(n) =~= u32_text(n / 10) + seq![digit_char((n % 10) as int)]);
            assert(r@ =~= old(r)@ + u32_text(n));
        }
    } else {
        push_digit(r, n as u8);
        proof {
            assert(u32_text(n) =~= seq![digit_char(n as int)]);
        }
    }
}

/// Appends one encoded transaction.
#[verifier::rlimit(50)]
fn push_tx(r: &mut String, t: &Transaction)
    requires
        transaction_v_wf(t@),
    ensures
        final(r)@ == old(r)@ + enc_tx(t@),
{
    r.append("{\"id\":");
    push_u32(r, t.id);
    r.append(",\"amount\":");
    let at = crate::amount::amount_to_text(&t.amount);
    r.append(at.as_str());
    r.append(",\"category\":\"");
    push_esc_str(r, t.category.as_str());
    push_char(r, '"');
    r.append(",\"date\":\"");
    let dt = date_text(&t.date);
    push_esc_str(r, dt.as_str());
    push_char(r, '"');
    r.append(",\"description\":\"");
    push_esc_str(r, t.description.as_str());
    push_char(r, '"');
    r.append("}");
    proof {
        assert(r@ =~= old(r)@ + enc_tx(t@));
    }
}

/// Appends an encoded transaction list.
fn push_tx_list(r: &mut String, v: &Vec<Transaction>)
    requires
        forall|i: int| 0 <= i < v@.len() ==> transaction_v_wf(#[trigger] v@[i]@),
    ensures
        final(r)@ == old(r)@ + enc_tx_list(v@.map_values(|t: Transaction| t@)),
{
    let ghost tsv = v@.map_values(|t: Transaction| t@);
    push_char(r, '[');
    if v.len() == 0 {
        push_char(r, ']');
        proof {
            assert(enc_tx_list(tsv) =~= seq!['[', ']']);
            assert(r@ =~= old(r)@ + enc_tx_list(tsv));
        }
        return ;
    }
    push_tx(r, &v[0]);
    let ghost base = old(r)@ + seq!['['] + enc_tx(tsv[0]);
    proof {
        assert(r@ =~= base + enc_tx_tail(tsv.subrange(1, 1)));
    }
    let mut k: usize = 1;
    while k < v.len()
        invariant
            1 <= k <= v@.len(),
            tsv == v@.map_values(|t: Transaction| t@),
            forall|i: int| 0 <= i < v@.len() ==> transaction_v_wf(#[trigger] v@[i]@),
            base == old(r)@ + seq!['['] + enc_tx(tsv[0]),
            r@ == base + enc_tx_tail(tsv.subrange(1, k as int)),
        decreases v@.len() - k,
    {
        push_char(r, ',');
        push_tx(r, &v[k]);
        proof {
            lemma_enc_tx_tail_snoc(tsv.subrange(1, k as int), tsv[k as int]);
            assert(tsv.subrange(1, k + 1) =~= tsv.subrange(1, k as int).push(tsv[k as int]));
            assert(r@ =~= base + enc_tx_tail(tsv.subrange(1, k + 1)));
        }
        k = k + 1;
    }
    push_char(r, ']');
    proof {
        assert(tsv.subrange(1, tsv.len() as int) =~= tsv.drop_first());
        assert(r@ =~= old(r)@ + enc_tx_list(tsv));
    }
}

/// Appends an encoded category list.
fn push_str_list(r: &mut String, v: &Vec<String>)
    ensures
        final(r)@ == old(r)@ + enc_str_list(v@.map_values(|s: String| s@)),
{
    let ghost ssv = v@.map_values(|s: String| s@);
    push_char(r, '[');
    if v.len() == 0 {
        push_char(r, ']');
        proof {
            assert(enc_str_list(ssv) =~= seq!['[', ']']);
            assert(r@ =~= old(r)@ + enc_str_list(ssv));
        }
        return ;
    }
    push_quoted(r, v[0].as_str());
    let ghost base = old(r)@ + seq!['['] + enc_string(ssv[0]);
    proof {
        assert(r@ =~= base + enc_str_tail(ssv.subrange(1, 1)));
    }
    let mut k: usize = 1;
    while k < v.len()
        invariant
            1 <= k <= v@.len(),
            ssv == v@.map_values(|s: String| s@),
            base == old(r)@ + seq!['['] + enc_string(ssv[0]),
            r@ == base + enc_str_tail(ssv.subrange(1, k as int)),
        decreases v@.len() - k,
    {
        push_char(r, ',');
        push_quoted(r, v[k].as_str());
        proof {
            lemma_enc_str_tail_snoc(ssv.subrange(1, k as int), ssv[k as int]);
            assert(ssv.subrange(1, k + 1) =~= ssv.subrange(1, k as int).push(ssv[k as int]));
            assert(r@ =~= base + enc_str_tail(ssv.subrange(1, k + 1)));
        }
        k = k + 1;
    }
    push_char(r, ']');
    proof {
        assert(ssv.subrange(1, ssv.len() as int) =~= ssv.drop_first());
        assert(r@ =~= old(r)@ + enc_str_list(ssv));
    }
}

proof fn lemma_seq_assoc<A>(a: Seq<A>, b: Seq<A>, c: Seq<A>)
    ensures
        (a + b) + c == a + (b + c),
{
    assert((a + b) + c =~= a + (b + c));
}

/// Encodes a whole transaction set as the persisted document text.
pub fn encode_transactions(ts: &Transactions) -> (r: String)
    requires
        transactions_v_wf(ts@),
    ensures
        r@ == spec_encode(ts@),
{
    proof {
        assert forall|i: int| 0 <= i < ts.expenses@.len() implies transaction_v_wf(
            #[trigger] ts.expenses@[i]@,
        ) by {
            assert(ts@.expenses[i] == ts.expenses@[i]@);
        }
        assert forall|i: int| 0 <= i < ts.income@.len() implies transaction_v_wf(
            #[trigger] ts.income@[i]@,
        ) by {
            assert(ts@.income[i] == ts.income@[i]@);
        }
    }
    let mut r = String::new();
    r.append("{\"transactions\":{\"expenses\":");
    push_tx_list(&mut r, &ts.expenses);
    r.append(",\"income\":");
    push_tx_list(&mut r, &ts.income);
    r.append(",\"expense_categories\":");
    push_str_list(&mut r, &ts.expense_categories);
    r.append(",\"income_categories\":");
    push_str_list(&mut r, &ts.income_categories);
    r.append("}}");
    proof {
        let p0 = lit_doc();
        let p1 = enc_tx_list(ts@.expenses);
        let p2 = lit_income();
        let p3 = enc_tx_list(ts@.income);
        let p4 = lit_ecat();
        let p5 = enc_str_list(ts@.expense_categories);
        let p6 = lit_icat();
        let p7 = enc_str_list(ts@.income_categories);
        let p8 = lit_end();
        assert(r@ == p0 + p1 + p2 + p3 + p4 + p5 + p6 + p7 + p8);
        lemma_seq_assoc(p0 + p1 + p2 + p3 + p4 + p5 + p6, p7, p8);
        lemma_seq_assoc(p0 + p1 + p2 + p3 + p4 + p5, p6, p7 + p8);
        lemma_seq_assoc(p0 + p1 + p2 + p3 + p4, p5, p6 + (p7 + p8));
        lemma_seq_assoc(p0 + p1 + p2 + p3, p4, p5 + (p6 + (p7 + p8)));
        lemma_seq_assoc(p0 + p1 + p2, p3, p4 + (p5 + (p6 + (p7 + p8))));
        lemma_seq_assoc(p0 + p1, p2, p3 + (p4 + (p5 + (p6 + (p7 + p8)))));
        lemma_seq_assoc(p0, p1, p2 + (p3 + (p4 + (p5 + (p6 + (p7 + p8))))));
        assert(r@ == spec_encode(ts@));
    }
    r
}

// ---------------------------------------------------------------------------
// The executable decoder.
// ---------------------------------------------------------------------------
/// Whether `c` can stand in a number.
fn num_char_check(c: char) -> (b: bool)
    ensures
        b == num_char(c),
{
    let u = c as u32;
    (48 <= u && u <= 57) || c == '.' || c == '-' || c == '+'
}

/// Consumes the literal `lit` at position `i`.
fn expect_lit(s: &str, i: usize, lit: &str) -> (r: Option<usize>)
    requires
        i <= s@.len(),
    ensures
        match r {
            Some(j) => i <= j <= s@.len() && expect(s@.skip(i as int), lit@) == Some(
                s@.skip(j as int),
            ),
            None => expect(s@.skip(i as int), lit@) is None,
        },
{
    let n = s.unicode_len();
    let m = lit.unicode_len();
    if n - i < m {
        return None;
    }
    let mut k: usize = 0;
    while k < m
        invariant
            n == s@.len(),
            m == lit@.len(),
            i + m <= n,
            k <= m,
            forall|t: int| 0 <= t < k ==> s@[i + t] == lit@[t],
        decreases m - k,
    {
        if s.get_char(i + k) != lit.get_char(k) {
            proof {
                assert(s@.skip(i as int)[k as int] == s@[i + k]);
                if s@.skip(i as int).subrange(0, m as int) == lit@ {
                    assert(s@.skip(i as int).subrange(0, m as int)[k as int] == lit@[k as int]);
                }
            }
            return None;
        }
        k = k + 1;
    }
    proof {
        assert(s@.skip(i as int).subrange(0, m as int) =~= lit@);
        assert(s@.skip(i as int).skip(m as int) =~= s@.skip(i + m));
    }
    Some(i + m)
}

/// Reads a string body starting at `i`, up to its closing quote.
fn parse_string_at(s: &str, i: usize) -> (r: Option<(String, usize)>)
    requires
        i <= s@.len(),
    ensures
        match r {
            Some(p) => i <= p.1 <= s@.len() && parse_str_body(s@.skip(i as int)) == Some(
                (p.0@, s@.skip(p.1 as int)),
            ),
            None => parse_str_body(s@.skip(i as int)) is None,
        },
{
    let n = s.unicode_len();
    let mut acc = String::new();
    let mut k: usize = i;
    loop
        invariant
            i <= k <= n,
            n == s@.len(),
            parse_str_body(s@.skip(i as int)) == (match parse_str_body(s@.skip(k as int)) {
                Some(p) => Some((acc@ + p.0, p.1)),
                None => None,
            }),
        decreases n - k,
    {
        if k >= n {
            return None;
        }
        let c = s.get_char(k);
        if c == '"' {
            proof {
                assert(s@.skip(k as int)[0] == '"');
                assert(s@.skip(k as int).skip(1) =~= s@.skip(k + 1));
                assert(acc@ + Seq::<char>::empty() =~= acc@);
            }
            return Some((acc, k + 1));
        } else if c == '\\' {
            if k + 1 >= n {
                proof {
                    assert(s@.skip(k as int)[0] == '\\');
                    assert(s@.skip(k as int).len() < 2);
                }
                return None;
            }
            let c2 = s.get_char(k + 1);
            let ghost acc0 = acc@;
            push_char(&mut acc, c2);
            proof {
                assert(s@.skip(k as int)[0] == '\\');
                assert(s@.skip(k as int)[1] == c2);
                assert(s@.skip(k as int).skip(2) =~= s@.skip(k + 2));
                if parse_str_body(s@.skip(k + 2)) is Some {
                    let q = parse_str_body(s@.skip(k + 2))->Some_0;
                    assert(acc0 + (seq![c2] + q.0) =~= acc@ + q.0);
                }
            }
            k = k + 2;
        } else {
            let ghost acc0 = acc@;
            push_char(&mut acc, c);
            proof {
                assert(s@.skip(k as int)[0] == c);
                assert(s@.skip(k as int).skip(1) =~= s@.skip(k + 1));
                if parse_str_body(s@.skip(k + 1)) is Some {
                    let q = parse_str_body(s@.skip(k + 1))->Some_0;
                    assert(acc0 + (seq![c] + q.0) =~= acc@ + q.0);
                }
            }
            k = k + 1;
        }
    }
}

/// Finds the end of the number run starting at `i`.
fn take_num_at(s: &str, i: usize) -> (j: usize)
    requires
        i <= s@.len(),
    ensures
        i <= j <= s@.len(),
        take_num(s@.skip(i as int)) == (s@.subrange(i as int, j as int), s@.skip(j as int)),
{
    let n = s.unicode_len();
    let mut j: usize = i;
    proof {
        assert(s@.subrange(i as int, i as int) + take_num(s@.skip(i as int)).0 =~= take_num(
            s@.skip(i as int),
        ).0);
    }
    while j < n && num_char_check(s.get_char(j))
        invariant
            i <= j <= n,
            n == s@.len(),
            take_num(s@.skip(i as int)).0 == s@.subrange(i as int, j as int) + take_num(
                s@.skip(j as int),
            ).0,
            take_num(s@.skip(i as int)).1 == take_num(s@.skip(j as int)).1,
        decreases n - j,
    {
        proof {
            assert(s@.skip(j as int)[0] == s@[j as int]);
            assert(s@.skip(j as int).skip(1) =~= s@.skip(j + 1));
            assert(s@.subrange(i as int, j as int) + (seq![s@[j as int]] + take_num(
                s@.skip(j + 1),
            ).0) =~= s@.subrange(i as int, j + 1) + take_num(s@.skip(j + 1)).0);
        }
        j = j + 1;
    }
    proof {
        if j < n {
            assert(s@.skip(j as int)[0] == s@[j as int]);
            assert(!num_char(s@.skip(j as int)[0]));
        } else {
            assert(s@.skip(j as int).len() == 0);
        }
        assert(take_num(s@.skip(j as int)).0 =~= Seq::<char>::empty());
        assert(take_num(s@.skip(j as int)).1 == s@.skip(j as int));
        assert(s@.subrange(i as int, j as int) + Seq::<char>::empty() =~= s@.subrange(
            i as int,
            j as int,
        ));
    }
    j
}

proof fn lemma_digits_num_snoc(ds: Seq<u8>, d: u8)
    ensures
        digits_num(ds.push(d)) == digits_num(ds) * 10 + d,
{
    assert(ds.push(d).drop_last() =~= ds);
    assert(ds.push(d)[ds.len() as int] == d);
}

/// Reads an id at position `i`: a digit run naming a 32-bit number.
fn parse_u32_at(s: &str, i: usize) -> (r: Option<(u32, usize)>)
    requires
        i <= s@.len(),
    ensures
        match r {
            Some(p) => i <= p.1 <= s@.len() && parse_u32(s@.skip(i as int)) == Some(
                (p.0, s@.skip(p.1 as int)),
            ),
            None => parse_u32(s@.skip(i as int)) is None,
        },
{
    let j = take_num_at(s, i);
    let ghost run = s@.subrange(i as int, j as int);
    if j == i {
        proof {
            assert(run.len() == 0);
        }
        return None;
    }
    let mut acc: u64 = 0;
    let mut over = false;
    let mut k: usize = i;
    while k < j
        invariant
            i <= k <= j <= s@.len(),
            run == s@.subrange(i as int, j as int),
            run.len() > 0,
            take_num(s@.skip(i as int)) == (run, s@.skip(j as int)),
            all_digits(s@.subrange(i as int, k as int)),
            over == (digits_num(char_digits(s@.subrange(i as int, k as int))) > 0xffff_ffff),
            !over ==> acc as nat == digits_num(char_digits(s@.subrange(i as int, k as int))),
            acc <= 0xffff_ffff,
        decreases j - k,
    {
        let c = s.get_char(k);
        let u = c as u32;
        if !(48 <= u && u <= 57) {
            proof {
                assert(take_num(s@.skip(i as int)).0 == run);
                assert(run[k - i] == c);
                assert(u as int == c as int);
                assert(!is_digit(c));
                if all_digits(run) {
                    assert(is_digit(run[k - i]));
                    assert(false);
                }
                assert(parse_u32(s@.skip(i as int)) is None);
            }
            return None;
        }
        proof {
            assert(s@.subrange(i as int, k + 1) =~= s@.subrange(i as int, k as int).push(c));
            assert(char_digits(s@.subrange(i as int, k + 1)) =~= char_digits(
                s@.subrange(i as int, k as int),
            ).push((digit_val(c)) as u8));
            lemma_digits_num_snoc(
                char_digits(s@.subrange(i as int, k as int)),
                (digit_val(c)) as u8,
            );
        }
        if !over {
            acc = acc * 10 + ((u - 48) as u64);
            if acc > 0xffff_ffff {
                over = true;
                acc = 0;
            }
        }
        k = k + 1;
    }
    if over {
        return None;
    }
    proof {
        assert(all_digits(run));
        assert(digits_num(char_digits(run)) <= 0xffff_ffff);
    }
    Some(((acc as u32), j))
}

/// Reads an amount at position `i`: the number run, parsed as a decimal.
fn parse_amount_at(s: &str, i: usize) -> (r: Option<(Amount, usize)>)
    requires
        i <= s@.len(),
    ensures
        match r {
            Some(p) => i <= p.1 <= s@.len() && amount_v_wf(p.0@) && spec_parse_amount(
                take_num(s@.skip(i as int)).0,
            ) == Some(p.0@) && take_num(s@.skip(i as int)).1 == s@.skip(p.1 as int),
            None => spec_parse_amount(take_num(s@.skip(i as int)).0) is None,
        },
{
    let j = take_num_at(s, i);
    let run = s.substring_char(i, j);
    match parse_amount(run) {
        Option::Some(a) => Option::Some((a, j)),
        Option::None => Option::None,
    }
}

/// Reads one encoded transaction at position `i`.
fn parse_tx_at(s: &str, i: usize) -> (r: Option<(Transaction, usize)>)
    requires
        i <= s@.len(),
    ensures
        match r {
            Some(p) => i <= p.1 <= s@.len() && transaction_v_wf(p.0@) && parse_tx(
                s@.skip(i as int),
            ) == Some((p.0@, s@.skip(p.1 as int))),
            None => parse_tx(s@.skip(i as int)) is None,
        },
{
    let i1 = match expect_lit(s, i, "{\"id\":") {
        Option::Some(j) => j,
        Option::None => {
            return Option::None;
        },
    };
    let (id, i2) = match parse_u32_at(s, i1) {
        Option::Some(p) => p,
        Option::None => {
            return Option::None;
        },
    };
    let i3 = match expect_lit(s, i2, ",\"amount\":") {
        Option::Some(j) => j,
        Option::None => {
            return Option::None;
        },
    };
    let (amount, i4) = match parse_amount_at(s, i3) {
        Option::Some(p) => p,
        Option::None => {
            return Option::None;
        },
    };
    let i5 = match expect_lit(s, i4, ",\"category\":\"") {
        Option::Some(j) => j,
        Option::None => {
            return Option::None;
        },
    };
    let (category, i6) = match parse_string_at(s, i5) {
        Option::Some(p) => p,
        Option::None => {
            return Option::None;
        },
    };
    let i7 = match expect_lit(s, i6, ",\"date\":\"") {
        Option::Some(j) => j,
        Option::None => {
            return Option::None;
        },
    };
    let (dstr, i8) = match parse_string_at(s, i7) {
        Option::Some(p) => p,
        Option::None => {
            return Option::None;
        },
    };
    let date = match parse_date(dstr.as_str()) {
        Option::Some(d) => d,
        Option::None => {
            return Option::None;
        },
    };
    let i9 = match expect_lit(s, i8, ",\"description\":\"") {
        Option::Some(j) => j,
        Option::None => {
            return Option::None;
        },
    };
    let (description, i10) = match parse_string_at(s, i9) {
        Option::Some(p) => p,
        Option::None => {
            return Option::None;
        },
    };
    let i11 = match expect_lit(s, i10, "}") {
        Option::Some(j) => j,
        Option::None => {
            return Option::None;
        },
    };
    let t = Transaction { id, amount, category, date, description };
    proof {
        assert(parse_tx(s@.skip(i as int))->Some_0.0 =~= t@);
    }
    Option::Some((t, i11))
}

/// Reads a whole transaction list at position `i`.
fn parse_tx_list_at(s: &str, i: usize) -> (r: Option<(Vec<Transaction>, usize)>)
    requires
        i <= s@.len(),
    ensures
        match r {
            Some(p) => i <= p.1 <= s@.len() && parse_tx_list(s@.skip(i as int)) == Some(
                (p.0@.map_values(|t: Transaction| t@), s@.skip(p.1 as int)),
            ) && forall|k: int| 0 <= k < p.0@.len() ==> transaction_v_wf(#[trigger] p.0@[k]@),
            None => parse_tx_list(s@.skip(i as int)) is None,
        },
{
    let n = s.unicode_len();
    if i >= n {
        return Option::None;
    }
    if s.get_char(i) != '[' {
        proof {
            assert(s@.skip(i as int)[0] == s@[i as int]);
        }
        return Option::None;
    }
    if i + 1 < n && s.get_char(i + 1) == ']' {
        let v: Vec<Transaction> = Vec::new();
        proof {
            assert(s@.skip(i as int)[0] == '[');
            assert(s@.skip(i as int)[1] == ']');
            assert(s@.skip(i as int).skip(2) =~= s@.skip(i + 2));
            assert(v@.map_values(|t: Transaction| t@) =~= Seq::<TransactionV>::empty());
        }
        return Option::Some((v, i + 2));
    }
    proof {
        reveal_strlit("{\"id\":");
        assert(s@.skip(i as int)[0] == '[');
        if i + 1 < n {
            assert(s@.skip(i as int)[1] == s@[i + 1]);
        }
    }
    let (t0, j0) = match parse_tx_at(s, i + 1) {
        Option::Some(p) => p,
        Option::None => {
            proof {
                assert(s@.skip(i as int).skip(1) =~= s@.skip(i + 1));
            }
            return Option::None;
        },
    };
    proof {
        assert(s@.skip(i as int).skip(1) =~= s@.skip(i + 1));
        if i + 1 >= n {
            assert(s@.skip(i + 1).len() == 0);
            assert(expect(s@.skip(i + 1), lit_id()) is None);
            assert(false);
        }
    }
    let mut v: Vec<Transaction> = Vec::new();
    v.push(t0);
    let mut j: usize = j0;
    proof {
        assert(v@.map_values(|t: Transaction| t@) =~= seq![t0@]);
        assert(s@.skip(j as int).len() < s@.skip(i as int).len());
    }
    loop
        invariant
            i < j <= s@.len(),
            s@.len() == n,
            v@.len() >= 1,
            forall|k: int| 0 <= k < v@.len() ==> transaction_v_wf(#[trigger] v@[k]@),
            parse_tx_list(s@.skip(i as int)) == (match parse_tx_more(s@.skip(j as int)) {
                Some(p) => Some((v@.map_values(|t: Transaction| t@) + p.0, p.1)),
                None => None,
            }),
        decreases n - j,
    {
        if j >= n {
            proof {
                assert(s@.skip(j as int).len() == 0);
            }
            return Option::None;
        }
        let c = s.get_char(j);
        if c == ']' {
            proof {
                assert(s@.skip(j as int)[0] == ']');
                assert(s@.skip(j as int).skip(1) =~= s@.skip(j + 1));
                assert(v@.map_values(|t: Transaction| t@) + Seq::<TransactionV>::empty()
                    =~= v@.map_values(|t: Transaction| t@));
            }
            return Option::Some((v, j + 1));
        }
        if c != ',' {
            proof {
                assert(s@.skip(j as int)[0] == c);
            }
            return Option::None;
        }
        proof {
            assert(s@.skip(j as int)[0] == ',');
            assert(s@.skip(j as int).skip(1) =~= s@.skip(j + 1));
        }
        let (t, j2) = match parse_tx_at(s, j + 1) {
            Option::Some(p) => p,
            Option::None => {
                return Option::None;
            },
        };
        proof {
            assert(s@.skip(j2 as int).len() < s@.skip(j as int).len());
            let ghost mv = v@.map_values(|x: Transaction| x@);
            assert(v@.push(t).map_values(|x: Transaction| x@) =~= mv.push(t@));
            if parse_tx_more(s@.skip(j2 as int)) is Some {
                let q = parse_tx_more(s@.skip(j2 as int))->Some_0;
                assert(mv + (seq![t@] + q.0) =~= mv.push(t@) + q.0);
            }
        }
        v.push(t);
        j = j2;
    }
}

/// Reads a whole category list at position `i`.
fn parse_str_list_at(s: &str, i: usize) -> (r: Option<(Vec<String>, usize)>)
    requires
        i <= s@.len(),
    ensures
        match r {
            Some(p) => i <= p.1 <= s@.len() && parse_str_list(s@.skip(i as int)) == Some(
                (p.0@.map_values(|x: String| x@), s@.skip(p.1 as int)),
            ),
            None => parse_str_list(s@.skip(i as int)) is None,
        },
{
    let n = s.unicode_len();
    if i >= n {
        return Option::None;
    }
    if s.get_char(i) != '[' {
        proof {
            assert(s@.skip(i as int)[0] == s@[i as int]);
        }
        return Option::None;
    }
    if i + 1 < n && s.get_char(i + 1) == ']' {
        let v: Vec<String> = Vec::new();
        proof {
            assert(s@.skip(i as int)[0] == '[');
            assert(s@.skip(i as int)[1] == ']');
            assert(s@.skip(i as int).skip(2) =~= s@.skip(i + 2));
            assert(v@.map_values(|x: String| x@) =~= Seq::<Seq<char>>::empty());
        }
        return Option::Some((v, i + 2));
    }
    proof {
        assert(s@.skip(i as int)[0] == '[');
        if i + 1 < n {
            assert(s@.skip(i as int)[1] == s@[i + 1]);
        }
    }
    if i + 1 >= n || s.get_char(i + 1) != '"' {
        proof {
            assert(s@.skip(i as int).skip(1) =~= s@.skip(i + 1));
            if i + 1 < n {
                assert(s@.skip(i + 1)[0] == s@[i + 1]);
            } else {
                assert(s@.skip(i + 1).len() == 0);
            }
        }
        return Option::None;
    }
    proof {
        assert(s@.skip(i as int).skip(1) =~= s@.skip(i + 1));
        assert(s@.skip(i + 1)[0] == '"');
        assert(s@.skip(i + 1).skip(1) =~= s@.skip(i + 2));
    }
    let (s0, j0) = match parse_string_at(s, i + 2) {
        Option::Some(p) => p,
        Option::None => {
            return Option::None;
        },
    };
    let mut v: Vec<String> = Vec::new();
    v.push(s0);
    let mut j: usize = j0;
    proof {
        assert(v@.map_values(|x: String| x@) =~= seq![s0@]);
    }
    loop
        invariant
            i < j <= s@.len(),
            s@.len() == n,
            v@.len() >= 1,
            parse_str_list(s@.skip(i as int)) == (match parse_str_more(s@.skip(j as int)) {
                Some(p) => Some((v@.map_values(|x: String| x@) + p.0, p.1)),
                None => None,
            }),
        decreases n - j,
    {
        if j >= n {
            proof {
                assert(s@.skip(j as int).len() == 0);
            }
            return Option::None;
        }
        let c = s.get_char(j);
        if c == ']' {
            proof {
                assert(s@.skip(j as int)[0] == ']');
                assert(s@.skip(j as int).skip(1) =~= s@.skip(j + 1));
                assert(v@.map_values(|x: String| x@) + Seq::<Seq<char>>::empty() =~= v@.map_values(
                    |x: String| x@,
                ));
            }
            return Option::Some((v, j + 1));
        }
        if c != ',' {
            proof {
                assert(s@.skip(j as int)[0] == c);
            }
            return Option::None;
        }
        proof {
            assert(s@.skip(j as int)[0] == ',');
            assert(s@.skip(j as int).skip(1) =~= s@.skip(j + 1));
        }
        if j + 1 >= n || s.get_char(j + 1) != '"' {
            proof {
                if j + 1 < n {
                    assert(s@.skip(j + 1)[0] == s@[j + 1]);
                } else {
                    assert(s@.skip(j + 1).len() == 0);
                }
            }
            return Option::None;
        }
        proof {
            assert(s@.skip(j + 1)[0] == '"');
            assert(s@.skip(j + 1).skip(1) =~= s@.skip(j + 2));
        }
        let (e, j2) = match parse_string_at(s, j + 2) {
            Option::Some(p) => p,
            Option::None => {
                return Option::None;
            },
        };
        proof {
            assert(s@.skip(j2 as int).len() < s@.skip(j as int).len());
            let ghost mv = v@.map_values(|x: String| x@);
            assert(v@.push(e).map_values(|x: String| x@) =~= mv.push(e@));
            if parse_str_more(s@.skip(j2 as int)) is Some {
                let q = parse_str_more(s@.skip(j2 as int))->Some_0;
                assert(mv + (seq![e@] + q.0) =~= mv.push(e@) + q.0);
            }
        }
        v.push(e);
        j = j2;
    }
}

/// Decodes a persisted document back into a transaction set. Succeeds
/// exactly on texts of the persisted shape; every decoded transaction is
/// well-formed.
pub fn decode_transactions(s: &str) -> (r: Option<Transactions>)
    ensures
        r is Some <==> spec_decode(s@) is Some,
        r is Some ==> r->Some_0@ == spec_decode(s@)->Some_0 && transactions_v_wf(r->Some_0@),
{
    proof {
        assert(s@.skip(0) =~= s@);
    }
    let n = s.unicode_len();
    let i1 = match expect_lit(s, 0, "{\"transactions\":{\"expenses\":") {
        Option::Some(j) => j,
        Option::None => {
            return Option::None;
        },
    };
    let (expenses, i2) = match parse_tx_list_at(s, i1) {
        Option::Some(p) => p,
        Option::None => {
            return Option::None;
        },
    };
    let i3 = match expect_lit(s, i2, ",\"income\":") {
        Option::Some(j) => j,
        Option::None => {
            return Option::None;
        },
    };
    let (income, i4) = match parse_tx_list_at(s, i3) {
        Option::Some(p) => p,
        Option::None => {
            return Option::None;
        },
    };
    let i5 = match expect_lit(s, i4, ",\"expense_categories\":") {
        Option::Some(j) => j,
        Option::None => {
            return Option::None;
        },
    };
    let (expense_categories, i6) = match parse_str_list_at(s, i5) {
        Option::Some(p) => p,
        Option::None => {
            return Option::None;
        },
    };
    let i7 = match expect_lit(s, i6, ",\"income_categories\":") {
        Option::Some(j) => j,
        Option::None => {
            return Option::None;
        },
    };
    let (income_categories, i8) = match parse_str_list_at(s, i7) {
        Option::Some(p) => p,
        Option::None => {
            return Option::None;
        },
    };
    let i9 = match expect_lit(s, i8, "}}") {
        Option::Some(j) => j,
        Option::None => {
            return Option::None;
        },
    };
    if i9 != n {
        proof {
            assert(s@.skip(i9 as int).len() != 0);
        }
        return Option::None;
    }
    let ts = Transactions { expenses, income, expense_categories, income_categories };
    proof {
        assert(s@.skip(i9 as int).len() == 0);
        assert(ts@ =~= spec_decode(s@)->Some_0);
    }
    Option::Some(ts)
}

} // verus!
