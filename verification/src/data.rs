//! The transaction data model: single transactions, the two buckets with
//! their category lists, and category resolution.

use vstd::prelude::*;
use crate::amount::{Amount, AmountV, amount_v_wf};
use crate::date::{Date, date_wf};
use crate::text::trimmed;
use crate::text::trim_text;

verus! {

/// A single recorded transaction. The amount is negative for expenses and
/// positive for income; the id is unique within its bucket only.
#[derive(Clone, Debug)]
pub struct Transaction {
    pub id: u32,
    pub amount: Amount,
    pub category: String,
    pub date: Date,
    pub description: String,
}

/// The mathematical content of a [`Transaction`].
#[verifier::ext_equal]
pub struct TransactionV {
    pub id: u32,
    pub amount: AmountV,
    pub category: Seq<char>,
    pub date: Date,
    pub description: Seq<char>,
}

impl View for Transaction {
    type V = TransactionV;

    open spec fn view(&self) -> TransactionV {
        TransactionV {
            id: self.id,
            amount: self.amount@,
            category: self.category@,
            date: self.date,
            description: self.description@,
        }
    }
}

/// A transaction whose amount is canonical and whose date is a real
/// calendar day.
pub open spec fn transaction_v_wf(t: TransactionV) -> bool {
    amount_v_wf(t.amount) && date_wf(t.date)
}

/// The two transaction buckets and their known category lists.
#[derive(Clone, Debug)]
pub struct Transactions {
    pub expenses: Vec<Transaction>,
    pub income: Vec<Transaction>,
    pub expense_categories: Vec<String>,
    pub income_categories: Vec<String>,
}

/// The mathematical content of a [`Transactions`].
#[verifier::ext_equal]
pub struct TransactionsV {
    pub expenses: Seq<TransactionV>,
    pub income: Seq<TransactionV>,
    pub expense_categories: Seq<Seq<char>>,
    pub income_categories: Seq<Seq<char>>,
}

impl View for Transactions {
    type V = TransactionsV;

    open spec fn view(&self) -> TransactionsV {
        TransactionsV {
            expenses: self.expenses@.map_values(|t: Transaction| t@),
            income: self.income@.map_values(|t: Transaction| t@),
            expense_categories: self.expense_categories@.map_values(|s: String| s@),
            income_categories: self.income_categories@.map_values(|s: String| s@),
        }
    }
}

/// Every transaction of both buckets is well-formed.
pub open spec fn transactions_v_wf(ts: TransactionsV) -> bool {
    &&& forall|i: int| 0 <= i < ts.expenses.len() ==> transaction_v_wf(#[trigger] ts.expenses[i])
    &&& forall|i: int| 0 <= i < ts.income.len() ==> transaction_v_wf(#[trigger] ts.income[i])
}

/// The persisted document: all transaction data under one root.
#[derive(Clone, Debug)]
pub struct DataStructure {
    pub transactions: Transactions,
}

/// The fixed expense category names.
pub open spec fn spec_expense_categories() -> Seq<Seq<char>> {
    seq![
        "Food"@,
        "Housing"@,
        "Transportation"@,
        "Entertainment"@,
        "Health"@,
        "Bills"@,
        "Other"@,
    ]
}

/// The fixed income category names.
pub open spec fn spec_income_categories() -> Seq<Seq<char>> {
    seq!["Salary"@, "Interest"@, "Gifts"@, "Other"@]
}

/// The fixed list of expense categories.
pub fn default_expense_categories() -> (r: Vec<String>)
    ensures
        r@.map_values(|s: String| s@) =~= spec_expense_categories(),
{
    let mut r: Vec<String> = Vec::new();
    r.push(String::from_str("Food"));
    r.push(String::from_str("Housing"));
    r.push(String::from_str("Transportation"));
    r.push(String::from_str("Entertainment"));
    r.push(String::from_str("Health"));
    r.push(String::from_str("Bills"));
    r.push(String::from_str("Other"));
    r
}

/// The fixed list of income categories.
pub fn default_income_categories() -> (r: Vec<String>)
    ensures
        r@.map_values(|s: String| s@) =~= spec_income_categories(),
{
    let mut r: Vec<String> = Vec::new();
    r.push(String::from_str("Salary"));
    r.push(String::from_str("Interest"));
    r.push(String::from_str("Gifts"));
    r.push(String::from_str("Other"));
    r
}

/// The empty transaction set with the fixed category lists, as first written
/// when no data has been recorded yet.
pub fn initial_transactions() -> (r: Transactions)
    ensures
        r@.expenses =~= Seq::<TransactionV>::empty(),
        r@.income =~= Seq::<TransactionV>::empty(),
        r@.expense_categories =~= spec_expense_categories(),
        r@.income_categories =~= spec_income_categories(),
        transactions_v_wf(r@),
{
    let r = Transactions {
        expenses: Vec::new(),
        income: Vec::new(),
        expense_categories: default_expense_categories(),
        income_categories: default_income_categories(),
    };
    proof {
        assert(r@.expenses =~= Seq::<TransactionV>::empty());
        assert(r@.income =~= Seq::<TransactionV>::empty());
    }
    r
}

/// The first category of `cats` whose trimmed text equals the trimmed input,
/// or "Other" when none matches.
pub open spec fn spec_resolve_category(input: Seq<char>, cats: Seq<Seq<char>>) -> Seq<char>
    decreases cats.len(),
{
    if cats.len() == 0 {
        "Other"@
    } else if trimmed(cats[0]) == trimmed(input) {
        cats[0]
    } else {
        spec_resolve_category(input, cats.drop_first())
    }
}

proof fn lemma_resolve_skip(input: Seq<char>, cats: Seq<Seq<char>>, i: int)
    requires
        0 <= i <= cats.len(),
        forall|j: int| 0 <= j < i ==> trimmed(#[trigger] cats[j]) != trimmed(input),
    ensures
        spec_resolve_category(input, cats) == spec_resolve_category(input, cats.skip(i)),
    decreases i,
{
    if i > 0 {
        assert(cats.skip(i - 1)[0] == cats[i - 1]);
        assert(cats.skip(i - 1).drop_first() =~= cats.skip(i));
        lemma_resolve_skip(input, cats, i - 1);
    } else {
        assert(cats.skip(0) =~= cats);
    }
}

/// Resolves a raw category input against the known category list: the first
/// exact match on trimmed text wins, and unresolved input falls back to
/// "Other".
pub fn resolve_category(input: &str, cats: &Vec<String>) -> (r: String)
    ensures
        r@ == spec_resolve_category(input@, cats@.map_values(|s: String| s@)),
{
    let ghost catsv = cats@.map_values(|s: String| s@);
    let ti = trim_text(input);
    let n = cats.len();
    let mut i: usize = 0;
    while i < n
        invariant
            n == cats@.len(),
            i <= n,
            ti@ == trimmed(input@),
            catsv == cats@.map_values(|s: String| s@),
            forall|j: int| 0 <= j < i ==> trimmed(#[trigger] catsv[j]) != trimmed(input@),
        decreases n - i,
    {
        let tc = trim_text(cats[i].as_str());
        if tc == ti {
            proof {
                lemma_resolve_skip(input@, catsv, i as int);
                assert(catsv.skip(i as int)[0] == catsv[i as int]);
            }
            return cats[i].clone();
        }
        i = i + 1;
    }
    proof {
        lemma_resolve_skip(input@, catsv, n as int);
        assert(catsv.skip(n as int).len() == 0);
    }
    String::from_str("Other")
}

} // verus!
