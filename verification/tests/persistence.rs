use fintrackr::amount::parse_amount;
use fintrackr::app::{App, Effect, Key, Tab};
use fintrackr::codec::{decode_transactions, encode_transactions};
use fintrackr::data::{initial_transactions, Transaction, Transactions};
use fintrackr::date::Date;

fn tx(id: u32, amount: &str, category: &str, date: Date, description: &str) -> Transaction {
    Transaction {
        id,
        amount: parse_amount(amount).unwrap(),
        category: category.to_string(),
        date,
        description: description.to_string(),
    }
}

fn assert_same_tx(a: &Transaction, b: &Transaction) {
    assert_eq!(a.id, b.id);
    assert_eq!(a.amount.negative, b.amount.negative);
    assert_eq!(a.amount.digits, b.amount.digits);
    assert_eq!(a.amount.frac, b.amount.frac);
    assert_eq!(a.category, b.category);
    assert_eq!(a.date, b.date);
    assert_eq!(a.description, b.description);
}

fn assert_same_set(a: &Transactions, b: &Transactions) {
    assert_eq!(a.expenses.len(), b.expenses.len());
    for (x, y) in a.expenses.iter().zip(b.expenses.iter()) {
        assert_same_tx(x, y);
    }
    assert_eq!(a.income.len(), b.income.len());
    for (x, y) in a.income.iter().zip(b.income.iter()) {
        assert_same_tx(x, y);
    }
    assert_eq!(a.expense_categories, b.expense_categories);
    assert_eq!(a.income_categories, b.income_categories);
}

#[test]
fn empty_store_encodes_to_the_fixed_document() {
    let doc = encode_transactions(&initial_transactions());
    assert_eq!(
        doc,
        "{\"transactions\":{\"expenses\":[],\"income\":[],\
         \"expense_categories\":[\"Food\",\"Housing\",\"Transportation\",\
         \"Entertainment\",\"Health\",\"Bills\",\"Other\"],\
         \"income_categories\":[\"Salary\",\"Interest\",\"Gifts\",\"Other\"]}}"
    );
}

#[test]
fn round_trip_preserves_every_field_in_order() {
    let mut ts = initial_transactions();
    ts.expenses.push(tx(
        1,
        "-42.5",
        "Food",
        Date { year: 2024, month: 3, day: 15 },
        "Lunch",
    ));
    ts.expenses.push(tx(
        2,
        "-0.99",
        "Bills",
        Date { year: 2024, month: 12, day: 31 },
        "late \"fee\", with a \\ backslash [and, brackets]",
    ));
    ts.income.push(tx(
        1,
        "1000",
        "Salary",
        Date { year: 2023, month: 1, day: 1 },
        "pay",
    ));
    let doc = encode_transactions(&ts);
    let back = decode_transactions(doc.as_str()).expect("the encoded document must decode");
    assert_same_set(&ts, &back);
}

#[test]
fn round_trip_of_the_empty_store() {
    let ts = initial_transactions();
    let doc = encode_transactions(&ts);
    let back = decode_transactions(doc.as_str()).expect("the encoded document must decode");
    assert_same_set(&ts, &back);
}

#[test]
fn decode_rejects_malformed_documents() {
    assert!(decode_transactions("").is_none());
    assert!(decode_transactions("garbage").is_none());
    assert!(decode_transactions("{\"transactions\":{\"expenses\":[]").is_none());
    let doc = encode_transactions(&initial_transactions());
    let mut truncated = doc.clone();
    truncated.pop();
    assert!(decode_transactions(truncated.as_str()).is_none());
    let trailing = format!("{} ", doc);
    assert!(decode_transactions(trailing.as_str()).is_none());
}

#[test]
fn submitted_expense_persists_and_lists_one_row() {
    let mut app = App::new(initial_transactions(), 0);
    app.handle_key(Key::NextTab, 0);
    app.handle_key(Key::NextTab, 0);
    assert_eq!(app.current_tab, Tab::AddExpense);
    for c in "42.50".chars() {
        app.handle_key(Key::Char(c), 0);
    }
    app.handle_key(Key::Down, 0);
    for c in "Food".chars() {
        app.handle_key(Key::Char(c), 0);
    }
    app.handle_key(Key::Down, 0);
    for c in "2024-03-15".chars() {
        app.handle_key(Key::Char(c), 0);
    }
    app.handle_key(Key::Down, 0);
    for c in "Lunch".chars() {
        app.handle_key(Key::Char(c), 0);
    }
    let t = match app.handle_key(Key::Enter, 0) {
        Effect::Persist(t) => t,
        _ => panic!("submission should hand back a transaction to persist"),
    };
    app.commit_submission(t, 0);
    // the durable document holds exactly the one expense
    let doc = encode_transactions(&app.transactions);
    let back = decode_transactions(doc.as_str()).expect("the persisted document must decode");
    assert_eq!(back.expenses.len(), 1);
    assert_eq!(back.income.len(), 0);
    assert_eq!(back.expenses[0].id, 1);
    assert_eq!(fintrackr::amount::amount_to_text(&back.expenses[0].amount), "-42.5");
    assert_eq!(back.expenses[0].date, Date { year: 2024, month: 3, day: 15 });
    assert_eq!(back.expenses[0].description, "Lunch");
    // the transactions table shows one row: both buckets chained
    assert_eq!(app.transactions.expenses.len() + app.transactions.income.len(), 1);
    assert_eq!(app.current_tab, Tab::Transactions);
}
