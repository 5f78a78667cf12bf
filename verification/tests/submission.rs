use fintrackr::amount::amount_to_text;
use fintrackr::app::{App, Effect, Key, Prepared, Tab};
use fintrackr::data::{initial_transactions, resolve_category, Transaction};
use fintrackr::date::Date;

fn fresh_on(tab: Tab) -> App {
    let mut app = App::new(initial_transactions(), 0);
    while app.current_tab != tab {
        app.handle_key(Key::NextTab, 0);
    }
    app
}

fn type_text(app: &mut App, text: &str) {
    for c in text.chars() {
        app.handle_key(Key::Char(c), 0);
    }
}

fn fill_expense_form(app: &mut App, amount: &str, category: &str, date: &str, description: &str) {
    type_text(app, amount);
    app.handle_key(Key::Down, 0);
    type_text(app, category);
    app.handle_key(Key::Down, 0);
    type_text(app, date);
    app.handle_key(Key::Down, 0);
    type_text(app, description);
}

#[test]
fn end_to_end_expense_submission() {
    let mut app = fresh_on(Tab::AddExpense);
    fill_expense_form(&mut app, "42.50", "Food", "2024-03-15", "Lunch");
    let t: Transaction = match app.handle_key(Key::Enter, 0) {
        Effect::Persist(t) => t,
        _ => panic!("submission should hand back a transaction to persist"),
    };
    assert_eq!(t.id, 1);
    assert!(t.amount.negative);
    assert_eq!(amount_to_text(&t.amount), "-42.5");
    assert_eq!(t.date, Date { year: 2024, month: 3, day: 15 });
    assert_eq!(t.category, "Food");
    assert_eq!(t.description, "Lunch");

    app.commit_submission(t, 0);
    assert_eq!(app.current_tab, Tab::Transactions);
    assert_eq!(app.transactions.expenses.len(), 1);
    assert_eq!(app.transactions.income.len(), 0);
    assert_eq!(app.transactions.expenses[0].id, 1);
    assert_eq!(amount_to_text(&app.transactions.expenses[0].amount), "-42.5");
    assert_eq!(app.amount_input.text, "");
    assert!(!app.amount_input.modified);
}

#[test]
fn income_submission_keeps_the_sign_and_its_own_ids() {
    let mut app = fresh_on(Tab::AddIncome);
    type_text(&mut app, "100");
    app.handle_key(Key::Down, 0);
    type_text(&mut app, "Salary");
    app.handle_key(Key::Down, 0);
    type_text(&mut app, "2024-01-31");
    app.handle_key(Key::Down, 0);
    type_text(&mut app, "January pay");
    let t = match app.handle_key(Key::Enter, 0) {
        Effect::Persist(t) => t,
        _ => panic!("submission should hand back a transaction to persist"),
    };
    assert_eq!(t.id, 1);
    assert!(!t.amount.negative);
    assert_eq!(amount_to_text(&t.amount), "100");
    assert_eq!(t.category, "Salary");
    app.commit_submission(t, 0);
    assert_eq!(app.transactions.income.len(), 1);
    assert_eq!(app.transactions.expenses.len(), 0);
}

#[test]
fn untouched_fields_do_not_block_submission() {
    let mut app = fresh_on(Tab::AddExpense);
    // Touch every field but the amount; all touched fields hold valid text.
    app.handle_key(Key::Down, 0);
    type_text(&mut app, "Food");
    app.handle_key(Key::Down, 0);
    type_text(&mut app, "2024-03-15");
    app.handle_key(Key::Down, 0);
    type_text(&mut app, "Lunch");
    // Validation lets the attempt through; only the blank amount fails to parse.
    let p = app.prepare_submission();
    assert!(matches!(p, Prepared::ParseFailed));
    // A touched invalid field, by contrast, blocks the submission outright.
    let mut blocked = fresh_on(Tab::AddExpense);
    type_text(&mut blocked, "not a number");
    let p2 = blocked.prepare_submission();
    assert!(matches!(p2, Prepared::Blocked));
    // An untouched form has nothing touched at all: validation lets it
    // through, and only the amount parse stops it.
    let mut untouched = fresh_on(Tab::AddExpense);
    let p3 = untouched.prepare_submission();
    assert!(matches!(p3, Prepared::ParseFailed));
}

#[test]
fn blocked_submission_changes_nothing() {
    let mut app = fresh_on(Tab::AddExpense);
    fill_expense_form(&mut app, "oops", "Food", "2024-03-15", "Lunch");
    let e = app.handle_key(Key::Enter, 0);
    assert!(matches!(e, Effect::Nothing));
    assert_eq!(app.current_tab, Tab::AddExpense);
    assert_eq!(app.transactions.expenses.len(), 0);
    assert_eq!(app.amount_input.text, "oops");
}

#[test]
fn unresolved_category_falls_back_to_other() {
    let mut app = fresh_on(Tab::AddExpense);
    fill_expense_form(&mut app, "5", "Pizza night", "2024-06-01", "Dinner");
    let t = match app.handle_key(Key::Enter, 0) {
        Effect::Persist(t) => t,
        _ => panic!("submission should hand back a transaction to persist"),
    };
    assert_eq!(t.category, "Other");
}

#[test]
fn category_resolution_trims_and_is_case_sensitive() {
    let cats = fintrackr::data::default_expense_categories();
    assert_eq!(resolve_category(" Food ", &cats), "Food");
    assert_eq!(resolve_category("Food", &cats), "Food");
    assert_eq!(resolve_category("food", &cats), "Other");
    assert_eq!(resolve_category("", &cats), "Other");
}

#[test]
fn ids_count_per_bucket() {
    let mut app = fresh_on(Tab::AddExpense);
    fill_expense_form(&mut app, "1", "Food", "2024-01-01", "first");
    let t1 = match app.handle_key(Key::Enter, 0) {
        Effect::Persist(t) => t,
        _ => panic!("expected a transaction"),
    };
    app.commit_submission(t1, 0);
    let mut app = fresh_on_with(app, Tab::AddExpense);
    fill_expense_form(&mut app, "2", "Bills", "2024-01-02", "second");
    let t2 = match app.handle_key(Key::Enter, 0) {
        Effect::Persist(t) => t,
        _ => panic!("expected a transaction"),
    };
    assert_eq!(t2.id, 2);
    app.commit_submission(t2, 0);
    let mut app = fresh_on_with(app, Tab::AddIncome);
    type_text(&mut app, "9");
    app.handle_key(Key::Down, 0);
    type_text(&mut app, "Gifts");
    app.handle_key(Key::Down, 0);
    type_text(&mut app, "2024-01-03");
    app.handle_key(Key::Down, 0);
    type_text(&mut app, "gift");
    let t3 = match app.handle_key(Key::Enter, 0) {
        Effect::Persist(t) => t,
        _ => panic!("expected a transaction"),
    };
    // income ids start over: unique within the bucket only
    assert_eq!(t3.id, 1);
}

fn fresh_on_with(mut app: App, tab: Tab) -> App {
    while app.current_tab != tab {
        app.handle_key(Key::NextTab, 0);
    }
    app
}
