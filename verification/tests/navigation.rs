use fintrackr::app::{App, Effect, Key, Tab};
use fintrackr::validate::Annotation;
use fintrackr::data::initial_transactions;

fn fresh() -> App {
    App::new(initial_transactions(), 0)
}

fn step(app: &mut App, key: Key) -> Effect {
    app.handle_key(key, 0)
}

#[test]
fn forward_tab_cycle_skips_report() {
    let mut app = fresh();
    assert_eq!(app.current_tab, Tab::Home);
    step(&mut app, Key::NextTab);
    assert_eq!(app.current_tab, Tab::Transactions);
    step(&mut app, Key::NextTab);
    assert_eq!(app.current_tab, Tab::AddExpense);
    step(&mut app, Key::NextTab);
    assert_eq!(app.current_tab, Tab::AddIncome);
    step(&mut app, Key::NextTab);
    assert_eq!(app.current_tab, Tab::Home);
}

#[test]
fn backward_tab_cycle_passes_report() {
    let mut app = fresh();
    step(&mut app, Key::PrevTab);
    assert_eq!(app.current_tab, Tab::Report);
    step(&mut app, Key::PrevTab);
    assert_eq!(app.current_tab, Tab::AddIncome);
    step(&mut app, Key::PrevTab);
    assert_eq!(app.current_tab, Tab::AddExpense);
    step(&mut app, Key::PrevTab);
    assert_eq!(app.current_tab, Tab::Transactions);
    step(&mut app, Key::PrevTab);
    assert_eq!(app.current_tab, Tab::Home);
}

#[test]
fn report_steps_forward_to_transactions() {
    let mut app = fresh();
    step(&mut app, Key::PrevTab);
    assert_eq!(app.current_tab, Tab::Report);
    step(&mut app, Key::NextTab);
    assert_eq!(app.current_tab, Tab::Transactions);
}

#[test]
fn escape_quits_from_any_tab() {
    let mut app = fresh();
    assert!(matches!(step(&mut app, Key::Esc), Effect::Quit));
    step(&mut app, Key::NextTab);
    assert!(matches!(step(&mut app, Key::Esc), Effect::Quit));
}

#[test]
fn table_scroll_down_then_up() {
    let mut app = fresh();
    step(&mut app, Key::NextTab);
    assert_eq!(app.current_tab, Tab::Transactions);
    assert_eq!(app.table_state, None);
    assert_eq!(app.vertical_scroll, 0);
    step(&mut app, Key::Down);
    assert_eq!(app.table_state, Some(0));
    assert_eq!(app.vertical_scroll, 0);
    step(&mut app, Key::Down);
    assert_eq!(app.table_state, Some(1));
    assert_eq!(app.vertical_scroll, 1);
    step(&mut app, Key::Up);
    assert_eq!(app.table_state, Some(0));
    assert_eq!(app.vertical_scroll, 0);
    step(&mut app, Key::Up);
    assert_eq!(app.table_state, Some(0));
    assert_eq!(app.vertical_scroll, 0);
}

#[test]
fn scroll_offset_trails_selection_by_one_on_the_way_up() {
    let mut app = fresh();
    step(&mut app, Key::NextTab);
    for _ in 0..5 {
        step(&mut app, Key::Down);
    }
    assert_eq!(app.table_state, Some(4));
    assert_eq!(app.vertical_scroll, 4);
    step(&mut app, Key::Up);
    assert_eq!(app.table_state, Some(3));
    assert_eq!(app.vertical_scroll, 2);
}

#[test]
fn field_focus_wraps_both_ways() {
    let mut app = fresh();
    step(&mut app, Key::NextTab);
    step(&mut app, Key::NextTab);
    assert_eq!(app.current_tab, Tab::AddExpense);
    assert_eq!(app.active_input, 0);
    step(&mut app, Key::Down);
    assert_eq!(app.active_input, 1);
    step(&mut app, Key::Down);
    step(&mut app, Key::Down);
    assert_eq!(app.active_input, 3);
    step(&mut app, Key::Down);
    assert_eq!(app.active_input, 0);
    step(&mut app, Key::Up);
    assert_eq!(app.active_input, 3);
}

#[test]
fn tab_change_resets_the_form() {
    let mut app = fresh();
    step(&mut app, Key::NextTab);
    step(&mut app, Key::NextTab);
    app.handle_key(Key::Char('4'), 7);
    assert_eq!(app.amount_input.text, "4");
    assert!(app.amount_input.modified);
    assert!(app.cursor_visible);
    step(&mut app, Key::NextTab);
    assert_eq!(app.amount_input.text, "");
    assert!(!app.amount_input.modified);
    assert_eq!(app.active_input, 0);
    assert!(!app.cursor_visible);
    assert_eq!(app.table_state, None);
}

#[test]
fn tab_labels() {
    assert_eq!(Tab::Home.label(), "Home");
    assert_eq!(Tab::Transactions.label(), "Transactions");
    assert_eq!(Tab::AddExpense.label(), "Add Expense");
    assert_eq!(Tab::AddIncome.label(), "Add Income");
    assert_eq!(Tab::Report.label(), "Report");
}

#[test]
fn cursor_blinks_every_150_milliseconds() {
    let mut app = fresh();
    assert!(!app.cursor_visible);
    app.update_cursor(149);
    assert!(!app.cursor_visible);
    assert_eq!(app.last_tick, 0);
    app.update_cursor(150);
    assert!(app.cursor_visible);
    assert_eq!(app.last_tick, 150);
    app.update_cursor(299);
    assert!(app.cursor_visible);
    app.update_cursor(300);
    assert!(!app.cursor_visible);
}

#[test]
fn editing_validates_per_keystroke() {
    let mut app = fresh();
    step(&mut app, Key::NextTab);
    step(&mut app, Key::NextTab);
    app.handle_key(Key::Char('4'), 0);
    assert_eq!(app.amount_input.note, Annotation::Valid);
    app.handle_key(Key::Char('x'), 0);
    assert_eq!(app.amount_input.text, "4x");
    assert_eq!(app.amount_input.note, Annotation::InvalidAmount);
    app.handle_key(Key::Backspace, 0);
    assert_eq!(app.amount_input.text, "4");
    assert_eq!(app.amount_input.note, Annotation::Valid);
    app.handle_key(Key::Backspace, 0);
    assert_eq!(app.amount_input.text, "");
    assert!(app.amount_input.modified);
    assert_eq!(app.amount_input.note, Annotation::Valid);
    app.handle_key(Key::Backspace, 0);
    assert_eq!(app.amount_input.text, "");
}
