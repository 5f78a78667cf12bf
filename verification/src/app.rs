//! The interactive core: tab navigation, the four-field form with
//! per-keystroke validation, table scrolling, the cursor tick, and the
//! transaction submission pipeline. Every transition is a pure function of
//! the previous state, the input event, and the clock reading handed in.

use vstd::prelude::*;
use crate::amount::{Amount, AmountV, amount_v_wf, is_amount_text, parse_amount, spec_parse_amount};
use crate::data::{
    Transaction, TransactionV, Transactions, transaction_v_wf, transactions_v_wf,
    default_expense_categories, default_income_categories, spec_expense_categories,
    spec_income_categories, spec_resolve_category, resolve_category,
};
use crate::date::{is_date_text, parse_date, spec_date_of};
use crate::text::push_char;
use crate::validate::{Annotation, FieldKind, spec_field_valid, spec_verdict, validate_field};

verus! {

/// The five screens of the tracker. The forward cycle
/// (Home, Transactions, AddExpense, AddIncome, back to Home) skips Report;
/// Report is reached only by stepping backwards from Home.
#[derive(Clone, Copy, PartialEq, Eq, Structural, Debug)]
pub enum Tab {
    Home,
    Transactions,
    AddExpense,
    AddIncome,
    Report,
}

/// The tab reached from `t` by one forward step.
pub open spec fn spec_next_tab(t: Tab) -> Tab {
    match t {
        Tab::Home => Tab::Transactions,
        Tab::Transactions => Tab::AddExpense,
        Tab::AddExpense => Tab::AddIncome,
        Tab::AddIncome => Tab::Home,
        Tab::Report => Tab::Transactions,
    }
}

/// The tab reached from `t` by one backward step.
pub open spec fn spec_previous_tab(t: Tab) -> Tab {
    match t {
        Tab::Home => Tab::Report,
        Tab::Report => Tab::AddIncome,
        Tab::AddIncome => Tab::AddExpense,
        Tab::AddExpense => Tab::Transactions,
        Tab::Transactions => Tab::Home,
    }
}

impl Tab {
    /// One forward step through the tab cycle.
    pub fn next(self) -> (t: Tab)
        ensures
            t == spec_next_tab(self),
    {
        match self {
            Tab::Home => Tab::Transactions,
            Tab::Transactions => Tab::AddExpense,
            Tab::AddExpense => Tab::AddIncome,
            Tab::AddIncome => Tab::Home,
            Tab::Report => Tab::Transactions,
        }
    }

    /// One backward step through the tab cycle.
    pub fn previous(self) -> (t: Tab)
        ensures
            t == spec_previous_tab(self),
    {
        match self {
            Tab::Home => Tab::Report,
            Tab::Report => Tab::AddIncome,
            Tab::AddIncome => Tab::AddExpense,
            Tab::AddExpense => Tab::Transactions,
            Tab::Transactions => Tab::Home,
        }
    }

    /// The title shown for this tab.
    pub fn label(&self) -> (s: String)
        ensures
            s@ == spec_tab_label(*self),
    {
        match self {
            Tab::Home => String::from_str("Home"),
            Tab::Transactions => String::from_str("Transactions"),
            Tab::AddExpense => String::from_str("Add Expense"),
            Tab::AddIncome => String::from_str("Add Income"),
            Tab::Report => String::from_str("Report"),
        }
    }
}

/// The title shown for each tab.
pub open spec fn spec_tab_label(t: Tab) -> Seq<char> {
    match t {
        Tab::Home => "Home"@,
        Tab::Transactions => "Transactions"@,
        Tab::AddExpense => "Add Expense"@,
        Tab::AddIncome => "Add Income"@,
        Tab::Report => "Report"@,
    }
}

/// The forward cycle from Home visits Transactions, AddExpense, AddIncome and
/// returns to Home without touching Report; the backward cycle from Home
/// visits Report, AddIncome, AddExpense, Transactions and returns to Home.
pub proof fn lemma_tab_cycle()
    ensures
        spec_next_tab(Tab::Home) == Tab::Transactions,
        spec_next_tab(Tab::Transactions) == Tab::AddExpense,
        spec_next_tab(Tab::AddExpense) == Tab::AddIncome,
        spec_next_tab(Tab::AddIncome) == Tab::Home,
        spec_previous_tab(Tab::Home) == Tab::Report,
        spec_previous_tab(Tab::Report) == Tab::AddIncome,
        spec_previous_tab(Tab::AddIncome) == Tab::AddExpense,
        spec_previous_tab(Tab::AddExpense) == Tab::Transactions,
        spec_previous_tab(Tab::Transactions) == Tab::Home,
{
}

/// Which bucket a submission is destined for.
#[derive(Clone, Copy, PartialEq, Eq, Structural, Debug)]
pub enum TransactionType {
    Expense,
    Income,
}

/// A key event, as the interactive loop hands it to the core.
#[derive(Clone, Copy, PartialEq, Eq, Structural, Debug)]
pub enum Key {
    NextTab,
    PrevTab,
    Esc,
    Up,
    Down,
    Enter,
    Backspace,
    Char(char),
}

/// One form field: its raw text, whether the user has touched it since the
/// last reset, and the annotation shown beside it.
pub struct Field {
    pub kind: FieldKind,
    pub text: String,
    pub modified: bool,
    pub note: Annotation,
}

/// A field as the form reset leaves it: empty, untouched, annotated with
/// the verdict on empty text.
pub open spec fn field_is_reset(f: Field, kind: FieldKind) -> bool {
    &&& f.kind == kind
    &&& f.text@.len() == 0
    &&& !f.modified
    &&& f.note == spec_verdict(kind, f.text@)
}

/// A fresh field of kind `kind`.
fn new_field(kind: FieldKind) -> (f: Field)
    ensures
        field_is_reset(f, kind),
{
    let text = String::new();
    let note = validate_field(kind, text.as_str());
    Field { kind, text, modified: false, note }
}

/// The text the field holds after `key` is applied to `text`: a printable
/// character is appended, a backspace removes the last character, and any
/// other key leaves the buffer alone.
pub open spec fn spec_edited_text(text: Seq<char>, key: Key) -> Seq<char> {
    match key {
        Key::Char(c) => text.push(c),
        Key::Backspace => if text.len() > 0 {
            text.drop_last()
        } else {
            text
        },
        _ => text,
    }
}

/// Whether `key` changes a buffer holding `text`.
pub open spec fn spec_edit_happens(text: Seq<char>, key: Key) -> bool {
    key is Char || (key is Backspace && text.len() > 0)
}

/// How one keystroke transforms a field: the buffer is edited, the field is
/// marked touched when the buffer changed, and the annotation is refreshed
/// only when the resulting buffer is non-empty.
pub open spec fn field_edited(old_f: Field, f: Field, key: Key) -> bool {
    let nt = spec_edited_text(old_f.text@, key);
    let happened = spec_edit_happens(old_f.text@, key);
    &&& f.kind == old_f.kind
    &&& f.text@ == nt
    &&& f.modified == (old_f.modified || happened)
    &&& f.note == (if happened && nt.len() > 0 {
        spec_verdict(old_f.kind, nt)
    } else {
        old_f.note
    })
}

/// Applies `key` to one field; returns whether the buffer changed.
fn edit_field(f: &mut Field, key: Key) -> (changed: bool)
    requires
        key is Char || key is Backspace,
    ensures
        field_edited(*old(f), *final(f), key),
        changed == spec_edit_happens(old(f).text@, key),
{
    match key {
        Key::Char(c) => {
            push_char(&mut f.text, c);
            f.modified = true;
            f.note = validate_field(f.kind, f.text.as_str());
            true
        },
        Key::Backspace => {
            let n = f.text.unicode_len();
            if n > 0 {
                let shorter = f.text.as_str().substring_char(0, n - 1).to_owned();
                proof {
                    assert(shorter@ =~= f.text@.drop_last());
                }
                f.text = shorter;
                f.modified = true;
                if n - 1 > 0 {
                    f.note = validate_field(f.kind, f.text.as_str());
                }
                true
            } else {
                false
            }
        },
        _ => false,
    }
}

/// A field after the submission pipeline re-ran its validator: untouched
/// fields keep their annotation, touched ones get a fresh verdict.
pub open spec fn field_revalidated(old_f: Field, f: Field) -> bool {
    &&& f.kind == old_f.kind
    &&& f.text == old_f.text
    &&& f.modified == old_f.modified
    &&& f.note == (if old_f.modified {
        spec_verdict(old_f.kind, old_f.text@)
    } else {
        old_f.note
    })
}

/// Re-runs the validator of a touched field.
fn revalidate_field(f: &mut Field) -> (pass: bool)
    ensures
        field_revalidated(*old(f), *final(f)),
        pass == (!old(f).modified || spec_field_valid(old(f).kind, old(f).text@)),
{
    if f.modified {
        let v = validate_field(f.kind, f.text.as_str());
        f.note = v;
        v == Annotation::Valid
    } else {
        true
    }
}

/// Whether a field lets a submission pass: it was never touched, or its
/// current text validates.
pub open spec fn field_passes(f: Field) -> bool {
    !f.modified || spec_field_valid(f.kind, f.text@)
}

/// The table selection and scroll offset after one step down: an absent
/// selection selects the first row; otherwise the selection advances by one
/// and the offset follows it exactly.
pub open spec fn spec_scroll_down(sel: Option<usize>, off: usize) -> (Option<usize>, usize) {
    match sel {
        Option::None => (Option::Some(0usize), 0usize),
        Option::Some(k) => {
            let k2: usize = if k == usize::MAX {
                k
            } else {
                (k + 1) as usize
            };
            (Option::Some(k2), k2)
        },
    }
}

/// The table selection and scroll offset after one step up: an absent
/// selection selects the first row; otherwise the selection retreats by one
/// and the offset becomes one less than the new selection, never negative.
pub open spec fn spec_scroll_up(sel: Option<usize>, off: usize) -> (Option<usize>, usize) {
    match sel {
        Option::None => (Option::Some(0usize), 0usize),
        Option::Some(k) => {
            let k2: usize = if k > 0 {
                (k - 1) as usize
            } else {
                0usize
            };
            (Option::Some(k2), if k2 > 0 {
                (k2 - 1) as usize
            } else {
                0usize
            })
        },
    }
}

/// The whole interactive state: current tab, working copy of the store,
/// the four form fields, focus, cursor blink, and table scroll position.
pub struct App {
    pub current_tab: Tab,
    pub tabs: Vec<Tab>,
    pub transactions: Transactions,
    pub amount_input: Field,
    pub category_input: Field,
    pub date_input: Field,
    pub description_input: Field,
    pub active_input: usize,
    pub cursor_visible: bool,
    pub last_tick: u64,
    pub transaction_type: TransactionType,
    pub expense_categories: Vec<String>,
    pub income_categories: Vec<String>,
    pub table_state: Option<usize>,
    pub vertical_scroll: usize,
}

/// The state invariant: the focus index is in range, each field carries its
/// own kind, and every stored transaction is well-formed.
pub open spec fn app_wf(a: App) -> bool {
    &&& a.active_input < 4
    &&& a.amount_input.kind == FieldKind::Amount
    &&& a.category_input.kind == FieldKind::Category
    &&& a.date_input.kind == FieldKind::DateField
    &&& a.description_input.kind == FieldKind::Description
    &&& transactions_v_wf(a.transactions@)
}

/// The form as a reset leaves it: all four fields fresh, focus on the first
/// field, cursor hidden with the tick timer restarted, and the table
/// selection cleared.
pub open spec fn form_is_reset(a: App, now_ms: u64) -> bool {
    &&& field_is_reset(a.amount_input, FieldKind::Amount)
    &&& field_is_reset(a.category_input, FieldKind::Category)
    &&& field_is_reset(a.date_input, FieldKind::DateField)
    &&& field_is_reset(a.description_input, FieldKind::Description)
    &&& a.active_input == 0
    &&& !a.cursor_visible
    &&& a.last_tick == now_ms
    &&& a.table_state is None
}

/// The parts no form event touches: the working data, the tab list, the
/// category lists, the destination marker, and the scroll offset.
pub open spec fn same_store(a: App, b: App) -> bool {
    &&& b.transactions == a.transactions
    &&& b.tabs == a.tabs
    &&& b.expense_categories == a.expense_categories
    &&& b.income_categories == a.income_categories
    &&& b.transaction_type == a.transaction_type
    &&& b.vertical_scroll == a.vertical_scroll
}

/// The cursor blink state, unchanged.
pub open spec fn same_cursor(a: App, b: App) -> bool {
    b.cursor_visible == a.cursor_visible && b.last_tick == a.last_tick
}

/// The table selection and scroll offset, unchanged.
pub open spec fn same_scroll(a: App, b: App) -> bool {
    b.table_state == a.table_state && b.vertical_scroll == a.vertical_scroll
}

/// The field currently receiving keystrokes.
pub open spec fn spec_active_field(a: App) -> Field {
    if a.active_input == 0 {
        a.amount_input
    } else if a.active_input == 1 {
        a.category_input
    } else if a.active_input == 2 {
        a.date_input
    } else {
        a.description_input
    }
}

/// One keystroke applied to the active field: that field is edited, the
/// others are untouched, and when the buffer changed the cursor is shown
/// and its timer restarted.
pub open spec fn form_edited(a: App, b: App, key: Key, now_ms: u64) -> bool {
    let happened = spec_edit_happens(spec_active_field(a).text@, key);
    &&& field_edited(spec_active_field(a), spec_active_field(b), key)
    &&& b.active_input == a.active_input
    &&& (a.active_input != 0 ==> b.amount_input == a.amount_input)
    &&& (a.active_input != 1 ==> b.category_input == a.category_input)
    &&& (a.active_input != 2 ==> b.date_input == a.date_input)
    &&& (a.active_input != 3 ==> b.description_input == a.description_input)
    &&& b.current_tab == a.current_tab
    &&& same_store(a, b)
    &&& same_scroll(a, b)
    &&& (if happened {
        b.cursor_visible && b.last_tick == now_ms
    } else {
        same_cursor(a, b)
    })
}

impl App {
    /// Builds the startup state from a loaded transaction set: Home tab,
    /// fresh form, no table selection, and the fixed category lists in
    /// place of whatever the file held.
    pub fn new(loaded: Transactions, now_ms: u64) -> (app: App)
        requires
            transactions_v_wf(loaded@),
        ensures
            app_wf(app),
            app.current_tab == Tab::Home,
            app.transactions@.expenses == loaded@.expenses,
            app.transactions@.income == loaded@.income,
            app.transactions@.expense_categories =~= spec_expense_categories(),
            app.transactions@.income_categories =~= spec_income_categories(),
            app.expense_categories@.map_values(|s: String| s@) =~= spec_expense_categories(),
            app.income_categories@.map_values(|s: String| s@) =~= spec_income_categories(),
            app.tabs@ =~= seq![Tab::Home, Tab::Transactions, Tab::AddExpense, Tab::AddIncome, Tab::Report],
            app.transaction_type == TransactionType::Expense,
            app.vertical_scroll == 0,
            form_is_reset(app, now_ms),
    {
        let mut tabs: Vec<Tab> = Vec::new();
        tabs.push(Tab::Home);
        tabs.push(Tab::Transactions);
        tabs.push(Tab::AddExpense);
        tabs.push(Tab::AddIncome);
        tabs.push(Tab::Report);
        let transactions = Transactions {
            expenses: loaded.expenses,
            income: loaded.income,
            expense_categories: default_expense_categories(),
            income_categories: default_income_categories(),
        };
        let app = App {
            current_tab: Tab::Home,
            tabs,
            transactions,
            amount_input: new_field(FieldKind::Amount),
            category_input: new_field(FieldKind::Category),
            date_input: new_field(FieldKind::DateField),
            description_input: new_field(FieldKind::Description),
            active_input: 0,
            cursor_visible: false,
            last_tick: now_ms,
            transaction_type: TransactionType::Expense,
            expense_categories: default_expense_categories(),
            income_categories: default_income_categories(),
            table_state: Option::None,
            vertical_scroll: 0,
        };
        proof {
            assert(app.transactions@.expenses =~= loaded@.expenses);
            assert(app.transactions@.income =~= loaded@.income);
        }
        app
    }

    /// Clears all four fields, refocuses the first, hides the cursor,
    /// restarts the tick timer, and drops the table selection.
    fn reset_inputs(&mut self, now_ms: u64)
        ensures
            form_is_reset(*final(self), now_ms),
            same_store(*old(self), *final(self)),
            final(self).current_tab == old(self).current_tab,
    {
        self.amount_input = new_field(FieldKind::Amount);
        self.category_input = new_field(FieldKind::Category);
        self.date_input = new_field(FieldKind::DateField);
        self.description_input = new_field(FieldKind::Description);
        self.active_input = 0;
        self.cursor_visible = false;
        self.last_tick = now_ms;
        self.table_state = Option::None;
    }

    /// Steps forward through the tab cycle and resets the form.
    pub fn next_tab(&mut self, now_ms: u64)
        requires
            app_wf(*old(self)),
        ensures
            app_wf(*final(self)),
            final(self).current_tab == spec_next_tab(old(self).current_tab),
            form_is_reset(*final(self), now_ms),
            same_store(*old(self), *final(self)),
    {
        self.current_tab = self.current_tab.next();
        self.reset_inputs(now_ms);
    }

    /// Steps backward through the tab cycle and resets the form.
    pub fn previous_tab(&mut self, now_ms: u64)
        requires
            app_wf(*old(self)),
        ensures
            app_wf(*final(self)),
            final(self).current_tab == spec_previous_tab(old(self).current_tab),
            form_is_reset(*final(self), now_ms),
            same_store(*old(self), *final(self)),
    {
        self.current_tab = self.current_tab.previous();
        self.reset_inputs(now_ms);
    }

    /// Moves the focus to the next field, wrapping after the last.
    pub fn next_input(&mut self)
        requires
            app_wf(*old(self)),
        ensures
            app_wf(*final(self)),
            final(self).active_input == (old(self).active_input + 1) % 4,
            *final(self) == (App { active_input: final(self).active_input, ..*old(self) }),
    {
        self.active_input = (self.active_input + 1) % 4;
    }

    /// Moves the focus to the previous field, wrapping before the first.
    pub fn previous_input(&mut self)
        requires
            app_wf(*old(self)),
        ensures
            app_wf(*final(self)),
            final(self).active_input == (old(self).active_input + 3) % 4,
            *final(self) == (App { active_input: final(self).active_input, ..*old(self) }),
    {
        self.active_input = (self.active_input + 3) % 4;
    }

    /// The field currently receiving keystrokes.
    pub fn get_active_textarea(&self) -> (f: &Field)
        requires
            app_wf(*self),
        ensures
            *f == spec_active_field(*self),
    {
        if self.active_input == 0 {
            &self.amount_input
        } else if self.active_input == 1 {
            &self.category_input
        } else if self.active_input == 2 {
            &self.date_input
        } else {
            &self.description_input
        }
    }

    /// Scrolls the transaction table one row down.
    pub fn table_scroll_down(&mut self)
        requires
            app_wf(*old(self)),
        ensures
            app_wf(*final(self)),
            (final(self).table_state, final(self).vertical_scroll) == spec_scroll_down(
                old(self).table_state,
                old(self).vertical_scroll,
            ),
            *final(self) == (App {
                table_state: final(self).table_state,
                vertical_scroll: final(self).vertical_scroll,
                ..*old(self)
            }),
    {
        match self.table_state {
            Option::None => {
                self.table_state = Option::Some(0);
                self.vertical_scroll = 0;
            },
            Option::Some(k) => {
                let k2: usize = if k == usize::MAX {
                    k
                } else {
                    k + 1
                };
                self.table_state = Option::Some(k2);
                self.vertical_scroll = k2;
            },
        }
    }

    /// Scrolls the transaction table one row up.
    pub fn table_scroll_up(&mut self)
        requires
            app_wf(*old(self)),
        ensures
            app_wf(*final(self)),
            (final(self).table_state, final(self).vertical_scroll) == spec_scroll_up(
                old(self).table_state,
                old(self).vertical_scroll,
            ),
            *final(self) == (App {
                table_state: final(self).table_state,
                vertical_scroll: final(self).vertical_scroll,
                ..*old(self)
            }),
    {
        match self.table_state {
            Option::None => {
                self.table_state = Option::Some(0);
                self.vertical_scroll = 0;
            },
            Option::Some(k) => {
                let k2: usize = if k > 0 {
                    k - 1
                } else {
                    0
                };
                self.table_state = Option::Some(k2);
                self.vertical_scroll = if k2 > 0 {
                    k2 - 1
                } else {
                    0
                };
            },
        }
    }

    /// Advances the cursor blink: when at least 150 milliseconds have
    /// passed since the last toggle, flips the cursor and restarts the
    /// timer; otherwise changes nothing.
    pub fn update_cursor(&mut self, now_ms: u64)
        requires
            app_wf(*old(self)),
            old(self).last_tick <= now_ms,
        ensures
            app_wf(*final(self)),
            now_ms - old(self).last_tick >= 150 ==> {
                &&& final(self).cursor_visible == !old(self).cursor_visible
                &&& final(self).last_tick == now_ms
                &&& *final(self) == (App {
                    cursor_visible: final(self).cursor_visible,
                    last_tick: final(self).last_tick,
                    ..*old(self)
                })
            },
            now_ms - old(self).last_tick < 150 ==> *final(self) == *old(self),
    {
        if now_ms - self.last_tick >= 150 {
            self.cursor_visible = !self.cursor_visible;
            self.last_tick = now_ms;
        }
    }

    /// Routes one keystroke to the active field's buffer.
    fn input_to_active_field(&mut self, key: Key, now_ms: u64)
        requires
            app_wf(*old(self)),
            key is Char || key is Backspace,
        ensures
            app_wf(*final(self)),
            form_edited(*old(self), *final(self), key, now_ms),
    {
        let changed: bool = if self.active_input == 0 {
            edit_field(&mut self.amount_input, key)
        } else if self.active_input == 1 {
            edit_field(&mut self.category_input, key)
        } else if self.active_input == 2 {
            edit_field(&mut self.date_input, key)
        } else {
            edit_field(&mut self.description_input, key)
        };
        if changed {
            self.cursor_visible = true;
            self.last_tick = now_ms;
        }
    }
}

/// What the interactive loop must do after one keystroke: nothing, stop, or
/// persist a prepared transaction to the durable store before the core will
/// commit it.
pub enum Effect {
    Nothing,
    Quit,
    Persist(Transaction),
}

/// The outcome of a submission attempt: blocked by a touched invalid field,
/// stopped because the amount or date text does not parse, or a transaction
/// ready to persist.
pub enum Prepared {
    Blocked,
    ParseFailed,
    Ready(Transaction),
}

/// Whether every field lets the submission pass: a field blocks only when
/// it was touched and its text does not validate.
pub open spec fn submission_gate(a: App) -> bool {
    &&& field_passes(a.amount_input)
    &&& field_passes(a.category_input)
    &&& field_passes(a.date_input)
    &&& field_passes(a.description_input)
}

/// Whether the amount and date buffers hold parseable text, the hard
/// precondition for building a transaction.
pub open spec fn submission_parses(a: App) -> bool {
    is_amount_text(a.amount_input.text@) && is_date_text(a.date_input.text@)
}

/// Whether a submission attempt yields a transaction.
pub open spec fn submission_ready(a: App) -> bool {
    submission_gate(a) && submission_parses(a)
}

/// The amount with its sign flipped; zero stays the canonical non-negative
/// zero.
pub open spec fn spec_negated(av: AmountV) -> AmountV {
    if av.digits =~= seq![0u8] {
        av
    } else {
        AmountV { negative: !av.negative, digits: av.digits, frac: av.frac }
    }
}

/// The transaction a submission builds: the parsed amount, negated for an
/// expense; the category resolved against the destination bucket's list
/// (with "Other" as the fallback); the parsed date; the raw description;
/// and an id one past the destination bucket's current length.
pub open spec fn spec_prepared_transaction(a: App) -> TransactionV {
    let parsed = spec_parse_amount(a.amount_input.text@)->Some_0;
    let expense = a.current_tab == Tab::AddExpense;
    TransactionV {
        id: if expense {
            (a.transactions@.expenses.len() + 1) as u32
        } else {
            (a.transactions@.income.len() + 1) as u32
        },
        amount: if expense {
            spec_negated(parsed)
        } else {
            parsed
        },
        category: spec_resolve_category(
            a.category_input.text@,
            if expense {
                a.expense_categories@.map_values(|s: String| s@)
            } else {
                a.income_categories@.map_values(|s: String| s@)
            },
        ),
        date: spec_date_of(a.date_input.text@),
        description: a.description_input.text@,
    }
}

/// The whole form after the submission pipeline re-ran the validators, with
/// everything else untouched.
pub open spec fn form_revalidated(a: App, b: App) -> bool {
    &&& field_revalidated(a.amount_input, b.amount_input)
    &&& field_revalidated(a.category_input, b.category_input)
    &&& field_revalidated(a.date_input, b.date_input)
    &&& field_revalidated(a.description_input, b.description_input)
    &&& b.active_input == a.active_input
    &&& b.current_tab == a.current_tab
    &&& same_store(a, b)
    &&& same_scroll(a, b)
    &&& same_cursor(a, b)
}

/// Flips the sign of a canonical amount; zero is left as is.
fn negate_amount(a: Amount) -> (r: Amount)
    requires
        amount_v_wf(a@),
    ensures
        amount_v_wf(r@),
        r@ == spec_negated(a@),
{
    if a.digits.len() == 1 && a.digits[0] == 0 {
        proof {
            assert(a.digits@ =~= seq![0u8]);
        }
        a
    } else {
        proof {
            assert(!(a.digits@ =~= seq![0u8]));
        }
        Amount { negative: !a.negative, digits: a.digits, frac: a.frac }
    }
}

/// Untouched fields never block a submission: when the amount field was
/// never touched and each touched field among the others holds acceptable
/// text, the validation step lets the submission through, no matter what
/// the amount buffer holds.
pub proof fn lemma_untouched_amount_does_not_block(a: App)
    requires
        !a.amount_input.modified,
        field_passes(a.category_input),
        field_passes(a.date_input),
        field_passes(a.description_input),
    ensures
        submission_gate(a),
{
}

impl App {
    /// Runs the submission pipeline up to, but not including, the durable
    /// write: re-validates touched fields, and either reports what blocks
    /// the submission or hands back the transaction to persist.
    pub fn prepare_submission(&mut self) -> (r: Prepared)
        requires
            app_wf(*old(self)),
            old(self).current_tab == Tab::AddExpense || old(self).current_tab == Tab::AddIncome,
            old(self).transactions.expenses@.len() < 0xffff_ffff,
            old(self).transactions.income@.len() < 0xffff_ffff,
        ensures
            app_wf(*final(self)),
            form_revalidated(*old(self), *final(self)),
            r is Blocked <==> !submission_gate(*old(self)),
            r is ParseFailed <==> submission_gate(*old(self)) && !submission_parses(*old(self)),
            r is Ready <==> submission_ready(*old(self)),
            r is Ready ==> r->Ready_0@ == spec_prepared_transaction(*old(self))
                && transaction_v_wf(r->Ready_0@),
    {
        let pass_amount = revalidate_field(&mut self.amount_input);
        let pass_category = revalidate_field(&mut self.category_input);
        let pass_date = revalidate_field(&mut self.date_input);
        let pass_description = revalidate_field(&mut self.description_input);
        if !pass_amount || !pass_category || !pass_date || !pass_description {
            return Prepared::Blocked;
        }
        let parsed_amount = match parse_amount(self.amount_input.text.as_str()) {
            Option::Some(a) => a,
            Option::None => {
                return Prepared::ParseFailed;
            },
        };
        let date = match parse_date(self.date_input.text.as_str()) {
            Option::Some(d) => d,
            Option::None => {
                return Prepared::ParseFailed;
            },
        };
        let expense = self.current_tab == Tab::AddExpense;
        let amount = if expense {
            negate_amount(parsed_amount)
        } else {
            parsed_amount
        };
        let category = if expense {
            resolve_category(self.category_input.text.as_str(), &self.expense_categories)
        } else {
            resolve_category(self.category_input.text.as_str(), &self.income_categories)
        };
        let id: u32 = if expense {
            self.transactions.expenses.len() as u32 + 1
        } else {
            self.transactions.income.len() as u32 + 1
        };
        let transaction = Transaction {
            id,
            amount,
            category,
            date,
            description: self.description_input.text.clone(),
        };
        Prepared::Ready(transaction)
    }

    /// Records a persisted transaction in the working copy, switches to the
    /// Transactions tab, and resets the form. Called only after the durable
    /// write has succeeded, so the in-memory and durable states never
    /// diverge.
    pub fn commit_submission(&mut self, transaction: Transaction, now_ms: u64)
        requires
            app_wf(*old(self)),
            old(self).current_tab == Tab::AddExpense || old(self).current_tab == Tab::AddIncome,
            transaction_v_wf(transaction@),
        ensures
            app_wf(*final(self)),
            old(self).current_tab == Tab::AddExpense ==> final(self).transactions@.expenses =~= old(self).transactions@.expenses.push(transaction@),
            old(self).current_tab == Tab::AddExpense ==> final(self).transactions@.income =~= old(self).transactions@.income,
            old(self).current_tab == Tab::AddIncome ==> final(self).transactions@.income =~= old(self).transactions@.income.push(transaction@),
            old(self).current_tab == Tab::AddIncome ==> final(self).transactions@.expenses =~= old(self).transactions@.expenses,
            final(self).transactions@.expense_categories =~= old(self).transactions@.expense_categories,
            final(self).transactions@.income_categories =~= old(self).transactions@.income_categories,
            final(self).current_tab == Tab::Transactions,
            form_is_reset(*final(self), now_ms),
            final(self).tabs == old(self).tabs,
            final(self).expense_categories == old(self).expense_categories,
            final(self).income_categories == old(self).income_categories,
            final(self).transaction_type == old(self).transaction_type,
            final(self).vertical_scroll == old(self).vertical_scroll,
    {
        if self.current_tab == Tab::AddExpense {
            self.transactions.expenses.push(transaction);
        } else {
            self.transactions.income.push(transaction);
        }
        proof {
            assert(self.transactions@.expenses =~= (if old(self).current_tab == Tab::AddExpense {
                old(self).transactions@.expenses.push(transaction@)
            } else {
                old(self).transactions@.expenses
            }));
            assert(self.transactions@.income =~= (if old(self).current_tab == Tab::AddExpense {
                old(self).transactions@.income
            } else {
                old(self).transactions@.income.push(transaction@)
            }));
        }
        self.current_tab = Tab::Transactions;
        self.reset_inputs(now_ms);
    }

    /// Routes one keystroke: tab cycling with a form reset, quit, table
    /// scrolling, field focus, buffer editing with per-keystroke
    /// validation, and the submission attempt on Enter.
    pub fn handle_key(&mut self, key: Key, now_ms: u64) -> (e: Effect)
        requires
            app_wf(*old(self)),
            old(self).transactions.expenses@.len() < 0xffff_ffff,
            old(self).transactions.income@.len() < 0xffff_ffff,
        ensures
            app_wf(*final(self)),
            match key {
                Key::NextTab => e is Nothing && final(self).current_tab == spec_next_tab(
                    old(self).current_tab,
                ) && form_is_reset(*final(self), now_ms) && same_store(*old(self), *final(self)),
                Key::PrevTab => e is Nothing && final(self).current_tab == spec_previous_tab(
                    old(self).current_tab,
                ) && form_is_reset(*final(self), now_ms) && same_store(*old(self), *final(self)),
                Key::Esc => e is Quit && *final(self) == *old(self),
                Key::Down => e is Nothing && match old(self).current_tab {
                    Tab::Transactions => (final(self).table_state, final(self).vertical_scroll)
                        == spec_scroll_down(old(self).table_state, old(self).vertical_scroll)
                        && *final(self) == (App {
                        table_state: final(self).table_state,
                        vertical_scroll: final(self).vertical_scroll,
                        ..*old(self)
                    }),
                    Tab::AddExpense | Tab::AddIncome => final(self).active_input == (old(self).active_input + 1) % 4 && *final(self) == (App {
                        active_input: final(self).active_input,
                        ..*old(self)
                    }),
                    _ => *final(self) == *old(self),
                },
                Key::Up => e is Nothing && match old(self).current_tab {
                    Tab::Transactions => (final(self).table_state, final(self).vertical_scroll)
                        == spec_scroll_up(old(self).table_state, old(self).vertical_scroll)
                        && *final(self) == (App {
                        table_state: final(self).table_state,
                        vertical_scroll: final(self).vertical_scroll,
                        ..*old(self)
                    }),
                    Tab::AddExpense | Tab::AddIncome => final(self).active_input == (old(self).active_input + 3) % 4 && *final(self) == (App {
                        active_input: final(self).active_input,
                        ..*old(self)
                    }),
                    _ => *final(self) == *old(self),
                },
                Key::Enter => match old(self).current_tab {
                    Tab::AddExpense | Tab::AddIncome => form_revalidated(
                        *old(self),
                        *final(self),
                    ) && !(e is Quit) && (e is Persist <==> submission_ready(*old(self))) && (
                    e is Persist ==> e->Persist_0@ == spec_prepared_transaction(*old(self))
                        && transaction_v_wf(e->Persist_0@)),
                    _ => e is Nothing && *final(self) == *old(self),
                },
                Key::Char(_) | Key::Backspace => e is Nothing && match old(self).current_tab {
                    Tab::Transactions | Tab::AddExpense | Tab::AddIncome => form_edited(
                        *old(self),
                        *final(self),
                        key,
                        now_ms,
                    ),
                    _ => *final(self) == *old(self),
                },
            },
    {
        match key {
            Key::NextTab => {
                self.next_tab(now_ms);
                Effect::Nothing
            },
            Key::PrevTab => {
                self.previous_tab(now_ms);
                Effect::Nothing
            },
            Key::Esc => Effect::Quit,
            Key::Down => {
                match self.current_tab {
                    Tab::Transactions => self.table_scroll_down(),
                    Tab::AddExpense | Tab::AddIncome => self.next_input(),
                    _ => {},
                }
                Effect::Nothing
            },
            Key::Up => {
                match self.current_tab {
                    Tab::Transactions => self.table_scroll_up(),
                    Tab::AddExpense | Tab::AddIncome => self.previous_input(),
                    _ => {},
                }
                Effect::Nothing
            },
            Key::Enter => {
                match self.current_tab {
                    Tab::AddExpense | Tab::AddIncome => {
                        match self.prepare_submission() {
                            Prepared::Ready(t) => Effect::Persist(t),
                            _ => Effect::Nothing,
                        }
                    },
                    _ => Effect::Nothing,
                }
            },
            Key::Char(_) | Key::Backspace => {
                match self.current_tab {
                    Tab::Transactions | Tab::AddExpense | Tab::AddIncome => {
                        self.input_to_active_field(key, now_ms);
                    },
                    _ => {},
                }
                Effect::Nothing
            },
        }
    }
}

} // verus!
