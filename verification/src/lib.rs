//! Core of a single-user terminal finance tracker: tab navigation, form
//! validation, table scrolling, transaction submission, and the persisted
//! document format. All state transitions are pure functions of the previous
//! state and an input event; rendering and file handling live outside.

pub mod app;
pub mod amount;
pub mod codec;
pub mod data;
pub mod date;
pub mod text;
pub mod validate;
