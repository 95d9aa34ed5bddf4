//! A store of tasks and the rules of their lives: tasks with a time window,
//! the reminders that precede their start and end, their completion, and
//! the successor that a recurring task leaves behind.
//!
//! The library decides and never waits: it takes the time as an argument
//! and hands back what is to be done next, a wait, a notification, a file
//! to write. Whoever owns the clock and the disk does it.
//!
//! - [`time`]: instants and spans, and their RFC 3339 text.
//! - [`task`]: a task, its edits and its successor.
//! - [`store`]: the store, by way of [`state`], its mathematical model.
//! - [`scheduler`]: the reminders of one task, step by step.
//! - [`record`]: the text form of tasks, written and read back.
//! - [`export`]: the layout of the printed list.
//! - [`text`]: characters and decimal notation.

pub mod error;
pub mod export;
pub mod record;
pub mod scheduler;
pub mod state;
pub mod store;
pub mod task;
pub mod text;
pub mod time;
