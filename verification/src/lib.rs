//! The logic of a coffee-break terminal companion: the command vocabulary of
//! its prompt, the notes it remembers, the project summary it computes for a
//! directory tree, the confirmation it asks before destructive shell
//! commands, and the schedule and texts of its reminders.
//!
//! Nothing here reads or writes a file, runs a process or sleeps. Each part
//! takes what was read as plain values and returns what is to be done.

pub mod command;
pub mod text;
pub mod memory;
pub mod insight;
pub mod walker;
pub mod report;
pub mod shell;
pub mod notification;
pub mod coffee;
pub mod watcher;
