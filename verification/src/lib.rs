//! An in-memory task repository for a chat-driven to-do tracker.
//!
//! Tasks are keyed by a monotonically allocated identifier, scoped to the
//! chat they belong to, carry a lifecycle state and an optional due date,
//! and persist themselves as one JSON document.
//!
//! The repository is a plain value meant to live behind one
//! mutual-exclusion lock (or a single owning thread): every operation
//! takes `&self` or `&mut self`, so whoever holds the handle covers the
//! whole read-modify-write sequence of an edit, including the save that
//! should follow every mutating command.

pub mod codec;
pub mod commands;
pub mod date;
pub mod errors;
pub mod json;
pub mod note;
pub mod notes;
pub mod strs;
pub mod task;
pub mod todo_list;
