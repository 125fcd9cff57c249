//! A verified single-user task tracker: an in-memory list of to-do items
//! with add/remove/update/complete operations, a stable save-time sort by
//! date, and a JSON codec for the backing file.

pub mod cli;
pub mod clock;
pub mod codec;
pub mod error;
pub mod laws;
pub mod sort;
pub mod strings;
pub mod task;
pub mod todo_list;
