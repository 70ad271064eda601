//! An in-memory task-list manager: a store of named tasks with completion
//! flags, and a line-oriented command dispatcher that drives it.

pub mod store;
pub mod parse;
pub mod dispatch;
