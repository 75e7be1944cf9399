//! A progress tree whose state can be captured as a snapshot, restored from one, and merged
//! monotonically with one.

pub mod messages;
pub mod progress;
pub mod text;
pub mod time;
pub mod tree;
pub mod unit;
