//! Task state and task settings.

pub mod builder;
pub mod join_set;
pub mod state;
pub mod task_handle;
pub mod yield_now;

pub use builder::{PriorityLevel, TaskBuilder};
