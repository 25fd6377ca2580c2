//! Readiness of I/O sources, and the list of tasks that wait on one.
pub mod linked_list;
pub mod ready;

pub use linked_list::LinkedList;
pub use ready::{Interest, Ready, ReadyEvent};
