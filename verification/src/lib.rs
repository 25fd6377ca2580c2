//! Verified core of an asynchronous runtime's data structures and state machines.

pub mod error;
pub mod net;
pub mod schedule_io;
pub mod select;
pub mod sync;
pub mod task;
pub mod time;
pub mod util;
