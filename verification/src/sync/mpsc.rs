//! The containers behind the message-passing channels.

pub mod array;
pub mod channel;
pub mod queue;
