//! Errors of the channels.
use vstd::prelude::*;

verus! {

/// Why a value could not be sent; the value is handed back.
#[derive(Debug, Eq, PartialEq)]
pub enum SendError<T> {
    /// The channel is full.
    Full(T),
    /// The channel is closed.
    Closed(T),
    /// The send did not finish in time.
    TimeOut(T),
}

impl<T> SendError<T> {
    /// The error's message.
    pub fn as_str(&self) -> (r: &'static str)
        ensures
            self is Full ==> r@ == "channel is full"@,
            self is Closed ==> r@ == "channel is closed"@,
            self is TimeOut ==> r@ == "channel sending timeout"@,
    {
        match self {
            SendError::Full(_) => "channel is full",
            SendError::Closed(_) => "channel is closed",
            SendError::TimeOut(_) => "channel sending timeout",
        }
    }
}

/// Why no value could be received.
#[derive(Debug, Eq, PartialEq, Clone, Copy, Structural)]
pub enum RecvError {
    /// The channel holds no value.
    Empty,
    /// The channel is closed.
    Closed,
    /// The receive did not finish in time.
    TimeOut,
}

impl RecvError {
    /// The error's message.
    pub fn as_str(&self) -> (r: &'static str)
        ensures
            *self is Empty ==> r@ == "channel is empty"@,
            *self is Closed ==> r@ == "channel is closed"@,
            *self is TimeOut ==> r@ == "channel receiving timeout"@,
    {
        match self {
            RecvError::Empty => "channel is empty",
            RecvError::Closed => "channel is closed",
            RecvError::TimeOut => "channel receiving timeout",
        }
    }
}

} // verus!
