//! The state of a one-shot channel, which carries a single value from one
//! sender to one receiver.
use crate::sync::error::RecvError;
use vstd::prelude::*;

verus! {

/// Nothing was sent, and the receiver is open.
pub const INIT: usize = 0b00;
/// The sender sent a value, or went away.
pub const SENT: usize = 0b01;
/// The receiver took the value, or closed the channel.
pub const CLOSED: usize = 0b10;

/// The shared state of a one-shot channel.
pub struct Channel<T> {
    state: usize,
    value: Option<T>,
}

impl<T> Channel<T> {
    /// The channel's state: `INIT`, `SENT` or `CLOSED`.
    pub closed spec fn state(self) -> usize {
        self.state
    }

    /// The value waiting to be received.
    pub closed spec fn value(self) -> Option<T> {
        self.value
    }

    /// The channel is in one of its three states, and holds a value only when
    /// one was sent and not yet received.
    pub closed spec fn wf(self) -> bool {
        &&& self.state == INIT || self.state == SENT || self.state == CLOSED
        &&& self.state != SENT ==> self.value is None
    }

    /// A new channel.
    pub fn new() -> (c: Channel<T>)
        ensures
            c.wf(),
            c.state() == INIT,
            c.value() is None,
    {
        Channel { state: INIT, value: None }
    }

    /// The sender sends `value`: it is stored for the receiver, unless the
    /// receiver has closed the channel, in which case it is handed back.
    pub fn send(&mut self, value: T) -> (r: Result<(), T>)
        requires
            old(self).wf(),
            old(self).state() != SENT,
        ensures
            final(self).wf(),
            old(self).state() == INIT ==> r is Ok && final(self).state() == SENT && final(self).value() == Some(value),
            old(self).state() == CLOSED ==> r == Err::<(), T>(value) && final(self).state()
                == CLOSED && final(self).value() is None,
    {
        self.value = Some(value);
        if self.state == INIT {
            self.state = SENT;
            Ok(())
        } else {
            let v = self.value.take();
            Err(v.unwrap())
        }
    }

    /// Whether the receiver has taken the value or closed the channel.
    pub fn is_closed(&self) -> (r: bool)
        ensures
            r == (self.state() == CLOSED),
    {
        self.state == CLOSED
    }

    /// The sender goes away; returns whether the receiver has to be woken.
    pub fn drop_sender(&mut self) -> (wake: bool)
        requires
            old(self).wf(),
        ensures
            final(self).wf(),
            wake == (old(self).state() == INIT),
            final(self).state() == SENT,
            final(self).value() == old(self).value(),
    {
        let prev = self.state;
        self.state = SENT;
        prev == INIT
    }

    fn take_value_sent(&mut self) -> (r: Result<T, RecvError>)
        requires
            old(self).wf(),
            old(self).state() == SENT,
        ensures
            final(self).wf(),
            final(self).value() is None,
            old(self).value() matches Some(v) ==> r == Ok::<T, RecvError>(v) && final(self).state()
                == CLOSED,
            old(self).value() is None ==> r == Err::<T, RecvError>(RecvError::Closed) && final(self).state() == SENT,
    {
        match self.value.take() {
            Some(val) => {
                self.state = CLOSED;
                Ok(val)
            },
            None => Err(RecvError::Closed),
        }
    }

    /// The receiver takes the value without waiting: `Empty` while nothing was
    /// sent, the value once it was, and `Closed` after that or when the sender
    /// went away without sending.
    pub fn try_recv(&mut self) -> (r: Result<T, RecvError>)
        requires
            old(self).wf(),
        ensures
            final(self).wf(),
            final(self).value() is None,
            old(self).state() == INIT ==> r == Err::<T, RecvError>(RecvError::Empty) && final(self).state() == INIT,
            old(self).state() == SENT ==> (old(self).value() matches Some(v) ==> r == Ok::<
                T,
                RecvError,
            >(v) && final(self).state() == CLOSED) && (old(self).value() is None ==> r == Err::<
                T,
                RecvError,
            >(RecvError::Closed) && final(self).state() == SENT),
            old(self).state() == CLOSED ==> r == Err::<T, RecvError>(RecvError::Closed) && final(self).state() == CLOSED,
    {
        if self.state == INIT {
            Err(RecvError::Empty)
        } else if self.state == SENT {
            self.take_value_sent()
        } else {
            Err(RecvError::Closed)
        }
    }

    /// One poll of the receiver waiting for the value: `None` means that
    /// nothing was sent yet and the receiver's waker has to be registered;
    /// otherwise the outcome is that of `try_recv`.
    pub fn poll_recv(&mut self) -> (r: Option<Result<T, RecvError>>)
        requires
            old(self).wf(),
        ensures
            final(self).wf(),
            old(self).state() == INIT ==> r is None && *final(self) == *old(self),
            old(self).state() == SENT ==> (old(self).value() matches Some(v) ==> r == Some(
                Ok::<T, RecvError>(v),
            ) && final(self).state() == CLOSED) && (old(self).value() is None ==> r == Some(
                Err::<T, RecvError>(RecvError::Closed),
            ) && final(self).state() == SENT),
            old(self).state() == CLOSED ==> r == Some(Err::<T, RecvError>(RecvError::Closed))
                && final(self).state() == CLOSED,
    {
        if self.state == INIT {
            None
        } else if self.state == SENT {
            Some(self.take_value_sent())
        } else {
            Some(Err(RecvError::Closed))
        }
    }

    /// The receiver closes the channel; a value already sent stays receivable.
    pub fn close(&mut self)
        requires
            old(self).wf(),
        ensures
            final(self).wf(),
            final(self).value() == old(self).value(),
            old(self).state() == INIT ==> final(self).state() == CLOSED,
            old(self).state() != INIT ==> final(self).state() == old(self).state(),
    {
        if self.state == INIT {
            self.state = CLOSED;
        }
    }
}

} // verus!
