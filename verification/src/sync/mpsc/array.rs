//! The bounded buffer behind a bounded channel.
use crate::sync::error::{RecvError, SendError};
use std::collections::VecDeque;
use vstd::prelude::*;

verus! {

/// A first-in first-out buffer of fixed capacity that can be closed to senders.
pub struct Array<T> {
    items: VecDeque<T>,
    capacity: usize,
    closed: bool,
}

impl<T> Array<T> {
    /// The values in the buffer, oldest first.
    pub closed spec fn contents(self) -> Seq<T> {
        self.items@
    }

    /// Whether the buffer is closed to senders.
    pub closed spec fn closed(self) -> bool {
        self.closed
    }

    /// The most values the buffer holds.
    pub closed spec fn cap(self) -> nat {
        self.capacity as nat
    }

    /// The buffer holds no more values than its capacity.
    pub closed spec fn wf(self) -> bool {
        self.items@.len() <= self.capacity
    }

    /// An empty, open buffer for `capacity` values.
    pub fn new(capacity: usize) -> (a: Array<T>)
        requires
            capacity > 0,
        ensures
            a.wf(),
            a.contents() == Seq::<T>::empty(),
            !a.closed(),
            a.cap() == capacity,
    {
        Array { items: VecDeque::new(), capacity, closed: false }
    }

    /// Appends a value without waiting; fails with `Closed` when the buffer is
    /// closed and with `Full` when it is full, handing the value back.
    pub fn try_send(&mut self, value: T) -> (r: Result<(), SendError<T>>)
        requires
            old(self).wf(),
        ensures
            final(self).wf(),
            final(self).closed() == old(self).closed(),
            final(self).cap() == old(self).cap(),
            old(self).closed() ==> r == Err::<(), SendError<T>>(SendError::Closed(value))
                && final(self).contents() == old(self).contents(),
            !old(self).closed() && old(self).contents().len() == old(self).cap() ==> r == Err::<
                (),
                SendError<T>,
            >(SendError::Full(value)) && final(self).contents() == old(self).contents(),
            !old(self).closed() && old(self).contents().len() < old(self).cap() ==> r is Ok
                && final(self).contents() == old(self).contents().push(value),
    {
        if self.closed {
            return Err(SendError::Closed(value));
        }
        if self.items.len() >= self.capacity {
            return Err(SendError::Full(value));
        }
        self.items.push_back(value);
        Ok(())
    }

    /// Takes the oldest value; fails with `Closed` when the buffer is empty and
    /// closed, and with `Empty` when it is empty and open.
    pub fn try_recv(&mut self) -> (r: Result<T, RecvError>)
        requires
            old(self).wf(),
        ensures
            final(self).wf(),
            final(self).closed() == old(self).closed(),
            final(self).cap() == old(self).cap(),
            old(self).contents().len() > 0 ==> r == Ok::<T, RecvError>(old(self).contents()[0])
                && final(self).contents() == old(self).contents().drop_first(),
            old(self).contents().len() == 0 ==> final(self).contents() == old(self).contents()
                && r == Err::<T, RecvError>(
                if old(self).closed() {
                    RecvError::Closed
                } else {
                    RecvError::Empty
                },
            ),
    {
        match self.items.pop_front() {
            Some(value) => Ok(value),
            None => {
                if self.closed {
                    Err(RecvError::Closed)
                } else {
                    Err(RecvError::Empty)
                }
            },
        }
    }

    /// Closes the buffer to senders; the values in it can still be received.
    pub fn close(&mut self)
        requires
            old(self).wf(),
        ensures
            final(self).wf(),
            final(self).closed(),
            final(self).contents() == old(self).contents(),
            final(self).cap() == old(self).cap(),
    {
        self.closed = true;
    }

    /// Whether the buffer is closed to senders.
    pub fn is_close(&self) -> (r: bool)
        ensures
            r == self.closed(),
    {
        self.closed
    }

    /// The number of values in the buffer.
    pub fn len(&self) -> (r: usize)
        ensures
            r == self.contents().len(),
    {
        self.items.len()
    }

    /// The most values the buffer holds.
    pub fn capacity(&self) -> (r: usize)
        ensures
            r == self.cap(),
    {
        self.capacity
    }
}

} // verus!
