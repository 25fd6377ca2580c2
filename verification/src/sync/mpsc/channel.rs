//! The sender count of a channel: the channel closes when its last sender goes.
use crate::sync::mpsc::array::Array;
use crate::sync::mpsc::queue::Queue;
use vstd::prelude::*;

verus! {

/// A buffer that can be closed to senders.
pub trait Container {
    /// The buffer is consistent.
    spec fn ok(&self) -> bool;

    /// Whether the buffer is closed to senders.
    spec fn is_closed(&self) -> bool;

    /// Closes the buffer to senders.
    fn close(&mut self)
        requires
            old(self).ok(),
        ensures
            final(self).ok(),
            final(self).is_closed(),
    ;

    /// Whether the buffer is closed to senders.
    fn is_close(&self) -> (r: bool)
        ensures
            r == self.is_closed(),
    ;
}

impl<T> Container for Queue<T> {
    open spec fn ok(&self) -> bool {
        self.wf()
    }

    open spec fn is_closed(&self) -> bool {
        self.closed()
    }

    fn close(&mut self) {
        Queue::close(self)
    }

    fn is_close(&self) -> (r: bool) {
        Queue::is_close(self)
    }
}

impl<T> Container for Array<T> {
    open spec fn ok(&self) -> bool {
        self.wf()
    }

    open spec fn is_closed(&self) -> bool {
        self.closed()
    }

    fn close(&mut self) {
        Array::close(self)
    }

    fn is_close(&self) -> (r: bool) {
        Array::is_close(self)
    }
}

/// A buffer shared by a number of senders and one receiver.
pub struct Channel<C> {
    chan: C,
    tx_cnt: usize,
}

impl<C: Container> Channel<C> {
    /// The buffer.
    pub closed spec fn container(self) -> C {
        self.chan
    }

    /// The number of senders.
    pub closed spec fn senders(self) -> nat {
        self.tx_cnt as nat
    }

    /// A channel over `chan` with one sender.
    pub fn new(chan: C) -> (c: Channel<C>)
        ensures
            c.container() == chan,
            c.senders() == 1,
    {
        Channel { chan, tx_cnt: 1 }
    }

    /// Counts one more sender.
    pub fn add_sender(&mut self)
        requires
            old(self).senders() < usize::MAX,
        ensures
            final(self).senders() == old(self).senders() + 1,
            final(self).container() == old(self).container(),
    {
        self.tx_cnt = self.tx_cnt + 1;
    }

    /// Counts one sender less; when it was the last one, the buffer is closed.
    pub fn close_sender(&mut self)
        requires
            old(self).senders() > 0,
            old(self).container().ok(),
        ensures
            final(self).senders() == old(self).senders() - 1,
            final(self).container().ok(),
            old(self).senders() == 1 ==> final(self).container().is_closed(),
            old(self).senders() > 1 ==> final(self).container() == old(self).container(),
    {
        let prev = self.tx_cnt;
        self.tx_cnt = prev - 1;
        if prev == 1 {
            self.chan.close();
        }
    }

    /// Closes the buffer on behalf of the receiver.
    pub fn close_receiver(&mut self)
        requires
            old(self).container().ok(),
        ensures
            final(self).container().ok(),
            final(self).container().is_closed(),
            final(self).senders() == old(self).senders(),
    {
        self.chan.close();
    }

    /// The buffer.
    pub fn get(&self) -> (r: &C)
        ensures
            *r == self.container(),
    {
        &self.chan
    }

    /// The buffer, to be changed.
    pub fn get_mut(&mut self) -> (r: &mut C)
        ensures
            *r == old(self).container(),
            final(self).container() == *final(r),
            final(self).senders() == old(self).senders(),
    {
        &mut self.chan
    }
}

} // verus!
