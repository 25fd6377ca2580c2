//! The unbounded queue behind an unbounded channel.
//!
//! Values are kept in blocks of `CAPACITY` nodes. Positions are counted by a
//! head index and a tail index in which every block takes `CAPACITY + 1`
//! positions: the last one of each block is never filled, and both indices skip
//! it. The tail index is stored shifted left by one, with the closed flag in its
//! lowest bit.
use crate::sync::error::{RecvError, SendError};
use std::collections::VecDeque;
use vstd::prelude::*;

verus! {

/// The number of nodes in a block.
pub const CAPACITY: usize = 32;

/// The number of values that fill the positions below index `i`.
pub open spec fn count_below(i: int) -> int {
    i - i / 33
}

/// Stepping an index past one value moves it one position, or two at the end
/// of a block, and never onto a block's unused last position.
proof fn lemma_index_step(i: int)
    requires
        i >= 0,
        i % 33 != 32,
    ensures
        ({
            let next = if i % 33 == 31 {
                i + 2
            } else {
                i + 1
            };
            next % 33 != 32 && count_below(next) == count_below(i) + 1
        }),
        i <= 2 * count_below(i),
{
}

/// An unbounded first-in first-out queue that can be closed to senders.
pub struct Queue<T> {
    items: VecDeque<T>,
    head: usize,
    tail: usize,
}

impl<T> Queue<T> {
    /// The values in the queue, oldest first.
    pub closed spec fn contents(self) -> Seq<T> {
        self.items@
    }

    /// Whether the queue is closed to senders.
    pub closed spec fn closed(self) -> bool {
        self.tail % 2 == 1
    }

    /// The number of values ever sent.
    pub closed spec fn sent(self) -> int {
        count_below(self.tail as int / 2)
    }

    /// The number of values ever received.
    pub closed spec fn received(self) -> int {
        count_below(self.head as int)
    }

    /// The queue is consistent: neither index stands on a block's unused last
    /// position, the head is not past the tail, and the values between them
    /// are those in the queue.
    pub closed spec fn wf(self) -> bool {
        &&& (self.tail / 2) % 33 != 32
        &&& self.head % 33 != 32
        &&& self.head <= self.tail / 2
        &&& self.items@.len() == self.sent() - self.received()
    }

    /// The length of a queue is the number of values sent into it, less the
    /// number received from it: each successful `send` adds one, each
    /// successful `try_recv` takes one, starting from zero at `new`.
    pub proof fn lemma_len_is_sent_less_received(self)
        requires
            self.wf(),
        ensures
            self.contents().len() == self.sent() - self.received(),
            self.received() <= self.sent(),
    {
    }

    /// An empty, open queue.
    pub fn new() -> (q: Queue<T>)
        ensures
            q.wf(),
            q.contents() == Seq::<T>::empty(),
            !q.closed(),
            q.sent() == 0,
            q.received() == 0,
    {
        Queue { items: VecDeque::new(), head: 0, tail: 0 }
    }

    /// Appends a value; fails with `Closed`, handing the value back, when the
    /// queue is closed.
    #[verifier::rlimit(30)]
    pub fn send(&mut self, value: T) -> (r: Result<(), SendError<T>>)
        requires
            old(self).wf(),
            old(self).sent() < usize::MAX / 4,
        ensures
            final(self).wf(),
            final(self).closed() == old(self).closed(),
            final(self).received() == old(self).received(),
            old(self).closed() ==> r == Err::<(), SendError<T>>(SendError::Closed(value))
                && final(self).contents() == old(self).contents() && final(self).sent() == old(self).sent(),
            !old(self).closed() ==> r is Ok && final(self).contents() == old(self).contents().push(
                value,
            ) && final(self).sent() == old(self).sent() + 1,
    {
        let tail = self.tail;
        proof {
            assert(tail & 1 == 1 <==> tail % 2 == 1) by (bit_vector);
            assert(tail >> 1 == tail / 2) by (bit_vector);
        }
        if tail & 1 == 1 {
            return Err(SendError::Closed(value));
        }
        let index = (tail >> 1) % (CAPACITY + 1);
        proof {
            lemma_index_step(tail as int / 2);
        }
        let mut next = tail + 2;
        if index + 1 == CAPACITY {
            next = next + 2;
        }
        self.tail = next;
        self.items.push_back(value);
        Ok(())
    }

    /// Takes the oldest value; fails with `Closed` when the queue is empty and
    /// closed, and with `Empty` when it is empty and open.
    pub fn try_recv(&mut self) -> (r: Result<T, RecvError>)
        requires
            old(self).wf(),
        ensures
            final(self).wf(),
            final(self).closed() == old(self).closed(),
            final(self).sent() == old(self).sent(),
            old(self).contents().len() > 0 ==> r == Ok::<T, RecvError>(old(self).contents()[0])
                && final(self).contents() == old(self).contents().drop_first() && final(self).received() == old(self).received() + 1,
            old(self).contents().len() == 0 ==> final(self).contents() == old(self).contents()
                && final(self).received() == old(self).received() && r == Err::<T, RecvError>(
                if old(self).closed() {
                    RecvError::Closed
                } else {
                    RecvError::Empty
                },
            ),
    {
        match self.items.pop_front() {
            Some(value) => {
                let head = self.head;
                proof {
                    lemma_index_step(head as int);
                }
                let index = head % (CAPACITY + 1);
                if index + 1 == CAPACITY {
                    self.head = head + 2;
                } else {
                    self.head = head + 1;
                }
                Ok(value)
            },
            None => {
                let tail = self.tail;
                proof {
                    assert(tail & 1 == 1 <==> tail % 2 == 1) by (bit_vector);
                }
                if tail & 1 == 1 {
                    Err(RecvError::Closed)
                } else {
                    Err(RecvError::Empty)
                }
            },
        }
    }

    /// Closes the queue to senders; the values in it can still be received.
    pub fn close(&mut self)
        requires
            old(self).wf(),
        ensures
            final(self).wf(),
            final(self).closed(),
            final(self).contents() == old(self).contents(),
            final(self).sent() == old(self).sent(),
            final(self).received() == old(self).received(),
    {
        proof {
            let t = self.tail;
            assert((t | 1) == (if t % 2 == 0 {
                (t + 1) as usize
            } else {
                t
            })) by (bit_vector);
        }
        self.tail = self.tail | 1;
    }

    /// Whether the queue is closed to senders.
    pub fn is_close(&self) -> (r: bool)
        ensures
            r == self.closed(),
    {
        proof {
            let t = self.tail;
            assert(t & 1 == 1 <==> t % 2 == 1) by (bit_vector);
        }
        self.tail & 1 == 1
    }

    /// The number of values in the queue, worked out from the two indices.
    pub fn len(&self) -> (r: usize)
        requires
            self.wf(),
        ensures
            r == self.contents().len(),
    {
        let head = self.head;
        let mut tail = self.tail >> 1;
        proof {
            let t = self.tail;
            assert(t >> 1 == t / 2) by (bit_vector);
        }
        if tail % (CAPACITY + 1) == CAPACITY {
            tail = tail + 1;
        }
        let head_redundant = head / (CAPACITY + 1);
        let tail_redundant = tail / (CAPACITY + 1);
        proof {
            assert(head_redundant <= tail_redundant) by (nonlinear_arith)
                requires
                    head <= tail,
                    head_redundant == head / 33,
                    tail_redundant == tail / 33,
            ;
            assert(tail_redundant - head_redundant <= tail - head) by (nonlinear_arith)
                requires
                    head <= tail,
                    head_redundant == head / 33,
                    tail_redundant == tail / 33,
            ;
        }
        tail - head - (tail_redundant - head_redundant)
    }
}

} // verus!
