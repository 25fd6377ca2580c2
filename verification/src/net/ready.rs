//! Readiness bits of an I/O source, and the interests that tasks wait with.
use vstd::prelude::*;

verus! {

/// The source can be read.
pub const READABLE: usize = 0b0001;
/// The source can be written.
pub const WRITABLE: usize = 0b0010;
/// The read side of the source is closed.
pub const READ_CLOSED: usize = 0b0100;
/// The write side of the source is closed.
pub const WRITE_CLOSED: usize = 0b1000;
/// Every readiness bit.
pub const ALL: usize = 0b1111;

/// The kinds of readiness that a task waits for: readable, writable, or both.
#[derive(Debug, Clone, Copy, PartialEq, Eq, Structural)]
pub struct Interest {
    bits: u8,
}

impl View for Interest {
    type V = u8;

    closed spec fn view(&self) -> u8 {
        self.bits
    }
}

impl Interest {
    /// Waits for the source to be readable.
    pub fn readable() -> (i: Interest)
        ensures
            i@ == 1,
    {
        Interest { bits: 1 }
    }

    /// Waits for the source to be writable.
    pub fn writable() -> (i: Interest)
        ensures
            i@ == 2,
    {
        Interest { bits: 2 }
    }

    /// Waits for both kinds of readiness of `self` and `other`.
    pub fn add(self, other: Interest) -> (i: Interest)
        requires
            1 <= self@ <= 3,
            1 <= other@ <= 3,
        ensures
            i@ == self@ | other@,
            1 <= i@ <= 3,
    {
        let a = self.bits;
        let b = other.bits;
        assert(1 <= (a | b) <= 3) by (bit_vector)
            requires
                1 <= a <= 3,
                1 <= b <= 3,
        ;
        Interest { bits: self.bits | other.bits }
    }

    /// Whether it waits for readability.
    pub fn is_readable(&self) -> (r: bool)
        ensures
            r == (self@ & 1 != 0),
    {
        self.bits & 1 != 0
    }

    /// Whether it waits for writability.
    pub fn is_writable(&self) -> (r: bool)
        ensures
            r == (self@ & 2 != 0),
    {
        self.bits & 2 != 0
    }
}

/// The readiness bits of a source, below `ALL`.
#[derive(Debug, Clone, Copy, PartialEq, Eq, Structural)]
pub struct Ready(usize);

impl View for Ready {
    type V = usize;

    closed spec fn view(&self) -> usize {
        self.0
    }
}

/// The readiness that an interest is satisfied by: readable or read-closed
/// for readability, writable or write-closed for writability.
pub open spec fn interest_bits(interest: u8) -> usize {
    if interest & 1 != 0 && interest & 2 != 0 {
        ALL
    } else if interest & 1 != 0 {
        5
    } else if interest & 2 != 0 {
        10
    } else {
        0
    }
}

/// The bits that `from_interest` puts together.
proof fn lemma_interest_or()
    by (bit_vector)
    ensures
        (0usize | 1usize) | 4usize == 5usize,
        (0usize | 2usize) | 8usize == 10usize,
        (5usize | 2usize) | 8usize == 15usize,
{
}

impl Ready {
    /// No readiness.
    pub fn empty() -> (r: Ready)
        ensures
            r@ == 0,
    {
        Ready(0)
    }

    /// Every readiness bit.
    pub fn all() -> (r: Ready)
        ensures
            r@ == ALL,
    {
        Ready(ALL)
    }

    /// Just the bit `bit`, one of the four readiness bits.
    pub fn from_bit(bit: usize) -> (r: Ready)
        requires
            bit == READABLE || bit == WRITABLE || bit == READ_CLOSED || bit == WRITE_CLOSED,
        ensures
            r@ == bit,
    {
        Ready(bit)
    }

    /// The readiness bits of `val`; the other bits are dropped.
    pub fn from_usize(val: usize) -> (r: Ready)
        ensures
            r@ == val & ALL,
    {
        Ready(val & ALL)
    }

    /// The bits as a word.
    pub fn as_usize(&self) -> (r: usize)
        ensures
            r == self@,
    {
        self.0
    }

    /// Whether no bit is set.
    pub fn is_empty(&self) -> (r: bool)
        ensures
            r == (self@ == 0),
    {
        self.0 == 0
    }

    /// Readable, or closed for reading.
    pub fn is_readable(&self) -> (r: bool)
        ensures
            r == (self@ & READABLE != 0 || self@ & READ_CLOSED != 0),
    {
        self.0 & READABLE != 0 || self.is_read_closed()
    }

    /// Writable, or closed for writing.
    pub fn is_writable(&self) -> (r: bool)
        ensures
            r == (self@ & WRITABLE != 0 || self@ & WRITE_CLOSED != 0),
    {
        self.0 & WRITABLE != 0 || self.is_write_closed()
    }

    /// Closed for reading.
    pub fn is_read_closed(&self) -> (r: bool)
        ensures
            r == (self@ & READ_CLOSED != 0),
    {
        self.0 & READ_CLOSED != 0
    }

    /// Closed for writing.
    pub fn is_write_closed(&self) -> (r: bool)
        ensures
            r == (self@ & WRITE_CLOSED != 0),
    {
        self.0 & WRITE_CLOSED != 0
    }

    /// The readiness that satisfies `interest`.
    pub fn from_interest(interest: Interest) -> (r: Ready)
        ensures
            r@ == interest_bits(interest@),
    {
        let mut ready: usize = 0;
        if interest.is_readable() {
            ready = ready | READABLE | READ_CLOSED;
            proof {
                lemma_interest_or();
            }
        }
        if interest.is_writable() {
            let before = ready;
            ready = ready | WRITABLE | WRITE_CLOSED;
            proof {
                lemma_interest_or();
            }
        }
        Ready(ready)
    }

    /// The bits of `self` that satisfy `interest`.
    pub fn intersection(self, interest: Interest) -> (r: Ready)
        ensures
            r@ == self@ & interest_bits(interest@),
    {
        Ready(self.0 & Ready::from_interest(interest).0)
    }

    /// Whether some bit of `self` satisfies `interest`.
    pub fn satisfies(self, interest: Interest) -> (r: bool)
        ensures
            r == (self@ & interest_bits(interest@) != 0),
    {
        self.0 & Ready::from_interest(interest).0 != 0
    }

    /// The bits of `self` or of `other`.
    pub fn union(self, other: Ready) -> (r: Ready)
        ensures
            r@ == self@ | other@,
    {
        Ready(self.0 | other.0)
    }

    /// The bits of `self` that are not in `other`.
    pub fn without(self, other: Ready) -> (r: Ready)
        ensures
            r@ == self@ & !other@,
    {
        Ready(self.0 & !other.0)
    }
}

/// Readiness seen at a tick of the I/O driver.
#[derive(Debug, Clone, Copy, PartialEq, Eq, Structural)]
pub struct ReadyEvent {
    tick: u8,
    ready: Ready,
}

impl ReadyEvent {
    /// The tick of the event.
    pub closed spec fn spec_tick(self) -> u8 {
        self.tick
    }

    /// The readiness of the event.
    pub closed spec fn spec_ready(self) -> Ready {
        self.ready
    }

    /// An event of `ready` at tick `tick`.
    pub fn new(tick: u8, ready: Ready) -> (e: ReadyEvent)
        ensures
            e.spec_tick() == tick,
            e.spec_ready() == ready,
    {
        ReadyEvent { tick, ready }
    }

    /// The tick of the event.
    pub fn get_tick(&self) -> (r: u8)
        ensures
            r == self.spec_tick(),
    {
        self.tick
    }

    /// The readiness of the event.
    pub fn get_ready(&self) -> (r: Ready)
        ensures
            r == self.spec_ready(),
    {
        self.ready
    }
}

} // verus!
