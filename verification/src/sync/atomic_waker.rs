//! A slot for one waker, shared by the task that registers it and the task
//! that wakes it.
use vstd::prelude::*;

verus! {

/// Nobody is registering or waking.
pub const IDLE: u8 = 0;
/// A waker is being registered.
pub const REGISTERING: u8 = 0b01;
/// The waker is being taken to be woken.
pub const WAKING: u8 = 0b10;

/// The bits that taking the waker sets and clears.
proof fn lemma_waking_bits(s: u8)
    by (bit_vector)
    ensures
        (0u8 | 2u8) & !2u8 == 0u8,
        s != 0u8 ==> (s | 2u8) != 0u8,
{
}

/// A waker slot with its state.
pub struct AtomicWaker {
    state: u8,
    waker: Option<u64>,
}

impl AtomicWaker {
    /// The state: `IDLE`, or the bits of what is under way.
    pub closed spec fn spec_state(self) -> u8 {
        self.state
    }

    /// The registered waker.
    pub closed spec fn spec_waker(self) -> Option<u64> {
        self.waker
    }

    /// An idle slot with no waker.
    pub fn new() -> (w: AtomicWaker)
        ensures
            w.spec_state() == IDLE,
            w.spec_waker() is None,
    {
        AtomicWaker { state: IDLE, waker: None }
    }

    /// Registers `waker` in place of the one there; when the slot is being
    /// woken meanwhile, `waker` is to be woken at once instead. Gives back
    /// whom to wake now.
    pub fn register_by_ref(&mut self, waker: u64) -> (wake_now: Option<u64>)
        ensures
            old(self).spec_state() == IDLE ==> final(self).spec_state() == IDLE && final(self).spec_waker()
                == Some(waker) && wake_now is None,
            old(self).spec_state() == WAKING ==> *final(self) == *old(self) && wake_now == Some(waker),
            old(self).spec_state() != IDLE && old(self).spec_state() != WAKING ==> *final(self) == *old(self)
                && wake_now is None,
    {
        if self.state == IDLE {
            self.state = REGISTERING;
            self.waker = Some(waker);
            if self.state == REGISTERING {
                self.state = IDLE;
                None
            } else {
                let w = self.waker.take();
                self.state = IDLE;
                w
            }
        } else if self.state == WAKING {
            Some(waker)
        } else {
            None
        }
    }

    /// Takes the waker to wake it, when nobody else is registering or
    /// waking; the state then records the waking.
    pub fn take_waker(&mut self) -> (w: Option<u64>)
        ensures
            old(self).spec_state() == IDLE ==> w == old(self).spec_waker() && final(self).spec_state() == IDLE
                && final(self).spec_waker() is None,
            old(self).spec_state() != IDLE ==> w is None && final(self).spec_state() == old(self).spec_state()
                | WAKING && final(self).spec_waker() == old(self).spec_waker(),
    {
        let prev = self.state;
        self.state = self.state | WAKING;
        proof {
            lemma_waking_bits(prev);
        }
        if prev == IDLE {
            let waker = self.waker.take();
            self.state = self.state & !WAKING;
            waker
        } else {
            None
        }
    }

    /// Takes the waker, if it can, to wake it.
    pub fn wake(&mut self) -> (w: Option<u64>)
        ensures
            old(self).spec_state() == IDLE ==> w == old(self).spec_waker() && final(self).spec_state() == IDLE
                && final(self).spec_waker() is None,
            old(self).spec_state() != IDLE ==> w is None && final(self).spec_state() == old(self).spec_state()
                | WAKING && final(self).spec_waker() == old(self).spec_waker(),
    {
        self.take_waker()
    }
}

} // verus!
