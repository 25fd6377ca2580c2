//! Giving up the worker once, to let other tasks run.
use vstd::prelude::*;

verus! {

/// What one poll of a yield gave.
#[derive(Debug, Clone, Copy, PartialEq, Eq, Structural)]
pub struct YieldPoll {
    /// The yield is over.
    pub ready: bool,
    /// The task is to be woken at once, having no worker to wait on.
    pub wake_now: bool,
}

/// A yield: pending at its first poll, ready at the next.
pub struct YieldTask {
    yielded: bool,
}

/// A yield that has not been polled.
pub fn yield_now() -> (y: YieldTask)
    ensures
        !y.spec_yielded(),
{
    YieldTask { yielded: false }
}

impl YieldTask {
    /// Whether the yield was polled once already.
    pub closed spec fn spec_yielded(self) -> bool {
        self.yielded
    }

    /// Polls the yield with `waker`: the first poll is pending, and leaves
    /// `waker` among the worker's yielded tasks when polled on a worker, or
    /// asks for it to be woken at once otherwise; a later poll is ready.
    pub fn poll(&mut self, waker: u64, in_worker: bool, yielded: &mut Vec<u64>) -> (r: YieldPoll)
        ensures
            final(self).spec_yielded(),
            old(self).spec_yielded() ==> r == (YieldPoll { ready: true, wake_now: false }) && final(yielded)@
                == old(yielded)@,
            !old(self).spec_yielded() && in_worker ==> r == (YieldPoll { ready: false, wake_now: false })
                && final(yielded)@ == old(yielded)@.push(waker),
            !old(self).spec_yielded() && !in_worker ==> r == (YieldPoll { ready: false, wake_now: true })
                && final(yielded)@ == old(yielded)@,
    {
        if !self.yielded {
            self.yielded = true;
            if in_worker {
                yielded.push(waker);
                YieldPoll { ready: false, wake_now: false }
            } else {
                YieldPoll { ready: false, wake_now: true }
            }
        } else {
            YieldPoll { ready: true, wake_now: false }
        }
    }
}

/// Takes every yielded task off the worker's list, in order, to be woken.
pub fn wake_yielded_tasks(yielded: &mut Vec<u64>) -> (wakers: Vec<u64>)
    ensures
        wakers@ == old(yielded)@,
        final(yielded)@.len() == 0,
{
    let mut wakers: Vec<u64> = Vec::new();
    if yielded.len() == 0 {
        return wakers;
    }
    std::mem::swap(yielded, &mut wakers);
    wakers
}

} // verus!
