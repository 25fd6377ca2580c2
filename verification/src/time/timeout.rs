//! A time limit on a computation.
use crate::time::sleep::{sleep, Sleep, TEN_YEARS};
use crate::time::wheel::Wheel;
use crate::time::TimerError;
use vstd::prelude::*;

verus! {

/// A time limit: the computation's result counts only if it comes before the
/// wait ends.
pub struct Timeout {
    sleep: Sleep,
}

impl Timeout {
    /// The wait that bounds the computation.
    pub closed spec fn spec_sleep(self) -> Sleep {
        self.sleep
    }

    /// The wait is consistent.
    pub closed spec fn wf(self) -> bool {
        self.sleep.wf()
    }

    /// Marks the wait's clock fired, as its wheel's driver does when the
    /// wheel hands out its handle.
    pub fn fire(&mut self)
        requires
            old(self).wf(),
        ensures
            final(self).wf(),
            final(self).spec_sleep().spec_deadline() == old(self).spec_sleep().spec_deadline(),
            final(self).spec_sleep().spec_need_insert() == old(self).spec_sleep().spec_need_insert(),
            final(self).spec_sleep().spec_clock() == (crate::time::Clock {
                result: true,
                ..old(self).spec_sleep().spec_clock()
            }),
    {
        self.sleep.fire();
    }

    /// One poll, given the computation's own poll (`Some` once it has its
    /// result): its result wins; else the limit is reached once the wait is
    /// ready; else both are pending.
    pub fn poll<O>(&mut self, value: Option<O>, start_time: u64, wheel: &mut Wheel) -> (r: Option<Result<O, TimerError>>)
        requires
            old(self).wf(),
            old(wheel).wf(),
            start_time <= old(self).spec_sleep().spec_deadline(),
        ensures
            final(self).wf(),
            final(wheel).wf(),
            value matches Some(v) ==> r == Some(Ok::<O, TimerError>(v)) && *final(self) == *old(self)
                && *final(wheel) == *old(wheel),
            value is None ==> (r == Some(Err::<O, TimerError>(TimerError::Elapsed))
                <==> final(self).spec_sleep().spec_clock().result),
            value is None ==> (r is None <==> !final(self).spec_sleep().spec_clock().result),
    {
        if let Some(v) = value {
            return Some(Ok(v));
        }
        if self.sleep.poll(start_time, wheel) {
            Some(Err(TimerError::Elapsed))
        } else {
            None
        }
    }
}

/// A time limit of `duration` from `now`; its wait's clock has identity `id`.
pub fn timeout(now: u64, duration: u64, id: u64) -> (t: Timeout)
    requires
        now + duration <= u64::MAX || now + TEN_YEARS <= u64::MAX,
    ensures
        t.wf(),
        t.spec_sleep().spec_need_insert(),
        t.spec_sleep().spec_deadline() == if now + duration <= u64::MAX {
            now + duration
        } else {
            now + TEN_YEARS
        },
{
    Timeout { sleep: sleep(now, duration, id) }
}

} // verus!
