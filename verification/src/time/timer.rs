//! A timer that fires once per period.
use crate::time::sleep::{sleep_until, Sleep, TEN_YEARS};
use crate::time::wheel::{slot_for, Wheel, LEVELS_NUM};
use vstd::prelude::*;

verus! {

/// A timer whose first tick is at its start, and each next one a period after
/// the one before.
pub struct Timer {
    start: Sleep,
    period: u64,
}

impl Timer {
    /// The wait for the next tick.
    pub closed spec fn spec_start(self) -> Sleep {
        self.start
    }

    /// The period in milliseconds.
    pub closed spec fn spec_period(self) -> u64 {
        self.period
    }

    /// The wait is consistent.
    pub closed spec fn wf(self) -> bool {
        self.start.wf()
    }

    /// Polls the wait for the next tick; once it has fired, the next tick is
    /// set a period after it (ten years after it when that does not fit) and
    /// returned.
    pub fn poll_next_period(&mut self, start_time: u64, wheel: &mut Wheel) -> (r: Option<u64>)
        requires
            old(self).wf(),
            old(wheel).wf(),
            start_time <= old(self).spec_start().spec_deadline(),
            old(self).spec_start().spec_deadline() + old(self).spec_period() > u64::MAX ==> old(self).spec_start().spec_deadline() + TEN_YEARS <= u64::MAX,
        ensures
            final(self).wf(),
            final(wheel).wf(),
            final(self).spec_period() == old(self).spec_period(),
            ({
                let d = old(self).spec_start().spec_deadline();
                let next = if d + old(self).spec_period() <= u64::MAX {
                    d + old(self).spec_period()
                } else {
                    d + TEN_YEARS
                };
                &&& r is Some <==> (old(self).spec_start().spec_clock().result || (old(self).spec_start().spec_need_insert()
                    && old(self).spec_start().spec_deadline() - start_time <= old(wheel).elapsed_ms()))
                &&& r is Some <==> final(self).spec_start().spec_need_insert()
                &&& r matches Some(n) ==> n == next && final(self).spec_start().spec_deadline() == n
                    && !final(self).spec_start().spec_clock().result
                &&& r is None ==> final(self).spec_start().spec_deadline() == d
                    && !final(self).spec_start().spec_clock().result
                &&& !old(self).spec_start().spec_need_insert() ==> *final(wheel) == *old(wheel)
                &&& old(self).spec_start().spec_need_insert() ==> final(wheel).triggered() == old(wheel).triggered()
                &&& old(self).spec_start().spec_need_insert() && r is None ==> {
                    let c = final(self).spec_start().spec_clock();
                    let l = c.level as int;
                    let s = slot_for(c.duration, l as nat);
                    &&& c.id == old(self).spec_start().spec_clock().id
                    &&& final(wheel).slot(l, s) == seq![crate::time::TimerHandle { inner: c.id }] + old(wheel).slot(l, s)
                    &&& forall|l2: int, s2: int|
                        0 <= l2 < LEVELS_NUM && 0 <= s2 < 64 && (l2, s2) != (l, s) ==> #[trigger] final(wheel).slot(l2, s2)
                            == old(wheel).slot(l2, s2)
                }
            }),
    {
        if !self.start.poll(start_time, wheel) {
            return None;
        }
        let deadline = self.start.deadline();
        let next = match deadline.checked_add(self.period) {
            Some(next_out) => next_out,
            None => deadline + TEN_YEARS,
        };
        self.start.reset(next);
        Some(next)
    }

    /// Starts the timer over: the next tick is a period after `now`.
    pub fn reset(&mut self, now: u64)
        requires
            old(self).wf(),
            now + old(self).spec_period() <= u64::MAX,
        ensures
            final(self).wf(),
            final(self).spec_period() == old(self).spec_period(),
            final(self).spec_start().spec_need_insert(),
            final(self).spec_start().spec_deadline() == now + old(self).spec_period(),
            !final(self).spec_start().spec_clock().result,
    {
        self.start.reset(now + self.period);
    }

    /// Marks the clock of the wait for the next tick fired, as the wheel's
    /// driver does when the wheel hands out its handle.
    pub fn fire(&mut self)
        requires
            old(self).wf(),
        ensures
            final(self).wf(),
            final(self).spec_period() == old(self).spec_period(),
            final(self).spec_start().spec_need_insert() == old(self).spec_start().spec_need_insert(),
            final(self).spec_start().spec_deadline() == old(self).spec_start().spec_deadline(),
            final(self).spec_start().spec_clock() == (crate::time::Clock {
                result: true,
                ..old(self).spec_start().spec_clock()
            }),
    {
        self.start.fire();
    }

    /// The period in milliseconds.
    pub fn period(&self) -> (r: u64)
        ensures
            r == self.spec_period(),
    {
        self.period
    }
}

/// A timer whose first tick is at `start` (at `start_time` if that is later),
/// with period `period`; its clock has identity `id`.
pub fn timer_at(start_time: u64, start: u64, period: u64, id: u64) -> (t: Timer)
    ensures
        t.wf(),
        t.spec_period() == period,
        t.spec_start().spec_need_insert(),
        t.spec_start().spec_deadline() == if start < start_time { start_time } else { start },
        t.spec_start().spec_clock() == crate::time::Clock::new_spec(id),
{
    let start = sleep_until(start_time, start, id);
    Timer { start, period }
}

/// A timer whose first tick is `now`, with period `period`.
pub fn timer(start_time: u64, now: u64, period: u64, id: u64) -> (t: Timer)
    ensures
        t.wf(),
        t.spec_period() == period,
        t.spec_start().spec_need_insert(),
        t.spec_start().spec_deadline() == if now < start_time { start_time } else { now },
        t.spec_start().spec_clock() == crate::time::Clock::new_spec(id),
{
    timer_at(start_time, now, period, id)
}

} // verus!
