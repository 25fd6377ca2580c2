//! A wait until a deadline, driven by a timing wheel.
use crate::time::wheel::{level_key, slot_for, Wheel, LEVELS_NUM};
use crate::time::Clock;
use vstd::prelude::*;

verus! {

/// Ten years in milliseconds: the wait used when a deadline would not fit.
pub const TEN_YEARS: u64 = 315_360_000_000;

/// A wait until `deadline`, counted in milliseconds on the same clock as the
/// start of the wheel.
pub struct Sleep {
    need_insert: bool,
    deadline: u64,
    timer: Clock,
}

impl Sleep {
    /// Whether the next poll puts the clock in the wheel.
    pub closed spec fn spec_need_insert(self) -> bool {
        self.need_insert
    }

    /// When the wait ends.
    pub closed spec fn spec_deadline(self) -> u64 {
        self.deadline
    }

    /// The clock that the wheel holds for this wait.
    pub closed spec fn spec_clock(self) -> Clock {
        self.timer
    }

    /// The clock's recorded level is one of the wheel's.
    pub closed spec fn wf(self) -> bool {
        self.timer.level < LEVELS_NUM
    }

    /// A wait until `deadline` whose clock has identity `id`.
    fn new_timeout(deadline: u64, id: u64) -> (s: Sleep)
        ensures
            s.wf(),
            s.spec_need_insert(),
            s.spec_deadline() == deadline,
            s.spec_clock() == Clock::new_spec(id),
    {
        Sleep { need_insert: true, deadline, timer: Clock::new(id) }
    }

    /// When the wait ends.
    pub fn deadline(&self) -> (r: u64)
        ensures
            r == self.spec_deadline(),
    {
        self.deadline
    }

    /// The clock that the wheel holds for this wait.
    pub fn clock(&self) -> (r: &Clock)
        ensures
            *r == self.spec_clock(),
    {
        &self.timer
    }

    /// Waits until `new_deadline` instead: the clock goes back in the wheel at
    /// the next poll, and has not fired.
    pub fn reset(&mut self, new_deadline: u64)
        requires
            old(self).wf(),
        ensures
            final(self).wf(),
            final(self).spec_need_insert(),
            final(self).spec_deadline() == new_deadline,
            final(self).spec_clock() == (Clock { result: false, ..old(self).spec_clock() }),
    {
        self.need_insert = true;
        self.deadline = new_deadline;
        self.timer.set_result(false);
    }

    /// Marks the clock fired, as its wheel's driver does when the wheel hands
    /// out its handle.
    pub fn fire(&mut self)
        requires
            old(self).wf(),
        ensures
            final(self).wf(),
            final(self).spec_need_insert() == old(self).spec_need_insert(),
            final(self).spec_deadline() == old(self).spec_deadline(),
            final(self).spec_clock() == (Clock { result: true, ..old(self).spec_clock() }),
    {
        self.timer.set_result(true);
    }

    /// Takes the clock out of the wheel.
    pub fn cancel(&mut self, wheel: &mut Wheel)
        requires
            old(self).wf(),
            old(wheel).wf(),
        ensures
            *final(self) == *old(self),
            final(wheel).wf(),
            final(wheel).elapsed_ms() == old(wheel).elapsed_ms(),
            final(wheel).last_elapsed_ms() == old(wheel).last_elapsed_ms(),
            final(wheel).triggered() == crate::time::wheel::remove_first(
                old(wheel).triggered(),
                crate::time::TimerHandle { inner: old(self).spec_clock().id },
            ),
            ({
                let c = old(self).spec_clock();
                let l = c.level as int;
                let s = slot_for(c.duration, l as nat);
                &&& final(wheel).slot(l, s) == crate::time::wheel::remove_first(
                    old(wheel).slot(l, s),
                    crate::time::TimerHandle { inner: c.id },
                )
                &&& forall|l2: int, s2: int|
                    0 <= l2 < LEVELS_NUM && 0 <= s2 < 64 && (l2, s2) != (l, s) ==> #[trigger] final(wheel).slot(l2, s2)
                        == old(wheel).slot(l2, s2)
            }),
    {
        wheel.cancel(&self.timer);
    }

    /// Polls the wait at a wheel that started at `start_time`: the first poll
    /// after a (re)start puts the clock in the wheel, expiring `deadline -
    /// start_time` after the start, and fires it at once when the wheel is
    /// already past that. Ready once the clock has fired.
    pub fn poll(&mut self, start_time: u64, wheel: &mut Wheel) -> (ready: bool)
        requires
            old(self).wf(),
            old(wheel).wf(),
            start_time <= old(self).spec_deadline(),
        ensures
            final(self).wf(),
            final(wheel).wf(),
            !final(self).spec_need_insert(),
            final(self).spec_deadline() == old(self).spec_deadline(),
            ready == final(self).spec_clock().result,
            final(self).spec_clock().id == old(self).spec_clock().id,
            !old(self).spec_need_insert() ==> *final(self) == *old(self) && *final(wheel) == *old(wheel),
            old(self).spec_need_insert() ==> {
                let ms = (old(self).spec_deadline() - start_time) as u64;
                let c = final(self).spec_clock();
                &&& c.expiration == ms
                &&& ms <= old(wheel).elapsed_ms() ==> {
                    &&& c == (Clock { expiration: ms, result: true, ..old(self).spec_clock() })
                    &&& Wheel::same_levels(*final(wheel), *old(wheel))
                    &&& final(wheel).triggered() == old(wheel).triggered()
                }
                &&& ms > old(wheel).elapsed_ms() ==> {
                    let d = (ms - old(wheel).elapsed_ms()) as u64;
                    let l = c.level as int;
                    let s = slot_for(d, l as nat);
                    &&& c == (Clock { expiration: ms, level: c.level, duration: d, ..old(self).spec_clock() })
                    &&& vstd::arithmetic::power2::pow2(6 * l as nat) <= level_key(d)
                    &&& level_key(d) < vstd::arithmetic::power2::pow2(6 * l as nat + 6)
                    &&& final(wheel).slot(l, s) == seq![crate::time::TimerHandle { inner: c.id }] + old(wheel).slot(l, s)
                    &&& forall|l2: int, s2: int|
                        0 <= l2 < LEVELS_NUM && 0 <= s2 < 64 && (l2, s2) != (l, s) ==> #[trigger] final(wheel).slot(l2, s2)
                            == old(wheel).slot(l2, s2)
                    &&& final(wheel).triggered() == old(wheel).triggered()
                }
            },
    {
        if self.need_insert {
            let ms = self.deadline - start_time;
            self.timer.set_expiration(ms);
            match wheel.insert(&mut self.timer) {
                Ok(_) => {
                    self.need_insert = false;
                },
                Err(_) => {
                    self.need_insert = false;
                    self.timer.set_result(true);
                },
            }
        }
        self.timer.result()
    }
}

/// A wait until `instant`, or until `start_time` when that is later.
pub fn sleep_until(start_time: u64, instant: u64, id: u64) -> (s: Sleep)
    ensures
        s.wf(),
        s.spec_need_insert(),
        s.spec_deadline() == if instant < start_time { start_time } else { instant },
        s.spec_clock() == Clock::new_spec(id),
{
    let instant = if instant < start_time {
        start_time
    } else {
        instant
    };
    Sleep::new_timeout(instant, id)
}

/// A wait of `duration` from `now`; ten years from `now` when the sum does
/// not fit.
pub fn sleep(now: u64, duration: u64, id: u64) -> (s: Sleep)
    requires
        now + duration <= u64::MAX || now + TEN_YEARS <= u64::MAX,
    ensures
        s.wf(),
        s.spec_need_insert(),
        s.spec_deadline() == if now + duration <= u64::MAX {
            now + duration
        } else {
            now + TEN_YEARS
        },
        s.spec_clock() == Clock::new_spec(id),
{
    match now.checked_add(duration) {
        Some(deadline) => Sleep::new_timeout(deadline, id),
        None => Sleep::new_timeout(now + TEN_YEARS, id),
    }
}

} // verus!
