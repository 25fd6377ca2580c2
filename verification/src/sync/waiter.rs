//! A place where tasks wait until another task wakes them, one at a time or
//! all at once.
use crate::sync::semaphore_inner::{AcquirePoll, SemaphoreInner};
use vstd::prelude::*;

verus! {

/// Tasks wait here until they are woken. A wake that finds nobody waiting is
/// kept for the next task that waits, but only one such wake is kept.
pub struct Waiter {
    sem: SemaphoreInner,
}

impl Waiter {
    /// The semaphore is open and keeps at most one wake.
    pub closed spec fn wf(self) -> bool {
        &&& self.sem.wf()
        &&& !self.sem.closed()
        &&& self.sem.count() <= 1
    }

    /// Whether a wake is kept for the next task that waits.
    pub closed spec fn notified(self) -> bool {
        self.sem.count() == 1
    }

    /// The waker ids of the waiting tasks, first come first.
    pub closed spec fn waiting(self) -> Seq<u64> {
        self.sem.waiting()
    }

    /// The keys of the waiting tasks, in the same order.
    pub closed spec fn waiting_keys(self) -> Seq<usize> {
        self.sem.waiting_keys()
    }

    /// The number of waiter keys ever handed out.
    pub closed spec fn key_count(self) -> nat {
        self.sem.key_count()
    }

    /// A place where nobody waits and no wake is kept.
    pub fn new() -> (w: Waiter)
        ensures
            w.wf(),
            !w.notified(),
            w.waiting().len() == 0,
            w.key_count() == 0,
    {
        Waiter { sem: SemaphoreInner::new(0).unwrap() }
    }

    /// One poll of a task that waits, with waker `waiter` (`waker_index` and
    /// `enqueue` record its place, as in `SemaphoreInner::poll_acquire`). The
    /// first poll ends the wait at once if a wake is kept, which it uses up,
    /// and else queues the task; a poll after the task was woken ends the
    /// wait. Returns whether the wait is over.
    pub fn wait(&mut self, waiter: u64, waker_index: &mut Option<usize>, enqueue: &mut bool) -> (done: bool)
        requires
            old(self).wf(),
            old(self).key_count() + 1 < usize::MAX,
            *old(enqueue) ==> (*old(waker_index)) is Some && !old(self).waiting_keys().contains(
                (*old(waker_index))->0,
            ),
        ensures
            final(self).wf(),
            *old(enqueue) ==> done && !*final(enqueue) && *final(self) == *old(self),
            !*old(enqueue) && old(self).notified() ==> done && !*final(enqueue) && !final(self).notified()
                && final(self).waiting() == old(self).waiting() && final(self).waiting_keys()
                == old(self).waiting_keys() && final(self).key_count() == old(self).key_count(),
            !*old(enqueue) && !old(self).notified() ==> !done && *final(enqueue) && !final(self).notified()
                && (*final(waker_index)) is Some && final(self).waiting() == old(self).waiting().push(waiter)
                && final(self).waiting_keys() == old(self).waiting_keys().push((*final(waker_index))->0)
                && final(self).key_count() <= old(self).key_count() + 1,
    {
        match self.sem.poll_acquire(waiter, waker_index, enqueue) {
            AcquirePoll::Ready(Ok(())) => true,
            AcquirePoll::Ready(Err(_)) => {
                proof {
                    assert(false);
                }
                true
            },
            AcquirePoll::Pending => false,
        }
    }

    /// Wakes the first waiting task, whose waker id is returned; with nobody
    /// waiting, keeps one wake for the next task that waits.
    pub fn wake_one(&mut self) -> (woken: Option<u64>)
        requires
            old(self).wf(),
        ensures
            final(self).wf(),
            final(self).key_count() == old(self).key_count(),
            old(self).waiting().len() > 0 ==> woken == Some(old(self).waiting()[0]) && final(self).notified()
                == old(self).notified() && final(self).waiting() == old(self).waiting().drop_first()
                && final(self).waiting_keys() == old(self).waiting_keys().drop_first(),
            old(self).waiting().len() == 0 ==> woken is None && final(self).notified() && final(self).waiting()
                == old(self).waiting() && final(self).waiting_keys() == old(self).waiting_keys(),
    {
        self.sem.release_notify()
    }

    /// Wakes every waiting task; their waker ids are returned, first come
    /// first. No wake is kept for tasks that wait later.
    pub fn wake_all(&mut self) -> (woken: Vec<u64>)
        requires
            old(self).wf(),
        ensures
            final(self).wf(),
            woken@ == old(self).waiting(),
            final(self).waiting().len() == 0,
            final(self).notified() == old(self).notified(),
            final(self).key_count() == old(self).key_count(),
    {
        self.sem.release_all()
    }
}

} // verus!
