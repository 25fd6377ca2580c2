//! Mutual exclusion lock.
use crate::sync::semaphore_inner::{AcquirePoll, SemaphoreInner};
use vstd::prelude::*;

verus! {

/// A lock that gives one holder at a time access to the value it guards.
pub struct Mutex<T> {
    sem: SemaphoreInner,
    data: T,
}

/// `try_lock` found the mutex held.
#[derive(Debug, Eq, PartialEq, Clone)]
pub struct LockError;

impl LockError {
    /// The error's message.
    pub fn as_str(&self) -> (r: &'static str)
        ensures
            r@ == "Try lock error."@,
    {
        "Try lock error."
    }
}

/// Proof that its holder holds a mutex; handing it back to `unlock` releases the
/// mutex.
pub struct MutexGuard {
    held: (),
}

/// The outcome of one poll of a task that waits for a mutex.
pub enum LockPoll {
    /// The task holds the mutex.
    Ready(MutexGuard),
    /// The task waits until its waker is woken.
    Pending,
}

impl<T> Mutex<T> {
    /// The mutex is consistent: its semaphore is open and has at most one permit.
    pub closed spec fn wf(self) -> bool {
        &&& self.sem.wf()
        &&& self.sem.count() <= 1
        &&& !self.sem.closed()
    }

    /// Whether the mutex is held.
    pub closed spec fn locked(self) -> bool {
        self.sem.count() == 0
    }

    /// The guarded value.
    pub closed spec fn value(self) -> T {
        self.data
    }

    /// The waker ids of the tasks waiting for the mutex, first come first.
    pub closed spec fn waiting(self) -> Seq<u64> {
        self.sem.waiting()
    }

    /// The keys of the waiting tasks, in the same order.
    pub closed spec fn waiting_keys(self) -> Seq<usize> {
        self.sem.waiting_keys()
    }

    /// The number of waiter keys ever handed out.
    pub closed spec fn key_count(self) -> nat {
        self.sem.key_count()
    }

    /// An unlocked mutex guarding `t`.
    pub fn new(t: T) -> (m: Mutex<T>)
        ensures
            m.wf(),
            !m.locked(),
            m.value() == t,
            m.waiting().len() == 0,
            m.key_count() == 0,
    {
        let sem = SemaphoreInner::new(1).unwrap();
        Mutex { sem, data: t }
    }

    /// Takes the mutex if nobody holds it; fails with `LockError` otherwise.
    pub fn try_lock(&mut self) -> (r: Result<MutexGuard, LockError>)
        requires
            old(self).wf(),
        ensures
            final(self).wf(),
            r is Ok <==> !old(self).locked(),
            final(self).locked(),
            final(self).value() == old(self).value(),
            final(self).waiting() == old(self).waiting(),
            final(self).waiting_keys() == old(self).waiting_keys(),
            final(self).key_count() == old(self).key_count(),
    {
        match self.sem.try_acquire() {
            Ok(_) => Ok(MutexGuard { held: () }),
            Err(_) => Err(LockError),
        }
    }

    /// One poll of a task that waits for the mutex, with waker `waiter`
    /// (`waker_index` and `enqueue` record its place among the waiters, as in
    /// `SemaphoreInner::poll_acquire`). The first poll takes the mutex if it is
    /// free and else queues the task; a poll after the task was woken takes
    /// the mutex, which the holder that left handed over.
    pub fn lock(&mut self, waiter: u64, waker_index: &mut Option<usize>, enqueue: &mut bool) -> (r: LockPoll)
        requires
            old(self).wf(),
            old(self).key_count() + 1 < usize::MAX,
            *old(enqueue) ==> (*old(waker_index)) is Some && !old(self).waiting_keys().contains(
                (*old(waker_index))->0,
            ) && old(self).locked(),
        ensures
            final(self).wf(),
            final(self).value() == old(self).value(),
            *old(enqueue) ==> r is Ready && !*final(enqueue) && final(self).locked() && final(self).waiting()
                == old(self).waiting() && final(self).waiting_keys() == old(self).waiting_keys()
                && final(self).key_count() == old(self).key_count(),
            !*old(enqueue) && !old(self).locked() ==> r is Ready && !*final(enqueue) && final(self).locked()
                && final(self).waiting() == old(self).waiting() && final(self).waiting_keys()
                == old(self).waiting_keys() && final(self).key_count() == old(self).key_count(),
            !*old(enqueue) && old(self).locked() ==> r is Pending && *final(enqueue) && final(self).locked()
                && (*final(waker_index)) is Some && final(self).waiting() == old(self).waiting().push(waiter)
                && final(self).waiting_keys() == old(self).waiting_keys().push((*final(waker_index))->0)
                && final(self).key_count() <= old(self).key_count() + 1,
    {
        match self.sem.poll_acquire(waiter, waker_index, enqueue) {
            AcquirePoll::Ready(Ok(())) => LockPoll::Ready(MutexGuard { held: () }),
            AcquirePoll::Ready(Err(_)) => {
                proof {
                    assert(false);
                }
                LockPoll::Pending
            },
            AcquirePoll::Pending => LockPoll::Pending,
        }
    }

    /// Releases the mutex: it goes to the first waiting task, whose waker id is
    /// returned, or else it is left unlocked.
    pub fn unlock(&mut self, guard: MutexGuard) -> (woken: Option<u64>)
        requires
            old(self).wf(),
            old(self).locked(),
        ensures
            final(self).wf(),
            final(self).value() == old(self).value(),
            old(self).waiting().len() > 0 ==> woken == Some(old(self).waiting()[0]) && final(self).locked()
                && final(self).waiting() == old(self).waiting().drop_first() && final(self).waiting_keys()
                == old(self).waiting_keys().drop_first(),
            old(self).waiting().len() == 0 ==> woken is None && !final(self).locked() && final(self).waiting()
                == old(self).waiting() && final(self).waiting_keys() == old(self).waiting_keys(),
            final(self).key_count() == old(self).key_count(),
    {
        self.sem.release()
    }

    /// The guarded value, read by the mutex's holder.
    pub fn get<'a>(&'a self, guard: &'a MutexGuard) -> (r: &'a T)
        ensures
            *r == self.value(),
    {
        &self.data
    }

    /// The guarded value, to be changed by the mutex's holder.
    pub fn get_mut_locked<'a>(&'a mut self, guard: &'a MutexGuard) -> (r: &'a mut T)
        ensures
            *r == old(self).value(),
            final(self).value() == *final(r),
            final(self).wf() == old(self).wf(),
            final(self).locked() == old(self).locked(),
            final(self).waiting() == old(self).waiting(),
            final(self).waiting_keys() == old(self).waiting_keys(),
            final(self).key_count() == old(self).key_count(),
    {
        &mut self.data
    }

    /// The guarded value; the exclusive borrow of the mutex makes locking
    /// needless.
    pub fn get_mut(&mut self) -> (r: &mut T)
        ensures
            *r == old(self).value(),
            final(self).value() == *final(r),
            final(self).wf() == old(self).wf(),
            final(self).locked() == old(self).locked(),
            final(self).waiting() == old(self).waiting(),
            final(self).waiting_keys() == old(self).waiting_keys(),
            final(self).key_count() == old(self).key_count(),
    {
        &mut self.data
    }

    /// The guarded value, taking the mutex apart.
    pub fn into_inner(self) -> (r: T)
        ensures
            r == self.value(),
    {
        self.data
    }
}

} // verus!
