//! Counting semaphores.
use crate::sync::semaphore_inner::{AcquirePoll, SemaphoreError, SemaphoreInner, MAX_PERMITS};
use vstd::prelude::*;

verus! {

/// A counting semaphore whose permits are given back by hand.
pub struct Semaphore {
    inner: SemaphoreInner,
}

/// A counting semaphore whose permits are given back by giving back the permit.
pub struct AutoRelSemaphore {
    inner: SemaphoreInner,
}

/// A permit of a `Semaphore`.
pub struct SemaphorePermit;

/// A permit of an `AutoRelSemaphore`; giving it back releases the permit.
pub struct AutoRelSemaphorePermit {
    held: (),
}

impl Semaphore {
    /// The semaphore's state.
    pub closed spec fn inner(self) -> SemaphoreInner {
        self.inner
    }

    /// The semaphore is consistent.
    pub open spec fn wf(self) -> bool {
        self.inner().wf()
    }

    /// A semaphore with `permits` permits; fails with `Overflow` when that is
    /// `MAX_PERMITS` or more.
    pub fn new(permits: usize) -> (r: Result<Semaphore, SemaphoreError>)
        ensures
            r is Err <==> permits >= MAX_PERMITS,
            r matches Err(e) ==> e == SemaphoreError::Overflow,
            r matches Ok(s) ==> s.wf() && s.inner().count() == permits && !s.inner().closed()
                && s.inner().waiting().len() == 0 && s.inner().key_count() == 0,
    {
        match SemaphoreInner::new(permits) {
            Ok(inner) => Ok(Semaphore { inner }),
            Err(e) => Err(e),
        }
    }

    /// The number of permits.
    pub fn current_permits(&self) -> (r: usize)
        ensures
            r == self.inner().count(),
    {
        self.inner.current_permits()
    }

    /// Gives back a permit: to the first waiting task, whose waker id is
    /// returned, or else to the count.
    pub fn release(&mut self) -> (woken: Option<u64>)
        requires
            old(self).wf(),
            old(self).inner().waiting().len() == 0 ==> old(self).inner().count() < MAX_PERMITS,
        ensures
            final(self).wf(),
            final(self).inner().closed() == old(self).inner().closed(),
            old(self).inner().waiting().len() > 0 ==> woken == Some(old(self).inner().waiting()[0])
                && final(self).inner().count() == old(self).inner().count()
                && final(self).inner().waiting() == old(self).inner().waiting().drop_first()
                && final(self).inner().waiting_keys() == old(self).inner().waiting_keys().drop_first(),
            old(self).inner().waiting().len() == 0 ==> woken is None && final(self).inner().count()
                == old(self).inner().count() + 1 && final(self).inner().waiting() == old(self).inner().waiting()
                && final(self).inner().waiting_keys() == old(self).inner().waiting_keys(),
            final(self).inner().key_count() == old(self).inner().key_count(),
    {
        self.inner.release()
    }

    /// Takes a permit without waiting; fails with `Closed` when the semaphore
    /// is closed and with `Empty` when it has no permit.
    pub fn try_acquire(&mut self) -> (r: Result<SemaphorePermit, SemaphoreError>)
        ensures
            final(self).wf() == old(self).wf(),
            final(self).inner().closed() == old(self).inner().closed(),
            final(self).inner().waiting() == old(self).inner().waiting(),
            final(self).inner().waiting_keys() == old(self).inner().waiting_keys(),
            final(self).inner().key_count() == old(self).inner().key_count(),
            old(self).inner().closed() ==> (r matches Err(e) && e == SemaphoreError::Closed),
            !old(self).inner().closed() && old(self).inner().count() == 0 ==> (r matches Err(e)
                && e == SemaphoreError::Empty),
            !old(self).inner().closed() && old(self).inner().count() > 0 ==> r is Ok && final(self).inner().count() == old(self).inner().count() - 1,
            r is Err ==> final(self).inner().count() == old(self).inner().count(),
    {
        match self.inner.try_acquire() {
            Ok(_) => Ok(SemaphorePermit),
            Err(e) => Err(e),
        }
    }

    /// One attempt to acquire a permit for a waiting task; see
    /// `SemaphoreInner::poll_acquire`.
    pub fn poll_acquire(&mut self, waiter: u64, waker_index: &mut Option<usize>, enqueue: &mut bool)
        -> (r: AcquirePoll)
        requires
            old(self).wf(),
            old(self).inner().key_count() + 1 < usize::MAX,
        ensures
            final(self).wf(),
            final(self).inner().closed() == old(self).inner().closed(),
            old(self).inner().closed() ==> r == AcquirePoll::Ready(Err(SemaphoreError::Closed))
                && final(self).inner() == old(self).inner(),
            !old(self).inner().closed() && *old(enqueue) ==> r == AcquirePoll::Ready(Ok(()))
                && !*final(enqueue) && final(self).inner() == old(self).inner(),
            !old(self).inner().closed() && !*old(enqueue) && old(self).inner().count() > 0 ==> r
                == AcquirePoll::Ready(Ok(())) && final(self).inner().count() == old(self).inner().count() - 1
                && final(self).inner().waiting() == old(self).inner().waiting() && final(self).inner().waiting_keys()
                == old(self).inner().waiting_keys() && final(self).inner().key_count() == old(self).inner().key_count(),
            !old(self).inner().closed() && !*old(enqueue) && old(self).inner().count() == 0 ==> r
                == AcquirePoll::Pending && *final(enqueue) && (*final(waker_index)) is Some
                && final(self).inner().waiting() == old(self).inner().waiting().push(waiter)
                && final(self).inner().waiting_keys() == old(self).inner().waiting_keys().push(
                (*final(waker_index))->0,
            ) && final(self).inner().key_count() <= old(self).inner().key_count() + 1,
    {
        self.inner.poll_acquire(waiter, waker_index, enqueue)
    }

    /// Whether the semaphore is closed.
    pub fn is_closed(&self) -> (r: bool)
        ensures
            r == self.inner().closed(),
    {
        self.inner.is_closed()
    }

    /// Closes the semaphore and wakes every waiting task; returns their waker
    /// ids, first come first.
    pub fn close(&mut self) -> (woken: Vec<u64>)
        requires
            old(self).wf(),
        ensures
            final(self).wf(),
            final(self).inner().closed(),
            final(self).inner().count() == old(self).inner().count(),
            woken@ == old(self).inner().waiting(),
            final(self).inner().waiting().len() == 0,
            final(self).inner().key_count() == old(self).inner().key_count(),
    {
        self.inner.close()
    }
}

impl AutoRelSemaphore {
    /// The semaphore's state.
    pub closed spec fn inner(self) -> SemaphoreInner {
        self.inner
    }

    /// The semaphore is consistent.
    pub open spec fn wf(self) -> bool {
        self.inner().wf()
    }

    /// A semaphore with `number` permits; fails with `Overflow` when that is
    /// `MAX_PERMITS` or more.
    pub fn new(number: usize) -> (r: Result<AutoRelSemaphore, SemaphoreError>)
        ensures
            r is Err <==> number >= MAX_PERMITS,
            r matches Err(e) ==> e == SemaphoreError::Overflow,
            r matches Ok(s) ==> s.wf() && s.inner().count() == number && !s.inner().closed()
                && s.inner().waiting().len() == 0 && s.inner().key_count() == 0,
    {
        match SemaphoreInner::new(number) {
            Ok(inner) => Ok(AutoRelSemaphore { inner }),
            Err(e) => Err(e),
        }
    }

    /// The number of permits.
    pub fn current_permits(&self) -> (r: usize)
        ensures
            r == self.inner().count(),
    {
        self.inner.current_permits()
    }

    /// Takes a permit without waiting; fails with `Closed` when the semaphore
    /// is closed and with `Empty` when it has no permit.
    pub fn try_acquire(&mut self) -> (r: Result<AutoRelSemaphorePermit, SemaphoreError>)
        ensures
            final(self).wf() == old(self).wf(),
            final(self).inner().closed() == old(self).inner().closed(),
            final(self).inner().waiting() == old(self).inner().waiting(),
            final(self).inner().waiting_keys() == old(self).inner().waiting_keys(),
            final(self).inner().key_count() == old(self).inner().key_count(),
            old(self).inner().closed() ==> (r matches Err(e) && e == SemaphoreError::Closed),
            !old(self).inner().closed() && old(self).inner().count() == 0 ==> (r matches Err(e)
                && e == SemaphoreError::Empty),
            !old(self).inner().closed() && old(self).inner().count() > 0 ==> r is Ok && final(self).inner().count() == old(self).inner().count() - 1,
            r is Err ==> final(self).inner().count() == old(self).inner().count(),
    {
        match self.inner.try_acquire() {
            Ok(_) => Ok(AutoRelSemaphorePermit { held: () }),
            Err(e) => Err(e),
        }
    }

    /// Gives a permit back: to the first waiting task, whose waker id is
    /// returned, or else to the count.
    pub fn release_permit(&mut self, permit: AutoRelSemaphorePermit) -> (woken: Option<u64>)
        requires
            old(self).wf(),
            old(self).inner().waiting().len() == 0 ==> old(self).inner().count() < MAX_PERMITS,
        ensures
            final(self).wf(),
            final(self).inner().closed() == old(self).inner().closed(),
            old(self).inner().waiting().len() > 0 ==> woken == Some(old(self).inner().waiting()[0])
                && final(self).inner().count() == old(self).inner().count()
                && final(self).inner().waiting() == old(self).inner().waiting().drop_first()
                && final(self).inner().waiting_keys() == old(self).inner().waiting_keys().drop_first(),
            old(self).inner().waiting().len() == 0 ==> woken is None && final(self).inner().count()
                == old(self).inner().count() + 1 && final(self).inner().waiting() == old(self).inner().waiting()
                && final(self).inner().waiting_keys() == old(self).inner().waiting_keys(),
            final(self).inner().key_count() == old(self).inner().key_count(),
    {
        self.inner.release()
    }

    /// Whether the semaphore is closed.
    pub fn is_closed(&self) -> (r: bool)
        ensures
            r == self.inner().closed(),
    {
        self.inner.is_closed()
    }

    /// Closes the semaphore and wakes every waiting task; returns their waker
    /// ids, first come first.
    pub fn close(&mut self) -> (woken: Vec<u64>)
        requires
            old(self).wf(),
        ensures
            final(self).wf(),
            final(self).inner().closed(),
            final(self).inner().count() == old(self).inner().count(),
            woken@ == old(self).inner().waiting(),
            final(self).inner().waiting().len() == 0,
            final(self).inner().key_count() == old(self).inner().key_count(),
    {
        self.inner.close()
    }
}

} // verus!
