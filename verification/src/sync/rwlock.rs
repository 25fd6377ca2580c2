//! Read-write lock: many readers or one writer at a time.
//!
//! `read_count` counts the readers; a writer lowers it by `MAX_READS`, so
//! that it is negative from the moment a writer claims the lock. Readers that
//! come while it is negative wait on `read_sem`. A writer first takes
//! `write_mutex`, which orders the writers; if readers still hold the lock,
//! it records how many in `read_wait` and waits on `write_sem` until the last
//! of them leaves.
use crate::sync::mutex::LockError;
use crate::sync::semaphore_inner::{AcquirePoll, SemaphoreInner, MAX_PERMITS};
use vstd::prelude::*;

verus! {

/// The amount by which a writer lowers the reader count.
pub const MAX_READS: i64 = 0x1fff_ffff_ffff_ffff;

/// A lock that lets either any number of readers or one writer at a time reach
/// the value it guards.
pub struct RwLock<T> {
    read_sem: SemaphoreInner,
    write_sem: SemaphoreInner,
    write_mutex: SemaphoreInner,
    read_count: i64,
    read_wait: i64,
    data: T,
}

/// Proof that its holder reads the lock; handing it back to `read_unlock`
/// releases the read.
pub struct RwLockReadGuard {
    held: (),
}

/// Proof that its holder writes the lock; handing it back to `write_unlock`
/// releases the write.
pub struct RwLockWriteGuard {
    held: (),
}

/// The outcome of one poll of a task that waits to read.
pub enum ReadPoll {
    /// The task reads the lock.
    Ready(RwLockReadGuard),
    /// The task waits until its waker is woken.
    Pending,
}

/// The outcome of one poll of a task that waits to write.
pub enum WritePoll {
    /// The task writes the lock.
    Ready(RwLockWriteGuard),
    /// The task waits for the writers' mutex; poll `write` again once woken.
    PendingMutex,
    /// The task waits for the readers to leave; poll `poll_write_drain` once
    /// woken.
    PendingDrain,
}

impl<T> RwLock<T> {
    /// Either no writer claims the lock, and no task waits on the readers' or
    /// the writer's semaphore; or a writer holds the writers' mutex and has
    /// claimed the lock, the waiting readers and the readers it waits for
    /// make up the reader count, and it waits on its semaphore exactly while
    /// readers are left.
    pub closed spec fn wf(self) -> bool {
        &&& self.read_sem.wf()
        &&& self.write_sem.wf()
        &&& self.write_mutex.wf()
        &&& !self.read_sem.closed()
        &&& !self.write_sem.closed()
        &&& !self.write_mutex.closed()
        &&& self.read_sem.count() == 0
        &&& self.write_sem.count() == 0
        &&& self.write_mutex.count() <= 1
        &&& self.write_mutex.count() == 1 ==> self.write_mutex.waiting().len() == 0
        &&& self.read_wait >= 0
        &&& self.read_sem.waiting().len() < MAX_PERMITS
        &&& ({
            ||| 0 <= self.read_count < MAX_READS && self.read_wait == 0 && self.read_sem.waiting().len() == 0
                && self.write_sem.waiting().len() == 0
            ||| self.write_mutex.count() == 0 && self.read_count == -MAX_READS + self.read_sem.waiting().len()
                + self.read_wait && self.write_sem.waiting().len() == (if self.read_wait > 0 {
                1int
            } else {
                0int
            }) && self.read_sem.waiting().len() + self.read_wait < MAX_READS
        })
    }

    /// Whether a writer has claimed the lock: it holds it, or waits for the
    /// readers to leave.
    pub closed spec fn writing(self) -> bool {
        self.read_count < 0
    }

    /// Whether a writer holds the lock.
    pub closed spec fn write_held(self) -> bool {
        self.read_count < 0 && self.read_wait == 0
    }

    /// The number of readers that hold the lock.
    pub closed spec fn readers(self) -> int {
        if self.read_count >= 0 {
            self.read_count as int
        } else {
            self.read_wait as int
        }
    }

    /// The readers waiting for a writer to finish, first come first.
    pub closed spec fn waiting_readers(self) -> Seq<u64> {
        self.read_sem.waiting()
    }

    /// The keys of the waiting readers.
    pub closed spec fn waiting_reader_keys(self) -> Seq<usize> {
        self.read_sem.waiting_keys()
    }

    /// Whether a writer holds the writers' mutex.
    pub closed spec fn mutex_held(self) -> bool {
        self.write_mutex.count() == 0
    }

    /// The writers waiting for the writers' mutex, first come first.
    pub closed spec fn waiting_writers(self) -> Seq<u64> {
        self.write_mutex.waiting()
    }

    /// The keys of the writers waiting for the writers' mutex.
    pub closed spec fn waiting_writer_keys(self) -> Seq<usize> {
        self.write_mutex.waiting_keys()
    }

    /// The writer waiting for the readers to leave, if any.
    pub closed spec fn draining_writer(self) -> Seq<u64> {
        self.write_sem.waiting()
    }

    /// The key of the writer waiting for the readers to leave, if any.
    pub closed spec fn draining_writer_keys(self) -> Seq<usize> {
        self.write_sem.waiting_keys()
    }

    /// The most waiter keys handed out by any of the lock's semaphores.
    pub closed spec fn keys_used(self) -> nat {
        let a = self.read_sem.key_count();
        let b = self.write_sem.key_count();
        let c = self.write_mutex.key_count();
        if a >= b && a >= c {
            a
        } else if b >= c {
            b
        } else {
            c
        }
    }

    /// Room for one more waiter key on every semaphore.
    pub open spec fn keys_left(self) -> bool {
        self.keys_used() + 1 < usize::MAX
    }

    /// The guarded value.
    pub closed spec fn value(self) -> T {
        self.data
    }

    /// A lock guarding `t`, held by nobody.
    pub fn new(t: T) -> (l: RwLock<T>)
        ensures
            l.wf(),
            l.keys_used() == 0,
            !l.writing(),
            !l.mutex_held(),
            l.readers() == 0,
            l.waiting_readers().len() == 0,
            l.waiting_writers().len() == 0,
            l.value() == t,
    {
        let read_sem = SemaphoreInner::new(0).unwrap();
        let write_sem = SemaphoreInner::new(0).unwrap();
        let write_mutex = SemaphoreInner::new(1).unwrap();
        RwLock { read_sem, write_sem, write_mutex, read_count: 0, read_wait: 0, data: t }
    }

    /// Reads the lock if no writer claims it; fails with `LockError`
    /// otherwise.
    pub fn try_read(&mut self) -> (r: Result<RwLockReadGuard, LockError>)
        requires
            old(self).wf(),
            old(self).readers() + 1 < MAX_READS,
        ensures
            final(self).wf(),
            r is Ok <==> !old(self).writing(),
            final(self).writing() == old(self).writing(),
            final(self).mutex_held() == old(self).mutex_held(),
            r is Ok ==> final(self).readers() == old(self).readers() + 1,
            r is Err ==> final(self).readers() == old(self).readers(),
            final(self).waiting_readers() == old(self).waiting_readers(),
            final(self).waiting_writers() == old(self).waiting_writers(),
            final(self).value() == old(self).value(),
            final(self).keys_used() == old(self).keys_used(),
    {
        let read_count = self.read_count;
        if read_count < 0 {
            Err(LockError)
        } else {
            self.read_count = read_count + 1;
            Ok(RwLockReadGuard { held: () })
        }
    }

    /// The first poll of a task that waits to read, with waker `waiter`: it
    /// counts itself among the readers, and reads at once unless a writer
    /// claims the lock, in which case it waits at the end of the waiting
    /// readers.
    pub fn read(&mut self, waiter: u64, waker_index: &mut Option<usize>, enqueue: &mut bool) -> (r: ReadPoll)
        requires
            old(self).wf(),
            old(self).keys_left(),
            !*old(enqueue),
            old(self).waiting_readers().len() + old(self).readers() + 2 < MAX_READS,
            old(self).waiting_readers().len() + 1 < MAX_PERMITS,
        ensures
            final(self).wf(),
            final(self).writing() == old(self).writing(),
            final(self).write_held() == old(self).write_held(),
            final(self).mutex_held() == old(self).mutex_held(),
            final(self).readers() == if old(self).writing() {
                old(self).readers()
            } else {
                old(self).readers() + 1
            },
            final(self).waiting_writers() == old(self).waiting_writers(),
            final(self).draining_writer() == old(self).draining_writer(),
            final(self).value() == old(self).value(),
            !old(self).writing() ==> r is Ready && final(self).waiting_readers() == old(self).waiting_readers()
                && !*final(enqueue),
            old(self).writing() ==> r is Pending && *final(enqueue) && (*final(waker_index)) is Some
                && final(self).waiting_readers() == old(self).waiting_readers().push(waiter)
                && final(self).waiting_reader_keys() == old(self).waiting_reader_keys().push(
                (*final(waker_index))->0,
            ),
            final(self).keys_used() <= old(self).keys_used() + 1,
    {
        let prev = self.read_count;
        self.read_count = prev + 1;
        if prev >= 0 {
            return ReadPoll::Ready(RwLockReadGuard { held: () });
        }
        match self.read_sem.poll_acquire(waiter, waker_index, enqueue) {
            AcquirePoll::Pending => ReadPoll::Pending,
            _ => {
                proof {
                    assert(false);
                }
                ReadPoll::Pending
            },
        }
    }

    /// A later poll of a task that waits to read: woken, it was handed the
    /// read by the writer that left, and reads.
    pub fn poll_read(&mut self, waiter: u64, waker_index: &mut Option<usize>, enqueue: &mut bool) -> (r:
        ReadPoll)
        requires
            old(self).wf(),
            old(self).keys_left(),
            *old(enqueue),
            (*old(waker_index)) is Some,
            !old(self).waiting_reader_keys().contains((*old(waker_index))->0),
        ensures
            *final(self) == *old(self),
            r is Ready,
            !*final(enqueue),
            final(self).keys_used() == old(self).keys_used(),
    {
        match self.read_sem.poll_acquire(waiter, waker_index, enqueue) {
            AcquirePoll::Ready(Ok(())) => ReadPoll::Ready(RwLockReadGuard { held: () }),
            _ => {
                proof {
                    assert(false);
                }
                ReadPoll::Pending
            },
        }
    }

    /// Writes the lock if nobody holds or claims it; fails with `LockError`
    /// otherwise.
    pub fn try_write(&mut self) -> (r: Result<RwLockWriteGuard, LockError>)
        requires
            old(self).wf(),
        ensures
            final(self).wf(),
            r is Ok <==> !old(self).mutex_held() && old(self).readers() == 0,
            r is Ok ==> final(self).writing() && final(self).write_held() && final(self).mutex_held()
                && final(self).readers() == 0,
            r is Err ==> final(self).writing() == old(self).writing() && final(self).write_held()
                == old(self).write_held() && final(self).readers() == old(self).readers()
                && final(self).mutex_held() == old(self).mutex_held(),
            final(self).waiting_readers() == old(self).waiting_readers(),
            final(self).waiting_writers() == old(self).waiting_writers(),
            final(self).draining_writer() == old(self).draining_writer(),
            final(self).value() == old(self).value(),
            final(self).keys_used() == old(self).keys_used(),
    {
        if self.write_mutex.try_acquire().is_err() {
            return Err(LockError);
        }
        if self.read_count == 0 {
            self.read_count = -MAX_READS;
            Ok(RwLockWriteGuard { held: () })
        } else {
            let _ = self.write_mutex.release();
            Err(LockError)
        }
    }

    /// A poll of a task that waits to write, with waker `waiter`, while it
    /// waits for the writers' mutex (`mutex_index`, `mutex_enqueue` record
    /// that wait). Once it has the mutex, it claims the lock: it writes at
    /// once if no reader holds it, and else records how many do and waits for
    /// them on the writer's semaphore (`sem_index`, `sem_enqueue`).
    pub fn write(
        &mut self,
        waiter: u64,
        mutex_index: &mut Option<usize>,
        mutex_enqueue: &mut bool,
        sem_index: &mut Option<usize>,
        sem_enqueue: &mut bool,
    ) -> (r: WritePoll)
        requires
            old(self).wf(),
            old(self).keys_left(),
            !*old(sem_enqueue),
            *old(mutex_enqueue) ==> (*old(mutex_index)) is Some && !old(self).waiting_writer_keys().contains(
                (*old(mutex_index))->0,
            ),
            *old(mutex_enqueue) ==> old(self).mutex_held() && !old(self).writing(),
        ensures
            final(self).wf(),
            final(self).value() == old(self).value(),
            final(self).waiting_readers() == old(self).waiting_readers(),
            final(self).readers() == old(self).readers(),
            ({
                let granted = *old(mutex_enqueue) || !old(self).mutex_held();
                &&& !granted ==> r is PendingMutex && *final(mutex_enqueue) && (*final(mutex_index)) is Some
                    && final(self).waiting_writers() == old(self).waiting_writers().push(waiter)
                    && final(self).waiting_writer_keys() == old(self).waiting_writer_keys().push(
                    (*final(mutex_index))->0,
                ) && final(self).writing() == old(self).writing() && final(self).write_held()
                    == old(self).write_held() && final(self).draining_writer() == old(self).draining_writer()
                    && final(self).mutex_held()
                &&& granted ==> {
                    &&& final(self).mutex_held()
                    &&& final(self).writing()
                    &&& !*final(mutex_enqueue)
                    &&& final(self).waiting_writers() == old(self).waiting_writers()
                    &&& old(self).readers() == 0 ==> r is Ready && final(self).write_held()
                    &&& old(self).readers() > 0 ==> r is PendingDrain && !final(self).write_held()
                        && *final(sem_enqueue) && (*final(sem_index)) is Some && final(self).draining_writer()
                        == seq![waiter] && final(self).draining_writer_keys() == old(self).draining_writer_keys().push(
                        (*final(sem_index))->0,
                    )
                }
            }),
            final(self).keys_used() <= old(self).keys_used() + 1,
    {
        match self.write_mutex.poll_acquire(waiter, mutex_index, mutex_enqueue) {
            AcquirePoll::Pending => {
                return WritePoll::PendingMutex;
            },
            AcquirePoll::Ready(Err(_)) => {
                proof {
                    assert(false);
                }
                return WritePoll::PendingMutex;
            },
            AcquirePoll::Ready(Ok(())) => {},
        }
        let read_count = self.read_count;
        self.read_count = read_count - MAX_READS;
        if read_count >= 0 {
            let prev = self.read_wait;
            self.read_wait = prev + read_count;
            if prev + read_count != 0 {
                let ghost before = self.write_sem;
                match self.write_sem.poll_acquire(waiter, sem_index, sem_enqueue) {
                    AcquirePoll::Pending => {
                        proof {
                            assert(before.waiting().push(waiter) =~= seq![waiter]);
                        }
                        return WritePoll::PendingDrain;
                    },
                    _ => {
                        proof {
                            assert(false);
                        }
                        return WritePoll::PendingDrain;
                    },
                }
            }
        }
        WritePoll::Ready(RwLockWriteGuard { held: () })
    }

    /// A later poll of a writer that waited for the readers to leave: woken,
    /// it was handed the lock by the last of them, and writes.
    pub fn poll_write_drain(&mut self, waiter: u64, sem_index: &mut Option<usize>, sem_enqueue: &mut bool)
        -> (r: WritePoll)
        requires
            old(self).wf(),
            old(self).keys_left(),
            *old(sem_enqueue),
            (*old(sem_index)) is Some,
            !old(self).draining_writer_keys().contains((*old(sem_index))->0),
        ensures
            *final(self) == *old(self),
            r is Ready,
            !*final(sem_enqueue),
            final(self).keys_used() == old(self).keys_used(),
    {
        match self.write_sem.poll_acquire(waiter, sem_index, sem_enqueue) {
            AcquirePoll::Ready(Ok(())) => WritePoll::Ready(RwLockWriteGuard { held: () }),
            _ => {
                proof {
                    assert(false);
                }
                WritePoll::PendingDrain
            },
        }
    }

    /// Ends a read. When a writer waits for the readers, the last of them
    /// hands it the lock; the woken writer's waker is returned.
    pub fn read_unlock(&mut self, guard: RwLockReadGuard) -> (woken: Option<u64>)
        requires
            old(self).wf(),
            old(self).readers() > 0,
        ensures
            final(self).wf(),
            final(self).readers() == old(self).readers() - 1,
            final(self).writing() == old(self).writing(),
            final(self).mutex_held() == old(self).mutex_held(),
            final(self).waiting_readers() == old(self).waiting_readers(),
            final(self).waiting_writers() == old(self).waiting_writers(),
            final(self).value() == old(self).value(),
            old(self).writing() && old(self).readers() == 1 ==> woken == Some(old(self).draining_writer()[0])
                && final(self).write_held() && final(self).draining_writer().len() == 0,
            !(old(self).writing() && old(self).readers() == 1) ==> woken is None && final(self).write_held()
                == old(self).write_held() && final(self).draining_writer() == old(self).draining_writer(),
            final(self).keys_used() == old(self).keys_used(),
    {
        let prev = self.read_count;
        self.read_count = prev - 1;
        if prev < 0 {
            let prev_wait = self.read_wait;
            self.read_wait = prev_wait - 1;
            if prev_wait == 1 {
                return self.write_sem.release();
            }
        }
        None
    }

    /// Ends a write: the readers that waited are let in, all at once, and the
    /// writers' mutex goes to the first waiting writer, or is freed. Gives
    /// back the wakers of the readers, and of the writer.
    pub fn write_unlock(&mut self, guard: RwLockWriteGuard) -> (woken: (Vec<u64>, Option<u64>))
        requires
            old(self).wf(),
            old(self).write_held(),
        ensures
            final(self).wf(),
            !final(self).writing(),
            final(self).readers() == old(self).waiting_readers().len(),
            woken.0@ == old(self).waiting_readers(),
            final(self).waiting_readers().len() == 0,
            final(self).value() == old(self).value(),
            old(self).waiting_writers().len() > 0 ==> woken.1 == Some(old(self).waiting_writers()[0])
                && final(self).mutex_held() && final(self).waiting_writers()
                == old(self).waiting_writers().drop_first() && final(self).waiting_writer_keys()
                == old(self).waiting_writer_keys().drop_first(),
            old(self).waiting_writers().len() == 0 ==> woken.1 is None && !final(self).mutex_held()
                && final(self).waiting_writers().len() == 0,
            final(self).keys_used() == old(self).keys_used(),
    {
        let read_count = self.read_count + MAX_READS;
        self.read_count = read_count;
        let readers = self.read_sem.release_multi(read_count as usize);
        let writer = self.write_mutex.release();
        (readers, writer)
    }

    /// The guarded value, seen by a reader.
    pub fn deref_read<'a>(&'a self, guard: &'a RwLockReadGuard) -> (r: &'a T)
        ensures
            *r == self.value(),
    {
        &self.data
    }

    /// The guarded value, to be changed by the writer.
    pub fn deref_write<'a>(&'a mut self, guard: &'a RwLockWriteGuard) -> (r: &'a mut T)
        ensures
            *r == old(self).value(),
            final(self).value() == *final(r),
            final(self).wf() == old(self).wf(),
            final(self).writing() == old(self).writing(),
            final(self).write_held() == old(self).write_held(),
            final(self).readers() == old(self).readers(),
            final(self).mutex_held() == old(self).mutex_held(),
            final(self).waiting_readers() == old(self).waiting_readers(),
            final(self).waiting_writers() == old(self).waiting_writers(),
            final(self).keys_used() == old(self).keys_used(),
    {
        &mut self.data
    }

    /// The guarded value, taking the lock apart.
    pub fn into_inner(self) -> (r: T)
        ensures
            r == self.value(),
    {
        self.data
    }

    /// The guarded value; the exclusive borrow of the lock makes locking
    /// needless.
    pub fn get_mut(&mut self) -> (r: &mut T)
        ensures
            *r == old(self).value(),
            final(self).value() == *final(r),
            final(self).wf() == old(self).wf(),
            final(self).writing() == old(self).writing(),
            final(self).write_held() == old(self).write_held(),
            final(self).readers() == old(self).readers(),
            final(self).mutex_held() == old(self).mutex_held(),
            final(self).keys_used() == old(self).keys_used(),
    {
        &mut self.data
    }
}

/// Readers and a writer never hold the lock together: while a writer holds
/// it, no reader does.
pub proof fn lemma_writer_excludes_readers<T>(l: RwLock<T>)
    requires
        l.wf(),
    ensures
        l.write_held() ==> l.readers() == 0,
        l.readers() > 0 ==> !l.write_held(),
{
}

} // verus!
