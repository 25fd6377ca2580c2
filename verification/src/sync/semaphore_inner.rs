//! The counting semaphore that the locks are built on: a number of permits, a
//! closed flag, and the list of tasks waiting for a permit.
use crate::sync::wake_list::WakerList;
use vstd::prelude::*;

verus! {

/// The most permits a semaphore can hold.
pub const MAX_PERMITS: usize = usize::MAX / 2;

/// Error returned by a semaphore.
#[derive(Debug, Eq, PartialEq, Clone, Copy, Structural)]
pub enum SemaphoreError {
    /// The number of permits would overflow.
    Overflow,
    /// The semaphore has no permit to give.
    Empty,
    /// The semaphore was closed.
    Closed,
}

impl SemaphoreError {
    /// The error's message.
    pub fn as_str(&self) -> (r: &'static str)
        ensures
            *self is Overflow ==> r@ == "permit overflow MAX_PERMITS"@,
            *self is Empty ==> r@ == "no permits available"@,
            *self is Closed ==> r@ == "semaphore has been closed"@,
    {
        match self {
            SemaphoreError::Overflow => "permit overflow MAX_PERMITS",
            SemaphoreError::Empty => "no permits available",
            SemaphoreError::Closed => "semaphore has been closed",
        }
    }
}

/// The outcome of one attempt to acquire a permit on behalf of a waiting task.
#[derive(Debug, Eq, PartialEq, Clone, Copy)]
pub enum AcquirePoll {
    /// The attempt is over: a permit was taken, or the semaphore is closed.
    Ready(Result<(), SemaphoreError>),
    /// The task has to wait until its waker is woken.
    Pending,
}

/// A counting semaphore. The state word holds the number of permits shifted
/// left by one, and the closed flag in its lowest bit.
pub struct SemaphoreInner {
    permits: usize,
    waker_list: WakerList,
}

/// Whether the lowest bit of a word is set.
proof fn lemma_low_bit(v: usize)
    ensures
        (v & 1 == 1) == (v % 2 == 1),
        v >> 1 == v / 2,
        (v | 1) == (if v % 2 == 0 {
            (v + 1) as usize
        } else {
            v
        }),
{
    assert((v & 1 == 1) == (v % 2 == 1)) by (bit_vector);
    assert(v >> 1 == v / 2) by (bit_vector);
    assert((v | 1) == (if v % 2 == 0 {
        (v + 1) as usize
    } else {
        v
    })) by (bit_vector);
}

impl SemaphoreInner {
    /// The number of permits.
    pub closed spec fn count(self) -> nat {
        (self.permits / 2) as nat
    }

    /// Whether the semaphore is closed.
    pub closed spec fn closed(self) -> bool {
        self.permits % 2 == 1
    }

    /// The waker ids of the waiting tasks, first come first.
    pub closed spec fn waiting(self) -> Seq<u64> {
        self.waker_list.waiting()
    }

    /// The keys under which the waiting tasks are registered, first come first.
    pub closed spec fn waiting_keys(self) -> Seq<usize> {
        self.waker_list.keys()
    }

    /// The number of waiter keys ever handed out.
    pub closed spec fn key_count(self) -> nat {
        self.waker_list.slot_count()
    }

    /// The semaphore is consistent.
    pub closed spec fn wf(self) -> bool {
        self.waker_list.wf()
    }

    /// A semaphore with `permits` permits; fails when that is `MAX_PERMITS` or
    /// more.
    pub fn new(permits: usize) -> (r: Result<SemaphoreInner, SemaphoreError>)
        ensures
            r is Err <==> permits >= MAX_PERMITS,
            r matches Err(e) ==> e == SemaphoreError::Overflow,
            r matches Ok(s) ==> s.wf() && s.count() == permits && !s.closed() && s.waiting()
                =~= Seq::<u64>::empty() && s.key_count() == 0,
    {
        if permits >= MAX_PERMITS {
            return Err(SemaphoreError::Overflow);
        }
        let s = SemaphoreInner { permits: permits * 2, waker_list: WakerList::new() };
        assert(s.waiting() =~= Seq::<u64>::empty());
        Ok(s)
    }

    /// The number of permits.
    pub fn current_permits(&self) -> (r: usize)
        ensures
            r == self.count(),
    {
        proof {
            lemma_low_bit(self.permits);
        }
        self.permits >> 1
    }

    /// Gives back a permit. When a task waits, the permit goes to the first
    /// waiting task, whose waker id is returned; otherwise the count grows.
    pub fn release(&mut self) -> (woken: Option<u64>)
        requires
            old(self).wf(),
            old(self).waiting().len() == 0 ==> old(self).count() < MAX_PERMITS,
        ensures
            final(self).wf(),
            final(self).closed() == old(self).closed(),
            final(self).key_count() == old(self).key_count(),
            old(self).waiting().len() > 0 ==> woken == Some(old(self).waiting()[0])
                && final(self).count() == old(self).count() && final(self).waiting()
                == old(self).waiting().drop_first() && final(self).waiting_keys() == old(self).waiting_keys().drop_first(),
            old(self).waiting().len() == 0 ==> woken is None && final(self).count() == old(self).count() + 1 && final(self).waiting() == old(self).waiting()
                && final(self).waiting_keys() == old(self).waiting_keys(),
    {
        let woken = self.waker_list.notify_one();
        if woken.is_none() {
            self.permits = self.permits + 2;
        }
        woken
    }

    /// Hands a permit to the first waiting task; with nobody waiting, leaves the
    /// semaphore with exactly one permit, open.
    pub fn release_notify(&mut self) -> (woken: Option<u64>)
        requires
            old(self).wf(),
        ensures
            final(self).wf(),
            final(self).key_count() == old(self).key_count(),
            old(self).waiting().len() > 0 ==> woken == Some(old(self).waiting()[0])
                && final(self).count() == old(self).count() && final(self).closed() == old(self).closed() && final(self).waiting() == old(self).waiting().drop_first()
                && final(self).waiting_keys() == old(self).waiting_keys().drop_first(),
            old(self).waiting().len() == 0 ==> woken is None && final(self).count() == 1
                && !final(self).closed() && final(self).waiting() == old(self).waiting()
                && final(self).waiting_keys() == old(self).waiting_keys(),
    {
        let woken = self.waker_list.notify_one();
        if woken.is_none() {
            self.permits = 2;
        }
        woken
    }

    /// Gives back `permits` permits: one to each waiting task, first come first,
    /// while there are both; the rest are added to the count. Returns the waker
    /// ids of the tasks that got one.
    pub fn release_multi(&mut self, permits: usize) -> (woken: Vec<u64>)
        requires
            old(self).wf(),
            old(self).count() + permits - (if permits < old(self).waiting().len() {
                permits as int
            } else {
                old(self).waiting().len() as int
            }) < MAX_PERMITS,
        ensures
            final(self).wf(),
            final(self).key_count() == old(self).key_count(),
            final(self).closed() == old(self).closed(),
            woken@.len() == if permits < old(self).waiting().len() {
                permits as int
            } else {
                old(self).waiting().len() as int
            },
            woken@ == old(self).waiting().take(woken@.len() as int),
            final(self).waiting() == old(self).waiting().skip(woken@.len() as int),
            final(self).count() == old(self).count() + permits - woken@.len(),
    {
        let mut left = permits;
        let mut woken: Vec<u64> = Vec::new();
        loop
            invariant
                self.wf(),
                self.key_count() == old(self).key_count(),
                self.permits == old(self).permits,
                left <= permits,
                woken@.len() == permits - left,
                woken@ + self.waiting() == old(self).waiting(),
            ensures
                self.wf(),
                self.key_count() == old(self).key_count(),
                self.permits == old(self).permits,
                left <= permits,
                woken@.len() == permits - left,
                woken@ + self.waiting() == old(self).waiting(),
                left == 0 || self.waiting().len() == 0,
            decreases left,
        {
            if left == 0 {
                break;
            }
            let ghost prev_w = self.waiting();
            let ghost prev_out = woken@;
            match self.waker_list.notify_one() {
                Some(id) => {
                    woken.push(id);
                    left = left - 1;
                    proof {
                        assert(woken@ + self.waiting() =~= prev_out + prev_w);
                    }
                },
                None => {
                    break;
                },
            }
        }
        proof {
            let w = old(self).waiting();
            assert(woken@ =~= w.take(woken@.len() as int));
            assert(self.waiting() =~= w.skip(woken@.len() as int));
        }
        self.permits = self.permits + left * 2;
        woken
    }

    /// Wakes every waiting task; returns their waker ids, first come first.
    pub fn release_all(&mut self) -> (woken: Vec<u64>)
        requires
            old(self).wf(),
        ensures
            final(self).wf(),
            woken@ == old(self).waiting(),
            final(self).waiting().len() == 0,
            final(self).count() == old(self).count(),
            final(self).closed() == old(self).closed(),
            final(self).key_count() == old(self).key_count(),
    {
        self.waker_list.notify_all()
    }

    /// Takes a permit without waiting; fails when the semaphore is closed or
    /// has none.
    pub fn try_acquire(&mut self) -> (r: Result<(), SemaphoreError>)
        ensures
            final(self).closed() == old(self).closed(),
            final(self).waiting() == old(self).waiting(),
            final(self).waiting_keys() == old(self).waiting_keys(),
            final(self).key_count() == old(self).key_count(),
            final(self).wf() == old(self).wf(),
            old(self).closed() ==> r == Err::<(), SemaphoreError>(SemaphoreError::Closed)
                && final(self).count() == old(self).count(),
            !old(self).closed() && old(self).count() == 0 ==> r == Err::<(), SemaphoreError>(
                SemaphoreError::Empty,
            ),
            !old(self).closed() && old(self).count() > 0 ==> r is Ok && final(self).count()
                == old(self).count() - 1,
            r is Err ==> final(self).count() == old(self).count(),
    {
        let curr = self.permits;
        proof {
            lemma_low_bit(curr);
        }
        if curr & 1 == 1 {
            return Err(SemaphoreError::Closed);
        }
        if curr > 0 {
            self.permits = curr - 2;
            Ok(())
        } else {
            Err(SemaphoreError::Empty)
        }
    }

    /// Whether the semaphore is closed.
    pub fn is_closed(&self) -> (r: bool)
        ensures
            r == self.closed(),
    {
        proof {
            lemma_low_bit(self.permits);
        }
        self.permits & 1 == 1
    }

    /// Closes the semaphore and wakes every waiting task; returns their waker
    /// ids, first come first.
    pub fn close(&mut self) -> (woken: Vec<u64>)
        requires
            old(self).wf(),
        ensures
            final(self).wf(),
            final(self).closed(),
            final(self).count() == old(self).count(),
            woken@ == old(self).waiting(),
            final(self).waiting().len() == 0,
            final(self).key_count() == old(self).key_count(),
    {
        proof {
            lemma_low_bit(self.permits);
        }
        self.permits = self.permits | 1;
        self.waker_list.notify_all()
    }

    /// One attempt to acquire a permit for the task whose waker id is `waiter`.
    ///
    /// `waker_index` and `enqueue` are the attempt's own record: whether the
    /// task was registered as a waiter, and under which key. A closed semaphore
    /// ends the attempt with `Closed`. A registered task that is polled again
    /// was handed its permit by a release, and ends with `Ok`. Otherwise a
    /// permit is taken if there is one; if there is none, the task is
    /// registered at the end of the waiting list and has to wait.
    pub fn poll_acquire(&mut self, waiter: u64, waker_index: &mut Option<usize>, enqueue: &mut bool)
        -> (r: AcquirePoll)
        requires
            old(self).wf(),
            old(self).key_count() + 1 < usize::MAX,
        ensures
            final(self).wf(),
            final(self).closed() == old(self).closed(),
            old(self).closed() ==> r == AcquirePoll::Ready(Err(SemaphoreError::Closed))
                && *final(self) == *old(self) && *final(enqueue) == *old(enqueue) && *final(waker_index) == *old(waker_index),
            !old(self).closed() && *old(enqueue) ==> r == AcquirePoll::Ready(Ok(())) && !*final(enqueue) && *final(self) == *old(self) && *final(waker_index) == *old(waker_index),
            !old(self).closed() && !*old(enqueue) && old(self).count() > 0 ==> r
                == AcquirePoll::Ready(Ok(())) && final(self).count() == old(self).count() - 1
                && final(self).waiting() == old(self).waiting() && final(self).waiting_keys()
                == old(self).waiting_keys() && final(self).key_count() == old(self).key_count() && !*final(enqueue)
                && *final(waker_index) == *old(waker_index),
            !old(self).closed() && !*old(enqueue) && old(self).count() == 0 ==> r
                == AcquirePoll::Pending && *final(enqueue) && final(self).count() == 0
                && (*final(waker_index)) is Some && final(self).waiting_keys() == old(self).waiting_keys().push((*final(waker_index))->0) && final(self).waiting() == old(self).waiting().push(waiter) && final(self).key_count() <= old(self).key_count() + 1,
    {
        let curr = self.permits;
        proof {
            lemma_low_bit(curr);
        }
        if curr & 1 == 1 {
            return AcquirePoll::Ready(Err(SemaphoreError::Closed));
        } else if *enqueue {
            *enqueue = false;
            return AcquirePoll::Ready(Ok(()));
        }
        if curr >= 2 {
            self.permits = curr - 2;
            return AcquirePoll::Ready(Ok(()));
        }
        let ghost old_list = self.waker_list;
        let key = self.waker_list.insert(waiter);
        *waker_index = Some(key);
        *enqueue = true;
        proof {
            let o = old_list.keys();
            let n = self.waker_list.keys();
            assert(self.waker_list.waiting() =~= old_list.waiting().push(waiter)) by {
                assert forall|i: int| 0 <= i < o.len() implies #[trigger] self.waker_list.ids()[n[i]]
                    == old_list.ids()[o[i]] by {
                    assert(n[i] == o[i]);
                    assert(o[i] != key);
                }
            }
        }
        AcquirePoll::Pending
    }

    /// Ends an attempt to acquire: a task that is still registered as a waiter
    /// leaves the waiting list.
    pub fn cancel_acquire(&mut self, waker_index: Option<usize>, enqueue: bool)
        requires
            old(self).wf(),
            enqueue ==> waker_index is Some,
        ensures
            final(self).wf(),
            final(self).count() == old(self).count(),
            final(self).closed() == old(self).closed(),
            final(self).key_count() == old(self).key_count(),
            !enqueue ==> final(self).waiting_keys() == old(self).waiting_keys(),
            enqueue && old(self).waiting_keys().contains(waker_index->0) ==> final(self).waiting_keys() == old(self).waiting_keys().remove(
                old(self).waiting_keys().index_of(waker_index->0),
            ),
            enqueue && !old(self).waiting_keys().contains(waker_index->0) ==> final(self).waiting_keys() == old(self).waiting_keys(),
    {
        if enqueue {
            match waker_index {
                Some(index) => {
                    let _ = self.waker_list.remove(index);
                },
                None => {},
            }
        }
    }
}


/// What one call did to the permits of a semaphore that no task waits on.
pub enum PermitCall {
    /// A permit was taken: a successful `try_acquire`, or a first
    /// `poll_acquire` that was ready at once.
    Acquire,
    /// A permit was given back: `release` with nobody waiting.
    Release,
    /// The permits stayed: a failed acquire, `close`, or a query.
    Other,
}

/// `after` came from `before` by the call `call`, as the calls' contracts
/// state it.
pub open spec fn permit_call(before: SemaphoreInner, after: SemaphoreInner, call: PermitCall) -> bool {
    match call {
        PermitCall::Acquire => before.count() > 0 && after.count() == before.count() - 1,
        PermitCall::Release => after.count() == before.count() + 1,
        PermitCall::Other => after.count() == before.count(),
    }
}

/// How many calls of `calls` are `call`.
pub open spec fn calls_of(calls: Seq<PermitCall>, call: PermitCall) -> nat
    decreases calls.len(),
{
    if calls.len() == 0 {
        0
    } else {
        calls_of(calls.drop_last(), call) + if calls.last() == call {
            1nat
        } else {
            0nat
        }
    }
}

/// Over any run of calls, the permits are those at the start, less the ones
/// taken, plus the ones given back: a semaphore made with `n` permits, after
/// `a` acquisitions and `b` releases with nobody waiting, has `n - a + b`.
pub proof fn lemma_permit_count(states: Seq<SemaphoreInner>, calls: Seq<PermitCall>)
    requires
        states.len() == calls.len() + 1,
        forall|i: int| 0 <= i < calls.len() ==> #[trigger] permit_call(states[i], states[i + 1], calls[i]),
    ensures
        states.last().count() == states[0].count() - calls_of(calls, PermitCall::Acquire) + calls_of(
            calls,
            PermitCall::Release,
        ),
    decreases calls.len(),
{
    if calls.len() > 0 {
        let n = calls.len() - 1;
        let prefix = states.subrange(0, n + 1);
        assert forall|i: int| 0 <= i < calls.drop_last().len() implies #[trigger] permit_call(
            prefix[i],
            prefix[i + 1],
            calls.drop_last()[i],
        ) by {
            assert(permit_call(states[i], states[i + 1], calls[i]));
        }
        lemma_permit_count(prefix, calls.drop_last());
        assert(permit_call(states[n], states[n + 1], calls[n]));
    }
}

} // verus!
