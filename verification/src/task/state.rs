//! The state word of a task: flag bits in the low bits, the reference count in
//! the high bits, and the transitions between states.
use crate::error::ErrorKind;
use vstd::prelude::*;

verus! {

/// The task is running.
pub const RUNNING: usize = 0b0001;
/// The task is in the schedule list.
pub const SCHEDULING: usize = 0b0100;
/// The task has finished.
pub const FINISHED: usize = 0b1000;
/// The task was canceled.
pub const CANCELED: usize = 0b1_0000;
/// The task has to hand its result to its join handle.
pub const CARE_JOIN_HANDLE: usize = 0b10_0000;
/// The task holds a waker of its join handle.
pub const JOIN_WAKER: usize = 0b100_0000;
/// The bits of the reference count.
pub const RC_MASK: usize = !0b11_1111_1111;
/// The position of the reference count's lowest bit.
pub const RC_SHIFT: usize = 10;
/// One reference.
pub const REF_ONE: usize = 0b100_0000_0000;
/// A new task: scheduled, caring for its join handle, with two references (the
/// join handle's and the task's own).
pub const INIT: usize = 0b1000_0010_0100;

/// Whether every bit of `flag` is set in `cur`.
pub open spec fn has_flag(cur: usize, flag: usize) -> bool {
    cur & flag == flag
}

/// The reference count held in a state word.
pub fn ref_count(state: usize) -> (r: usize)
    ensures
        r == state / 1024,
{
    assert((state & !0b11_1111_1111usize) >> 10usize == state / 1024) by (bit_vector);
    (state & RC_MASK) >> RC_SHIFT
}

/// Whether the state word holds exactly one reference.
pub fn is_last_ref_count(prev: usize) -> (r: bool)
    ensures
        r == (prev / 1024 == 1),
{
    ref_count(prev) == 1
}

/// Whether the task was canceled.
pub fn is_canceled(cur: usize) -> (r: bool)
    ensures
        r == has_flag(cur, CANCELED),
{
    cur & CANCELED == CANCELED
}

/// Whether the task has to hand its result to its join handle.
pub fn is_care_join_handle(cur: usize) -> (r: bool)
    ensures
        r == has_flag(cur, CARE_JOIN_HANDLE),
{
    cur & CARE_JOIN_HANDLE == CARE_JOIN_HANDLE
}

/// Whether the task has finished.
pub fn is_finished(cur: usize) -> (r: bool)
    ensures
        r == has_flag(cur, FINISHED),
{
    cur & FINISHED == FINISHED
}

/// Whether the task holds a waker of its join handle.
pub fn is_set_waker(cur: usize) -> (r: bool)
    ensures
        r == has_flag(cur, JOIN_WAKER),
{
    cur & JOIN_WAKER == JOIN_WAKER
}

/// Whether the task is in the schedule list.
pub fn is_scheduling(cur: usize) -> (r: bool)
    ensures
        r == has_flag(cur, SCHEDULING),
{
    cur & SCHEDULING == SCHEDULING
}

/// Whether the task is running.
pub fn is_running(cur: usize) -> (r: bool)
    ensures
        r == has_flag(cur, RUNNING),
{
    cur & RUNNING == RUNNING
}

/// Whether a task in this state has to be pushed back onto the schedule list:
/// it is neither scheduled, running nor finished.
pub fn need_enqueue(cur: usize) -> (r: bool)
    ensures
        r == (!has_flag(cur, SCHEDULING) && !has_flag(cur, RUNNING) && !has_flag(cur, FINISHED)),
{
    (cur & SCHEDULING != SCHEDULING) && (cur & RUNNING != RUNNING) && (cur & FINISHED != FINISHED)
}

/// What a state transition asks of its caller.
#[derive(Debug, Clone, Copy, PartialEq, Eq, Structural)]
pub enum StateAction {
    /// The transition went through.
    Success,
    /// The transition went through, but the task was canceled; holds the state.
    Canceled(usize),
    /// The transition did not go through; holds the state.
    Failed(usize),
    /// The transition went through, and the task has to be scheduled again.
    Enqueue,
}

/// Turning to running: the task must be scheduled, and neither running nor
/// finished. The scheduled bit is exchanged for the running bit.
pub open spec fn running_step(cur: usize) -> (StateAction, usize) {
    if has_flag(cur, RUNNING) || has_flag(cur, FINISHED) || !has_flag(cur, SCHEDULING) {
        (StateAction::Failed(cur), cur)
    } else {
        let next = (cur & !SCHEDULING) | RUNNING;
        (if has_flag(next, CANCELED) {
            StateAction::Canceled(next)
        } else {
            StateAction::Success
        }, next)
    }
}

/// Turning to finished: the task must be running and not finished. The
/// running bit is exchanged for the finished bit.
pub open spec fn finish_step(cur: usize) -> (Result<usize, ErrorKind>, usize) {
    if has_flag(cur, FINISHED) {
        (Err(ErrorKind::TaskShutdown), cur)
    } else if !has_flag(cur, RUNNING) {
        (Err(ErrorKind::TaskStateInvalid), cur)
    } else {
        let next = (cur & !RUNNING) | FINISHED;
        (Ok(next), next)
    }
}

/// Turning to idle: the task must be running and not canceled. The running
/// bit is cleared; a task that was scheduled meanwhile must be enqueued.
pub open spec fn idle_step(cur: usize) -> (StateAction, usize) {
    if !has_flag(cur, RUNNING) {
        (StateAction::Failed(cur), cur)
    } else if has_flag(cur, CANCELED) {
        (StateAction::Canceled(cur), cur)
    } else {
        let next = cur & !RUNNING;
        (if has_flag(next, SCHEDULING) {
            StateAction::Enqueue
        } else {
            StateAction::Success
        }, next)
    }
}

/// Dropping the join handle's waker: the task must care for its join handle,
/// hold its waker, and not be finished.
pub open spec fn un_set_waker_step(cur: usize) -> (Result<usize, usize>, usize) {
    if !has_flag(cur, CARE_JOIN_HANDLE) || !has_flag(cur, JOIN_WAKER) || has_flag(cur, FINISHED) {
        (Err(cur), cur)
    } else {
        let next = cur & !JOIN_WAKER;
        (Ok(next), next)
    }
}

/// Taking the join handle's waker: the task must care for its join handle,
/// hold no waker yet, and not be finished.
pub open spec fn set_waker_step(cur: usize) -> (Result<usize, usize>, usize) {
    if !has_flag(cur, CARE_JOIN_HANDLE) || has_flag(cur, JOIN_WAKER) || has_flag(cur, FINISHED) {
        (Err(cur), cur)
    } else {
        let next = cur | JOIN_WAKER;
        (Ok(next), next)
    }
}

/// Canceling: nothing happens to a task that is canceled or finished. A
/// running task is marked canceled and scheduled and needs no scheduling by the
/// caller; another task is marked canceled, and, when it was not scheduled,
/// scheduled, which the caller then has to do.
pub open spec fn cancel_step(cur: usize) -> (bool, usize) {
    if has_flag(cur, CANCELED) || has_flag(cur, FINISHED) {
        (false, cur)
    } else if has_flag(cur, RUNNING) {
        (false, cur | SCHEDULING | CANCELED)
    } else if !has_flag(cur | CANCELED, SCHEDULING) {
        (true, cur | CANCELED | SCHEDULING)
    } else {
        (false, cur | CANCELED)
    }
}

/// Dropping the interest in the join handle: the task must not be finished.
pub open spec fn un_join_handle_step(cur: usize) -> (Result<usize, ()>, usize) {
    if has_flag(cur, FINISHED) {
        (Err(()), cur)
    } else {
        let next = cur & !CARE_JOIN_HANDLE;
        (Ok(next), next)
    }
}

/// The state of a task.
pub struct TaskState {
    state: usize,
}

impl View for TaskState {
    type V = usize;

    closed spec fn view(&self) -> usize {
        self.state
    }
}

impl TaskState {
    /// A new task's state.
    pub fn new() -> (s: TaskState)
        ensures
            s@ == INIT,
    {
        TaskState { state: INIT }
    }

    /// Overwrites the state.
    pub fn store(&mut self, state: usize)
        ensures
            final(self)@ == state,
    {
        self.state = state;
    }

    /// Drops one reference; returns the state before.
    pub fn dec_ref(&mut self) -> (prev: usize)
        ensures
            prev == old(self)@,
            final(self)@ == (if old(self)@ >= REF_ONE {
                old(self)@ - REF_ONE
            } else {
                old(self)@ - REF_ONE + usize::MAX + 1
            }),
    {
        let prev = self.state;
        self.state = self.state.wrapping_sub(REF_ONE);
        prev
    }

    /// Adds one reference.
    pub fn inc_ref(&mut self)
        ensures
            final(self)@ == (if old(self)@ + REF_ONE <= usize::MAX {
                old(self)@ + REF_ONE
            } else {
                old(self)@ + REF_ONE - usize::MAX - 1
            }),
    {
        self.state = self.state.wrapping_add(REF_ONE);
    }

    /// The current state.
    pub fn get_current_state(&self) -> (r: usize)
        ensures
            r == self@,
    {
        self.state
    }

    /// Turns the task to running; fails when the task is running, finished, or
    /// not scheduled.
    pub fn turning_to_running(&mut self) -> (r: StateAction)
        ensures
            (r, final(self)@) == running_step(old(self)@),
    {
        let cur = self.state;
        if is_running(cur) || is_finished(cur) || !is_scheduling(cur) {
            return StateAction::Failed(cur);
        }
        let mut next = cur;
        next &= !SCHEDULING;
        next |= RUNNING;
        let action = if is_canceled(next) {
            StateAction::Canceled(next)
        } else {
            StateAction::Success
        };
        self.state = next;
        action
    }

    /// Turns the task to finished; fails when it is finished already or not
    /// running.
    pub fn turning_to_finish(&mut self) -> (r: Result<usize, ErrorKind>)
        ensures
            (r, final(self)@) == finish_step(old(self)@),
    {
        let cur = self.state;
        if is_finished(cur) {
            return Err(ErrorKind::TaskShutdown);
        }
        if !is_running(cur) {
            return Err(ErrorKind::TaskStateInvalid);
        }
        let mut next = cur;
        next &= !RUNNING;
        next |= FINISHED;
        self.state = next;
        Ok(next)
    }

    /// Turns the task to idle; fails when it is not running, and reports a
    /// canceled task.
    pub fn turning_to_idle(&mut self) -> (r: StateAction)
        ensures
            (r, final(self)@) == idle_step(old(self)@),
    {
        let cur = self.state;
        if !is_running(cur) {
            return StateAction::Failed(cur);
        }
        if is_canceled(cur) {
            return StateAction::Canceled(cur);
        }
        let mut next = cur;
        next &= !RUNNING;
        let action = if is_scheduling(next) {
            StateAction::Enqueue
        } else {
            StateAction::Success
        };
        self.state = next;
        action
    }

    /// Marks the task scheduled; returns the state before.
    pub fn turn_to_scheduling(&mut self) -> (prev: usize)
        ensures
            prev == old(self)@,
            final(self)@ == old(self)@ | SCHEDULING,
    {
        let prev = self.state;
        self.state = self.state | SCHEDULING;
        prev
    }

    /// Drops the join handle's waker.
    pub fn turn_to_un_set_waker(&mut self) -> (r: Result<usize, usize>)
        ensures
            (r, final(self)@) == un_set_waker_step(old(self)@),
    {
        let cur = self.state;
        if !is_care_join_handle(cur) || !is_set_waker(cur) {
            return Err(cur);
        }
        if is_finished(cur) {
            return Err(cur);
        }
        let mut next = cur;
        next &= !JOIN_WAKER;
        self.state = next;
        Ok(next)
    }

    /// Takes the join handle's waker.
    pub fn turn_to_set_waker(&mut self) -> (r: Result<usize, usize>)
        ensures
            (r, final(self)@) == set_waker_step(old(self)@),
    {
        let cur = self.state;
        if !is_care_join_handle(cur) || is_set_waker(cur) {
            return Err(cur);
        }
        if is_finished(cur) {
            return Err(cur);
        }
        let mut next = cur;
        next |= JOIN_WAKER;
        self.state = next;
        Ok(next)
    }

    /// Cancels the task; returns whether the caller has to schedule it.
    pub fn turn_to_canceled_and_scheduled(&mut self) -> (r: bool)
        ensures
            (r, final(self)@) == cancel_step(old(self)@),
            r == (!has_flag(old(self)@, CANCELED) && !has_flag(old(self)@, FINISHED) && !has_flag(
                old(self)@,
                RUNNING,
            ) && !has_flag(old(self)@, SCHEDULING)),
    {
        proof {
            lemma_cancel_schedules_idle_task(self.state);
        }
        let cur = self.state;
        if is_canceled(cur) || is_finished(cur) {
            return false;
        }
        let mut next = cur;
        let need_schedule = if is_running(cur) {
            next |= SCHEDULING;
            next |= CANCELED;
            false
        } else {
            next |= CANCELED;
            if !is_scheduling(next) {
                next |= SCHEDULING;
                true
            } else {
                false
            }
        };
        proof {
            assert((cur | SCHEDULING) | CANCELED == cur | SCHEDULING | CANCELED);
        }
        self.state = next;
        need_schedule
    }

    /// Drops the interest in the join handle; fails when the task is finished.
    pub fn turn_to_un_join_handle(&mut self) -> (r: Result<usize, ()>)
        ensures
            (r, final(self)@) == un_join_handle_step(old(self)@),
    {
        let cur = self.state;
        if is_finished(cur) {
            return Err(());
        }
        let mut next = cur;
        next &= !CARE_JOIN_HANDLE;
        self.state = next;
        Ok(next)
    }

    /// Drops the interest in the join handle, and the join handle's reference,
    /// of a task that is still in its initial state; returns whether it was.
    pub fn try_turning_to_un_join_handle(&mut self) -> (r: bool)
        ensures
            r == (old(self)@ == INIT),
            r ==> final(self)@ == ((INIT - REF_ONE) as usize) & !CARE_JOIN_HANDLE,
            !r ==> final(self)@ == old(self)@,
    {
        if self.state == INIT {
            self.state = (INIT - REF_ONE) & !CARE_JOIN_HANDLE;
            true
        } else {
            false
        }
    }

    /// Marks the task canceled; returns the state before.
    pub fn set_cancel(&mut self) -> (prev: usize)
        ensures
            prev == old(self)@,
            final(self)@ == old(self)@ | CANCELED,
    {
        let prev = self.state;
        self.state = self.state | CANCELED;
        prev
    }

    /// Marks the task running.
    pub fn set_running(&mut self)
        ensures
            final(self)@ == old(self)@ | RUNNING,
    {
        self.state = self.state | RUNNING;
    }
}

/// The flag bits that canceling sets, and how setting them acts on the others.
proof fn lemma_cancel_bits(cur: usize)
    by (bit_vector)
    ensures
        ((cur | 0b1_0000usize) & 0b0100usize == 0b0100usize) == (cur & 0b0100usize == 0b0100usize),
        (cur | 0b1_0000usize | 0b0100usize) & 0b1_0000usize == 0b1_0000usize,
        (cur | 0b1_0000usize | 0b0100usize) & 0b0100usize == 0b0100usize,
        (cur | 0b0100usize | 0b1_0000usize) & 0b1_0000usize == 0b1_0000usize,
        (cur | 0b0100usize | 0b1_0000usize) & 0b0100usize == 0b0100usize,
        (cur | 0b1_0000usize) & 0b1_0000usize == 0b1_0000usize,
        (cur | 0b1_0000usize | 0b0100usize) & !0b1_0000usize & !0b0100usize == cur & !0b1_0000usize
            & !0b0100usize,
        (cur | 0b0100usize | 0b1_0000usize) & !0b1_0000usize & !0b0100usize == cur & !0b1_0000usize
            & !0b0100usize,
        (cur | 0b1_0000usize) & !0b1_0000usize & !0b0100usize == cur & !0b1_0000usize & !0b0100usize,
{
}

/// Canceling a task: one that is neither canceled, finished, running nor
/// scheduled has to be scheduled by the caller, so that it runs to its end
/// and reports the cancellation; no other task has to. A task that was not
/// canceled or finished comes out canceled and scheduled; one that was is
/// left as it was; no other bit changes.
pub proof fn lemma_cancel_schedules_idle_task(cur: usize)
    ensures
        cancel_step(cur).0 == (!has_flag(cur, CANCELED) && !has_flag(cur, FINISHED) && !has_flag(cur, RUNNING)
            && !has_flag(cur, SCHEDULING)),
        !has_flag(cur, CANCELED) && !has_flag(cur, FINISHED) ==> has_flag(cancel_step(cur).1, CANCELED)
            && has_flag(cancel_step(cur).1, SCHEDULING),
        has_flag(cur, CANCELED) || has_flag(cur, FINISHED) ==> cancel_step(cur).1 == cur,
        cancel_step(cur).1 & !CANCELED & !SCHEDULING == cur & !CANCELED & !SCHEDULING,
{
    lemma_cancel_bits(cur);
}

/// Once finished, a task stays finished: no transition clears the finished bit.
pub proof fn lemma_finished_is_final(cur: usize)
    requires
        has_flag(cur, FINISHED),
    ensures
        has_flag(running_step(cur).1, FINISHED),
        has_flag(finish_step(cur).1, FINISHED),
        has_flag(idle_step(cur).1, FINISHED),
        has_flag(un_set_waker_step(cur).1, FINISHED),
        has_flag(set_waker_step(cur).1, FINISHED),
        has_flag(cancel_step(cur).1, FINISHED),
        has_flag(un_join_handle_step(cur).1, FINISHED),
        has_flag(cur | SCHEDULING, FINISHED),
        has_flag(cur | CANCELED, FINISHED),
        has_flag(cur | RUNNING, FINISHED),
{
    assert(cur & 0b1000 == 0b1000 ==> (cur | 0b0100) & 0b1000 == 0b1000 && (cur | 0b1_0000)
        & 0b1000 == 0b1000 && (cur | 0b0001) & 0b1000 == 0b1000 && (cur & !0b0001usize)
        & 0b1000 == 0b1000 && (cur & !0b100_0000usize) & 0b1000 == 0b1000 && (cur
        | 0b100_0000) & 0b1000 == 0b1000 && (cur & !0b10_0000usize) & 0b1000 == 0b1000 && (cur
        | 0b0100 | 0b1_0000) & 0b1000 == 0b1000 && (cur | 0b1_0000 | 0b0100) & 0b1000 == 0b1000)
        by (bit_vector);
}

/// No state transition changes the reference count; only `inc_ref` and
/// `dec_ref` do.
pub proof fn lemma_transitions_keep_ref_count(cur: usize)
    ensures
        running_step(cur).1 / 1024 == cur / 1024,
        finish_step(cur).1 / 1024 == cur / 1024,
        idle_step(cur).1 / 1024 == cur / 1024,
        un_set_waker_step(cur).1 / 1024 == cur / 1024,
        set_waker_step(cur).1 / 1024 == cur / 1024,
        cancel_step(cur).1 / 1024 == cur / 1024,
        un_join_handle_step(cur).1 / 1024 == cur / 1024,
        (cur | SCHEDULING) / 1024 == cur / 1024,
        (cur | CANCELED) / 1024 == cur / 1024,
        (cur | RUNNING) / 1024 == cur / 1024,
{
    assert(((cur & !0b0100usize) | 0b0001) / 1024 == cur / 1024 && ((cur & !0b0001usize)
        | 0b1000) / 1024 == cur / 1024 && (cur & !0b0001usize) / 1024 == cur / 1024 && (cur
        & !0b100_0000usize) / 1024 == cur / 1024 && (cur | 0b100_0000) / 1024 == cur / 1024 && (cur
        | 0b0100 | 0b1_0000) / 1024 == cur / 1024 && (cur | 0b1_0000 | 0b0100) / 1024 == cur
        / 1024 && (cur | 0b1_0000) / 1024 == cur / 1024 && (cur & !0b10_0000usize) / 1024 == cur
        / 1024 && (cur | 0b0100) / 1024 == cur / 1024 && (cur | 0b0001) / 1024 == cur / 1024)
        by (bit_vector);
}

/// A task that was turned to running can be turned to finished, and one that
/// was turned to finished cannot be run again.
pub proof fn lemma_run_then_finish(cur: usize)
    ensures
        !(running_step(cur).0 is Failed) ==> finish_step(running_step(cur).1).0 is Ok,
        finish_step(cur).0 is Ok ==> running_step(finish_step(cur).1).0 is Failed,
{
    assert(((cur & !0b0100usize) | 0b0001) & 0b0001 == 0b0001) by (bit_vector);
    assert(cur & 0b1000 != 0b1000 ==> ((cur & !0b0100usize) | 0b0001) & 0b1000 != 0b1000)
        by (bit_vector);
    assert(((cur & !0b0001usize) | 0b1000) & 0b1000 == 0b1000) by (bit_vector);
}

/// A new task is scheduled, idle and unfinished, holds two references, and
/// can be turned to running.
pub proof fn lemma_init_state()
    ensures
        running_step(INIT).0 == StateAction::Success,
        has_flag(INIT, SCHEDULING),
        has_flag(INIT, CARE_JOIN_HANDLE),
        !has_flag(INIT, RUNNING),
        !has_flag(INIT, FINISHED),
        !has_flag(INIT, CANCELED),
        !has_flag(INIT, JOIN_WAKER),
        INIT / 1024 == 2,
{
    assert(0b1000_0010_0100usize & 0b0001 != 0b0001 && 0b1000_0010_0100usize & 0b1000 != 0b1000
        && 0b1000_0010_0100usize & 0b0100 == 0b0100 && 0b1000_0010_0100usize & 0b10_0000
        == 0b10_0000 && 0b1000_0010_0100usize & 0b1_0000 != 0b1_0000 && 0b1000_0010_0100usize
        & 0b100_0000 != 0b100_0000 && ((0b1000_0010_0100usize & !0b0100usize) | 0b0001)
        & 0b1_0000 != 0b1_0000) by (bit_vector);
}

} // verus!
