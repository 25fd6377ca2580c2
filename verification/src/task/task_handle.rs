//! The steps of a task's life: running it, finishing it, handing its result to
//! its join handle, waking it and canceling it.
//!
//! A step changes the task's state and output, and tells the runtime what is
//! left to do: schedule the task, wake the task waiting on its join handle, or
//! free it.
use crate::error::ErrorKind;
use crate::task::state::{
    cancel_step, finish_step, has_flag, idle_step, is_care_join_handle, is_finished,
    is_last_ref_count, is_set_waker, need_enqueue, running_step, set_waker_step, un_join_handle_step,
    un_set_waker_step, StateAction, TaskState, CANCELED, CARE_JOIN_HANDLE, FINISHED, INIT, JOIN_WAKER,
    REF_ONE, RUNNING, SCHEDULING,
};
use vstd::prelude::*;

verus! {

/// Where a task's output stands.
pub enum Stage<T> {
    /// The future is still being run.
    Executing,
    /// The future has given its output.
    Executed,
    /// The output waits for the join handle.
    StoreData(Result<T, ErrorKind>),
    /// The output was taken, or nobody wants it.
    UsedData,
}

/// What the runtime has to do after a step of a task.
#[derive(Debug, Clone, Copy, PartialEq, Eq, Structural)]
pub struct Effects {
    /// Schedule the task; `true` to run it next on this worker.
    pub schedule: Option<bool>,
    /// Wake the task waiting on the join handle.
    pub wake_join: Option<u64>,
    /// Free the task: its last reference is gone.
    pub release: bool,
}

/// What one poll of the task's future gave.
pub enum Polled<T> {
    /// The output.
    Ready(T),
    /// Not done yet.
    Pending,
    /// The future panicked.
    Panicked,
}

/// How a run of the task begins.
#[derive(Debug, Clone, Copy, PartialEq, Eq, Structural)]
pub enum RunStart {
    /// Poll the future, then end the run with what it gave.
    Poll,
    /// The task was canceled and is finished; do this.
    Done(Effects),
}

/// The state after dropping one reference.
pub open spec fn dec_ref_state(s: usize) -> usize {
    if s >= REF_ONE {
        (s - REF_ONE) as usize
    } else {
        (s - REF_ONE + usize::MAX + 1) as usize
    }
}

/// A task as its handles see it: its state, its output, and the waker of the
/// task waiting on its join handle.
pub struct TaskHandle<T> {
    /// The state word.
    pub state: TaskState,
    /// Where the output stands.
    pub stage: Stage<T>,
    /// Whom to wake when the task finishes.
    pub waker: Option<u64>,
}

impl<T> TaskHandle<T> {
    /// A task that holds the join handle's waker knows the waker.
    pub open spec fn wf(self) -> bool {
        has_flag(self.state@, JOIN_WAKER) ==> self.waker is Some
    }

    /// A new task, scheduled, with its future still to run.
    pub fn new() -> (t: TaskHandle<T>)
        ensures
            t.wf(),
            t.state@ == INIT,
            t.stage is Executing,
            t.waker is None,
    {
        let t = TaskHandle { state: TaskState::new(), stage: Stage::Executing, waker: None };
        proof {
            lemma_state_bits(0);
        }
        t
    }

    /// Drops one reference; true when it was the last, and the task is to be
    /// freed.
    pub fn drop_ref(&mut self) -> (release: bool)
        requires
            old(self).wf(),
        ensures
            final(self).state@ == dec_ref_state(old(self).state@),
            final(self).stage == old(self).stage,
            final(self).waker == old(self).waker,
            release == (old(self).state@ / 1024 == 1),
    {
        let prev = self.state.dec_ref();
        is_last_ref_count(prev)
    }

    /// Finishes a running task: the output is kept for the join handle if
    /// `state` shows it cares, else dropped; the join handle's waiter is woken
    /// if there is one; the task's own reference is dropped.
    pub fn finish(&mut self, state: usize, output: Result<T, ErrorKind>) -> (e: Effects)
        requires
            old(self).wf(),
            has_flag(old(self).state@, RUNNING),
            !has_flag(old(self).state@, FINISHED),
        ensures
            ({
                let next = finish_step(old(self).state@).1;
                &&& final(self).state@ == dec_ref_state(next)
                &&& final(self).stage == if has_flag(state, CARE_JOIN_HANDLE) {
                    Stage::StoreData(output)
                } else {
                    Stage::UsedData
                }
                &&& final(self).waker == old(self).waker
                &&& e.schedule is None
                &&& e.wake_join == if has_flag(next, JOIN_WAKER) {
                    old(self).waker
                } else {
                    None
                }
                &&& e.release == (next / 1024 == 1)
            }),
    {
        if is_care_join_handle(state) {
            self.stage = Stage::StoreData(output);
        } else {
            self.stage = Stage::UsedData;
        }
        let cur = match self.state.turning_to_finish() {
            Ok(cur) => cur,
            Err(_) => {
                proof {
                    assert(false);
                }
                0
            },
        };
        let wake_join = if is_set_waker(cur) {
            proof {
                lemma_state_bits(old(self).state@);
            }
            self.waker
        } else {
            None
        };
        let release = self.drop_ref_raw();
        Effects { schedule: None, wake_join, release }
    }

    /// `drop_ref` without the consistency that the state may have lost
    /// halfway through a step.
    fn drop_ref_raw(&mut self) -> (release: bool)
        ensures
            final(self).state@ == dec_ref_state(old(self).state@),
            final(self).stage == old(self).stage,
            final(self).waker == old(self).waker,
            release == (old(self).state@ / 1024 == 1),
    {
        let prev = self.state.dec_ref();
        is_last_ref_count(prev)
    }

    /// Drops the output, as when the task is canceled; the error to report.
    fn get_canceled(&mut self) -> (err: ErrorKind)
        ensures
            final(self).state == old(self).state,
            final(self).waker == old(self).waker,
            final(self).stage is UsedData,
            err == ErrorKind::TaskCanceled,
    {
        self.stage = Stage::UsedData;
        ErrorKind::TaskCanceled
    }

    /// Begins a run of a scheduled task: marks it running, and either has
    /// its future polled or, when it was canceled, finishes it with that.
    pub fn run_begin(&mut self) -> (r: RunStart)
        requires
            old(self).wf(),
            has_flag(old(self).state@, SCHEDULING),
            !has_flag(old(self).state@, RUNNING),
            !has_flag(old(self).state@, FINISHED),
        ensures
            final(self).wf(),
            ({
                let next = running_step(old(self).state@).1;
                &&& !has_flag(next, CANCELED) ==> r == RunStart::Poll && final(self).state@ == next
                    && final(self).stage == old(self).stage && final(self).waker == old(self).waker
                &&& has_flag(next, CANCELED) ==> {
                    let fin = finish_step(next).1;
                    &&& final(self).state@ == dec_ref_state(fin)
                    &&& final(self).stage == if has_flag(next, CARE_JOIN_HANDLE) {
                        Stage::<T>::StoreData(Err(ErrorKind::TaskCanceled))
                    } else {
                        Stage::UsedData
                    }
                    &&& r == RunStart::Done(
                        Effects {
                            schedule: None,
                            wake_join: if has_flag(fin, JOIN_WAKER) {
                                old(self).waker
                            } else {
                                None
                            },
                            release: fin / 1024 == 1,
                        },
                    )
                }
            }),
    {
        proof {
            lemma_state_bits(old(self).state@);
        }
        let action = self.state.turning_to_running();
        match action {
            StateAction::Success => RunStart::Poll,
            StateAction::Canceled(cur) => {
                let output = self.get_canceled();
                let e = self.finish(cur, Err(output));
                proof {
                    lemma_state_bits(running_step(old(self).state@).1);
                    lemma_dec_ref_flags(finish_step(running_step(old(self).state@).1).1);
                }
                RunStart::Done(e)
            },
            _ => {
                proof {
                    assert(false);
                }
                RunStart::Poll
            },
        }
    }

    /// Ends a run with what the poll gave: an output or a panic finishes the
    /// task; a pending task goes idle, is scheduled again if it was woken
    /// meanwhile, and is finished if it was canceled meanwhile.
    pub fn run_end(&mut self, res: Polled<T>) -> (e: Effects)
        requires
            old(self).wf(),
            has_flag(old(self).state@, RUNNING),
            !has_flag(old(self).state@, FINISHED),
        ensures
            final(self).wf(),
            ({
                let cur = old(self).state@;
                let fin = finish_step(cur).1;
                let finished = Effects {
                    schedule: None,
                    wake_join: if has_flag(fin, JOIN_WAKER) {
                        old(self).waker
                    } else {
                        None
                    },
                    release: fin / 1024 == 1,
                };
                &&& res is Ready ==> e == finished && final(self).state@ == dec_ref_state(fin)
                    && final(self).stage == if has_flag(cur, CARE_JOIN_HANDLE) {
                        Stage::StoreData(Ok(res->Ready_0))
                    } else {
                        Stage::UsedData
                    }
                &&& res is Panicked ==> e == finished && final(self).state@ == dec_ref_state(fin)
                    && final(self).stage == if has_flag(cur, CARE_JOIN_HANDLE) {
                        Stage::<T>::StoreData(Err(ErrorKind::Panic))
                    } else {
                        Stage::UsedData
                    }
                &&& res is Pending && has_flag(cur, CANCELED) ==> e == finished && final(self).state@
                    == dec_ref_state(fin) && final(self).stage == if has_flag(cur, CARE_JOIN_HANDLE) {
                        Stage::<T>::StoreData(Err(ErrorKind::TaskCanceled))
                    } else {
                        Stage::UsedData
                    }
                &&& res is Pending && !has_flag(cur, CANCELED) ==> {
                    let idle = idle_step(cur).1;
                    &&& final(self).state@ == idle
                    &&& final(self).stage == old(self).stage
                    &&& e == (Effects {
                        schedule: if has_flag(idle, SCHEDULING) {
                            Some(true)
                        } else {
                            None
                        },
                        wake_join: None,
                        release: false,
                    })
                }
            }),
    {
        let cur = self.state.get_current_state();
        proof {
            lemma_state_bits(cur);
            lemma_dec_ref_flags(finish_step(cur).1);
        }
        match res {
            Polled::Ready(output) => {
                self.stage = Stage::Executed;
                self.finish(cur, Ok(output))
            },
            Polled::Pending => match self.state.turning_to_idle() {
                StateAction::Enqueue => Effects { schedule: Some(true), wake_join: None, release: false },
                StateAction::Canceled(state) => {
                    let output = self.get_canceled();
                    self.finish(state, Err(output))
                },
                StateAction::Failed(_) => {
                    proof {
                        assert(false);
                    }
                    Effects { schedule: None, wake_join: None, release: false }
                },
                StateAction::Success => Effects { schedule: None, wake_join: None, release: false },
            },
            Polled::Panicked => self.finish(cur, Err(ErrorKind::Panic)),
        }
    }

    /// Takes the stored output out for the join handle.
    pub fn get_result(&mut self) -> (r: Result<T, ErrorKind>)
        requires
            old(self).stage is StoreData,
        ensures
            final(self).state == old(self).state,
            final(self).waker == old(self).waker,
            final(self).stage is UsedData,
            r == old(self).stage->StoreData_0,
    {
        let mut data = Stage::UsedData;
        std::mem::swap(&mut self.stage, &mut data);
        match data {
            Stage::StoreData(output) => output,
            _ => {
                proof {
                    assert(false);
                }
                Err(ErrorKind::TaskStateInvalid)
            },
        }
    }

    /// Drops the join handle: a task still in its first state just loses the
    /// handle's interest and reference; else the interest is dropped (or,
    /// once finished, the output), and the handle's reference too. True when
    /// the task is to be freed.
    pub fn drop_join_handle(&mut self) -> (release: bool)
        requires
            old(self).wf(),
        ensures
            final(self).wf(),
            final(self).waker == old(self).waker,
            old(self).state@ == INIT ==> !release && final(self).stage == old(self).stage
                && final(self).state@ == ((INIT - REF_ONE) as usize) & !CARE_JOIN_HANDLE,
            old(self).state@ != INIT ==> {
                let (r, next) = un_join_handle_step(old(self).state@);
                &&& final(self).state@ == dec_ref_state(next)
                &&& release == (next / 1024 == 1)
                &&& final(self).stage == if r is Err {
                    Stage::UsedData
                } else {
                    old(self).stage
                }
            },
    {
        proof {
            lemma_state_bits(old(self).state@);
        }
        if self.state.try_turning_to_un_join_handle() {

            return false;
        }
        match self.state.turn_to_un_join_handle() {
            Ok(_) => {},
            Err(_) => {
                self.stage = Stage::UsedData;
            },
        }
        proof {
            lemma_dec_ref_flags(self.state@);
        }
        self.drop_ref_raw()
    }

    /// Gives the task the join handle's waker `des_waker`, for a state `cur`
    /// that cares for the join handle and holds no waker. On failure, the
    /// task holds no waker.
    fn set_waker_inner(&mut self, des_waker: u64, cur_state: usize) -> (r: Result<usize, usize>)
        requires
            old(self).wf(),
            has_flag(cur_state, CARE_JOIN_HANDLE),
            !has_flag(cur_state, JOIN_WAKER),
            cur_state == old(self).state@,
        ensures
            final(self).wf(),
            (r, final(self).state@) == set_waker_step(old(self).state@),
            final(self).stage == old(self).stage,
            final(self).waker == if r is Ok {
                Some(des_waker)
            } else {
                None
            },
    {
        self.waker = Some(des_waker);
        let result = self.state.turn_to_set_waker();
        if result.is_err() {
            self.waker = None;
        }
        proof {
            lemma_state_bits(cur_state);
        }
        result
    }

    /// Registers `des_waker` as the join handle's waker, replacing another
    /// one; true when the task finished instead, so that the caller should
    /// take the output now.
    pub fn set_waker(&mut self, cur: usize, des_waker: u64) -> (finished: bool)
        requires
            old(self).wf(),
            cur == old(self).state@,
            has_flag(cur, CARE_JOIN_HANDLE),
        ensures
            final(self).wf(),
            final(self).stage == old(self).stage,
            has_flag(cur, JOIN_WAKER) && old(self).waker == Some(des_waker) ==> !finished && final(self).state
                == old(self).state && final(self).waker == old(self).waker,
            !(has_flag(cur, JOIN_WAKER) && old(self).waker == Some(des_waker)) ==> {
                &&& finished == has_flag(cur, FINISHED)
                &&& !finished ==> final(self).waker == Some(des_waker) && final(self).state@ == (cur & !JOIN_WAKER)
                    | JOIN_WAKER
                &&& finished ==> final(self).state@ == old(self).state@
            },
    {
        proof {
            lemma_state_bits(cur);
        }
        let res = if is_set_waker(cur) {
            let is_same_waker = match self.waker {
                Some(w) => w == des_waker,
                None => false,
            };
            if is_same_waker {
                return false;
            }
            match self.state.turn_to_un_set_waker() {
                Ok(next) => self.set_waker_inner(des_waker, next),
                Err(e) => Err(e),
            }
        } else {
            self.set_waker_inner(des_waker, cur)
        };
        match res {
            Err(c) => {
                proof {
                    assert(has_flag(c, FINISHED));
                }
                true
            },
            Ok(_) => false,
        }
    }

    /// Marks the task scheduled; true when the caller has to schedule it.
    pub fn wake_by_ref(&mut self) -> (schedule: bool)
        requires
            old(self).wf(),
        ensures
            final(self).wf(),
            final(self).state@ == old(self).state@ | SCHEDULING,
            final(self).stage == old(self).stage,
            final(self).waker == old(self).waker,
            schedule == (!has_flag(old(self).state@, SCHEDULING) && !has_flag(old(self).state@, RUNNING)
                && !has_flag(old(self).state@, FINISHED)),
    {
        let prev = self.state.turn_to_scheduling();
        proof {
            lemma_state_bits(prev);
        }
        need_enqueue(prev)
    }

    /// Wakes the task and drops the waker's reference to it: whether to
    /// schedule it, and whether to free it.
    pub fn wake(&mut self) -> (r: (bool, bool))
        requires
            old(self).wf(),
        ensures
            final(self).wf(),
            final(self).state@ == dec_ref_state(old(self).state@ | SCHEDULING),
            final(self).stage == old(self).stage,
            r.0 == (!has_flag(old(self).state@, SCHEDULING) && !has_flag(old(self).state@, RUNNING)
                && !has_flag(old(self).state@, FINISHED)),
            r.1 == ((old(self).state@ | SCHEDULING) / 1024 == 1),
    {
        let schedule = self.wake_by_ref();
        proof {
            lemma_dec_ref_flags(self.state@);
        }
        let release = self.drop_ref();
        (schedule, release)
    }

    /// Cancels the task; true when the caller has to schedule it.
    pub fn set_canceled(&mut self) -> (schedule: bool)
        requires
            old(self).wf(),
        ensures
            final(self).wf(),
            (schedule, final(self).state@) == cancel_step(old(self).state@),
            final(self).stage == old(self).stage,
            final(self).waker == old(self).waker,
    {
        proof {
            lemma_state_bits(old(self).state@);
        }
        self.state.turn_to_canceled_and_scheduled()
    }

    /// Shuts the task down with the runtime: it is canceled; if its join
    /// handle still cares, it is finished with that error and the handle's
    /// waiter is woken; the task's own reference is dropped.
    pub fn shutdown(&mut self) -> (e: Effects)
        requires
            old(self).wf(),
        ensures
            final(self).wf(),
            final(self).waker == old(self).waker,
            e.schedule is None,
            ({
                let c = old(self).state@ | CANCELED;
                let done = (finish_step(c | RUNNING).1);
                &&& has_flag(c, CARE_JOIN_HANDLE) ==> {
                    &&& final(self).stage == Stage::<T>::StoreData(Err(ErrorKind::TaskCanceled))
                    &&& final(self).state@ == dec_ref_state(done)
                    &&& e.wake_join == if has_flag(c, JOIN_WAKER) {
                        old(self).waker
                    } else {
                        None
                    }
                    &&& e.release == (done / 1024 == 1)
                }
                &&& !has_flag(c, CARE_JOIN_HANDLE) ==> {
                    &&& final(self).stage == old(self).stage
                    &&& final(self).state@ == dec_ref_state(c)
                    &&& e.wake_join is None
                    &&& e.release == (c / 1024 == 1)
                }
            }),
    {
        let _ = self.state.set_cancel();
        let cur = self.state.get_current_state();
        proof {
            lemma_state_bits(old(self).state@);
            lemma_state_bits(cur);
            lemma_state_bits(cur | RUNNING);
        }
        let mut wake_join = None;
        if is_care_join_handle(cur) {
            self.stage = Stage::StoreData(Err(ErrorKind::TaskCanceled));
            self.state.set_running();
            let _ = self.state.turning_to_finish();
            if is_set_waker(cur) {
                wake_join = self.waker;
            }
        }
        proof {
            lemma_dec_ref_flags(self.state@);
        }
        let release = self.drop_ref_raw();
        Effects { schedule: None, wake_join, release }
    }

    /// Polls the join handle with `waker`: the output once the task has
    /// finished; else the waker is registered, and the poll is pending.
    pub fn poll_join(&mut self, waker: u64) -> (r: Option<Result<T, ErrorKind>>)
        requires
            old(self).wf(),
            has_flag(old(self).state@, CARE_JOIN_HANDLE),
            has_flag(old(self).state@, FINISHED) ==> old(self).stage is StoreData,
        ensures
            final(self).wf(),
            has_flag(old(self).state@, FINISHED) ==> r == Some(old(self).stage->StoreData_0)
                && final(self).stage is UsedData && final(self).state == old(self).state,
            !has_flag(old(self).state@, FINISHED) ==> r is None && final(self).stage == old(self).stage
                && final(self).waker == Some(waker) && has_flag(final(self).state@, JOIN_WAKER),
    {
        let cur = self.state.get_current_state();
        if is_finished(cur) {
            Some(self.get_result())
        } else {
            let finished = self.set_waker(cur, waker);
            proof {
                lemma_state_bits(cur);
            }
            if finished {
                proof {
                    assert(false);
                }
                None
            } else {
                None
            }
        }
    }

    /// Whether the task has finished, as a cancel handle sees it.
    pub fn is_finished(&self) -> (r: bool)
        ensures
            r == has_flag(self.state@, FINISHED),
    {
        is_finished(self.state.get_current_state())
    }
}

/// How the transitions treat the flag bits, the waker bit above all.
proof fn lemma_state_bits(cur: usize)
    by (bit_vector)
    ensures
        cur & 0b100_0000usize == (cur % 1024usize) & 0b100_0000usize,
        cur & 0b10_0000usize == (cur % 1024usize) & 0b10_0000usize,
        cur & 0b1000usize == (cur % 1024usize) & 0b1000usize,
        ((cur & !0b0100usize) | 0b0001usize) & 0b10_0000usize == cur & 0b10_0000usize,
        ((cur & !0b0100usize) | 0b0001usize) & 0b1_0000usize == cur & 0b1_0000usize,
        ((cur & !0b0001usize) | 0b1000usize) & 0b1000usize == 0b1000usize,
        ((cur & !0b0001usize) | 0b1000usize) & 0b10_0000usize == cur & 0b10_0000usize,
        ((cur & !0b0100usize) | 0b0001usize) & 0b0001usize == 0b0001usize,
        ((cur & !0b0100usize) | 0b0001usize) & 0b1000usize == cur & 0b1000usize,
        ((cur & !0b0100usize) | 0b0001usize) & 0b100_0000usize == cur & 0b100_0000usize,
        ((cur & !0b0001usize) | 0b1000usize) & 0b100_0000usize == cur & 0b100_0000usize,
        (cur & !0b0001usize) & 0b100_0000usize == cur & 0b100_0000usize,
        (cur | 0b0001usize) & 0b100_0000usize == cur & 0b100_0000usize,
        (cur | 0b0001usize) & 0b0001usize == 0b0001usize,
        (cur | 0b0001usize) & 0b1000usize == cur & 0b1000usize,
        (cur | 0b0100usize) & 0b100_0000usize == cur & 0b100_0000usize,
        (cur | 0b1_0000usize) & 0b100_0000usize == cur & 0b100_0000usize,
        ((cur | 0b0100usize) | 0b1_0000usize) & 0b100_0000usize == cur & 0b100_0000usize,
        ((cur | 0b1_0000usize) | 0b0100usize) & 0b100_0000usize == cur & 0b100_0000usize,
        (cur & !0b10_0000usize) & 0b100_0000usize == cur & 0b100_0000usize,
        (cur & !0b100_0000usize) & 0b100_0000usize == 0,
        (cur & !0b100_0000usize) & 0b10_0000usize == cur & 0b10_0000usize,
        (cur & !0b100_0000usize) & 0b1000usize == cur & 0b1000usize,
        (cur | 0b100_0000usize) & 0b100_0000usize == 0b100_0000usize,
        ((cur & !0b100_0000usize) | 0b100_0000usize) == cur | 0b100_0000usize,
        ((cur & !0b100_0000usize) | 0b100_0000usize) & 0b100_0000usize == 0b100_0000usize,
        0b1000_0010_0100usize & 0b100_0000usize != 0b100_0000usize,
        (0b0100_0010_0100usize & !0b10_0000usize) & 0b100_0000usize != 0b100_0000usize,
{
}

/// Dropping a reference leaves the flag bits as they were.
proof fn lemma_dec_ref_flags(s: usize)
    ensures
        dec_ref_state(s) & 0b100_0000usize == s & 0b100_0000usize,
        dec_ref_state(s) & 0b10_0000usize == s & 0b10_0000usize,
        dec_ref_state(s) & 0b1000usize == s & 0b1000usize,
{
    lemma_state_bits(s);
    lemma_state_bits(dec_ref_state(s));
    assert(dec_ref_state(s) % 1024 == s % 1024);
}

/// A task that runs to its output while its join handle cares hands that
/// output to the join handle: a scheduled task that is neither running,
/// finished nor canceled is polled when its run begins (`run_begin`), and
/// when the poll gives an output, the run ends (`run_end`) with the task
/// finished, still caring for its join handle, and the output stored; a
/// finished task's join handle is then given the stored output
/// (`poll_join`).
pub proof fn lemma_output_reaches_join_handle(s0: usize)
    requires
        has_flag(s0, SCHEDULING),
        !has_flag(s0, RUNNING),
        !has_flag(s0, FINISHED),
        !has_flag(s0, CANCELED),
        has_flag(s0, CARE_JOIN_HANDLE),
    ensures
        ({
            let s1 = running_step(s0).1;
            let s2 = dec_ref_state(finish_step(s1).1);
            &&& !has_flag(s1, CANCELED)
            &&& has_flag(s1, RUNNING)
            &&& !has_flag(s1, FINISHED)
            &&& has_flag(s1, CARE_JOIN_HANDLE)
            &&& has_flag(s2, FINISHED)
            &&& has_flag(s2, CARE_JOIN_HANDLE)
        }),
{
    lemma_state_bits(s0);
    let s1 = running_step(s0).1;
    lemma_state_bits(s1);
    lemma_dec_ref_flags(finish_step(s1).1);
}

} // verus!
