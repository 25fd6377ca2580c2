use ylong_runtime::error::ErrorKind;
use ylong_runtime::sync::atomic_waker::{AtomicWaker, IDLE, WAKING};
use ylong_runtime::task::join_set::{JoinNext, JoinSet};
use ylong_runtime::task::state::{CANCELED, FINISHED, INIT, JOIN_WAKER, RUNNING, SCHEDULING};
use ylong_runtime::task::task_handle::{Effects, Polled, RunStart, Stage, TaskHandle};
use ylong_runtime::task::yield_now::{wake_yielded_tasks, yield_now, YieldPoll};

#[test]
fn task_output_reaches_join_handle() {
    let mut t: TaskHandle<i32> = TaskHandle::new();
    assert_eq!(t.state.get_current_state(), INIT);
    // The join handle waits first.
    assert_eq!(t.poll_join(9), None);
    assert_eq!(t.waker, Some(9));
    assert_eq!(t.run_begin(), RunStart::Poll);
    let e = t.run_end(Polled::Ready(42));
    assert_eq!(
        e,
        Effects {
            schedule: None,
            wake_join: Some(9),
            release: false
        }
    );
    assert!(t.is_finished());
    assert_eq!(t.poll_join(9), Some(Ok(42)));
    assert!(matches!(t.stage, Stage::UsedData));
    // The join handle goes away: the last reference is gone.
    assert!(t.drop_join_handle());
}

#[test]
fn task_pending_then_woken() {
    let mut t: TaskHandle<u8> = TaskHandle::new();
    assert_eq!(t.run_begin(), RunStart::Poll);
    let e = t.run_end(Polled::Pending);
    assert_eq!(e.schedule, None);
    let s = t.state.get_current_state();
    assert_eq!(s & (RUNNING | SCHEDULING), 0);
    // A wake schedules the idle task.
    assert!(t.wake_by_ref());
    // A second wake finds it scheduled already.
    assert!(!t.wake_by_ref());
}

#[test]
fn task_woken_while_running_is_enqueued() {
    let mut t: TaskHandle<u8> = TaskHandle::new();
    assert_eq!(t.run_begin(), RunStart::Poll);
    assert!(!t.wake_by_ref());
    let e = t.run_end(Polled::Pending);
    assert_eq!(e.schedule, Some(true));
}

#[test]
fn task_canceled_before_run() {
    let mut t: TaskHandle<u8> = TaskHandle::new();
    // The new task is scheduled already.
    assert!(!t.set_canceled());
    assert_ne!(t.state.get_current_state() & CANCELED, 0);
    match t.run_begin() {
        RunStart::Done(e) => assert!(!e.release),
        RunStart::Poll => panic!("a canceled task is not polled"),
    }
    assert!(t.is_finished());
    assert_eq!(t.get_result(), Err(ErrorKind::TaskCanceled));
}

#[test]
fn task_panic_is_reported() {
    let mut t: TaskHandle<u8> = TaskHandle::new();
    assert_eq!(t.run_begin(), RunStart::Poll);
    t.run_end(Polled::Panicked);
    assert_eq!(t.get_result(), Err(ErrorKind::Panic));
}

#[test]
fn task_join_handle_dropped_early() {
    let mut t: TaskHandle<u8> = TaskHandle::new();
    assert!(!t.drop_join_handle());
    assert_eq!(t.run_begin(), RunStart::Poll);
    let e = t.run_end(Polled::Ready(1));
    assert!(e.release);
    assert!(matches!(t.stage, Stage::UsedData));
}

#[test]
fn task_shutdown_wakes_join_handle() {
    let mut t: TaskHandle<u8> = TaskHandle::new();
    assert_eq!(t.poll_join(3), None);
    assert_ne!(t.state.get_current_state() & JOIN_WAKER, 0);
    let e = t.shutdown();
    assert_eq!(e.wake_join, Some(3));
    assert_ne!(t.state.get_current_state() & FINISHED, 0);
    assert_eq!(t.get_result(), Err(ErrorKind::TaskCanceled));
}

#[test]
fn task_same_waker_is_kept() {
    let mut t: TaskHandle<u8> = TaskHandle::new();
    let cur = t.state.get_current_state();
    assert!(!t.set_waker(cur, 4));
    let cur = t.state.get_current_state();
    assert!(!t.set_waker(cur, 4));
    assert_eq!(t.waker, Some(4));
    let cur = t.state.get_current_state();
    assert!(!t.set_waker(cur, 5));
    assert_eq!(t.waker, Some(5));
}

#[test]
fn join_set_hands_out_finished_tasks_in_order() {
    let mut set = JoinSet::new();
    assert_eq!(set.poll_join_next_begin(1), JoinNext::Empty);
    set.spawn(10);
    set.spawn(11);
    assert_eq!(set.poll_join_next_begin(1), JoinNext::Pending);
    // The second task finishes first.
    assert_eq!(set.wake_entry(11), Some(1));
    assert_eq!(set.wake_entry(11), None);
    assert_eq!(set.wake_entry(10), None);
    assert_eq!(set.poll_join_next_begin(2), JoinNext::Poll(11));
    set.poll_join_next_end(11, true);
    assert_eq!(set.poll_join_next_begin(2), JoinNext::Poll(10));
    set.poll_join_next_end(10, true);
    assert_eq!(set.poll_join_next_begin(2), JoinNext::Empty);
}

#[test]
fn join_set_repolls_pending_entry() {
    let mut set = JoinSet::new();
    set.spawn(1);
    assert_eq!(set.wake_entry(1), None);
    assert_eq!(set.poll_join_next_begin(7), JoinNext::Poll(1));
    set.poll_join_next_end(1, false);
    assert_eq!(set.poll_join_next_begin(7), JoinNext::Pending);
    assert_eq!(set.wake_entry(1), Some(7));
    assert_eq!(set.cancel_all(), vec![1]);
    assert_eq!(set.clear(), vec![1]);
    assert!(set.cancel_all().is_empty());
}

#[test]
fn atomic_waker_register_and_take() {
    let mut w = AtomicWaker::new();
    assert_eq!(w.take_waker(), None);
    assert_eq!(w.register_by_ref(3), None);
    assert_eq!(w.register_by_ref(4), None);
    assert_eq!(w.wake(), Some(4));
    assert_eq!(w.wake(), None);
    assert_eq!(IDLE, 0);
    assert_eq!(WAKING, 2);
}

#[test]
fn ut_yield_now() {
    fn count_with_yields(waker: u64) -> i32 {
        let mut yielded = Vec::new();
        let mut i = 0;
        for _ in 0..1000 {
            i += 1;
            let mut y = yield_now();
            assert_eq!(
                y.poll(waker, true, &mut yielded),
                YieldPoll {
                    ready: false,
                    wake_now: false
                }
            );
            assert_eq!(wake_yielded_tasks(&mut yielded), vec![waker]);
            assert!(y.poll(waker, true, &mut yielded).ready);
        }
        i
    }
    assert_eq!(count_with_yields(1), 1000);
    assert_eq!(count_with_yields(2), 1000);
}

#[test]
fn yield_outside_worker_wakes_at_once() {
    let mut yielded = Vec::new();
    let mut y = yield_now();
    assert!(y.poll(1, false, &mut yielded).wake_now);
    assert!(yielded.is_empty());
    assert!(wake_yielded_tasks(&mut yielded).is_empty());
}

#[test]
fn join_set_builder_starts_plain() {
    let mut set = JoinSet::new();
    let b = set.build_task();
    assert!(b.name.is_none());
    assert!(b.pri.is_none());
    assert!(!b.is_stat);
    assert!(!b.is_insert_front);
    let b = b.stat(true);
    assert!(b.is_stat);
}
