use ylong_runtime::sync::error::{RecvError, SendError};
use ylong_runtime::sync::mpsc::array::Array;
use ylong_runtime::sync::mpsc::channel::Channel as MpscChannel;
use ylong_runtime::sync::mpsc::queue::Queue;
use ylong_runtime::sync::mutex::{LockError, LockPoll, Mutex};
use ylong_runtime::sync::oneshot::{Channel, CLOSED, INIT, SENT};
use ylong_runtime::sync::rwlock::{ReadPoll, RwLock, WritePoll};
use ylong_runtime::sync::semaphore::{AutoRelSemaphore, Semaphore};
use ylong_runtime::sync::waiter::Waiter;
use ylong_runtime::sync::semaphore_inner::{AcquirePoll, SemaphoreError, SemaphoreInner, MAX_PERMITS};

#[test]
fn ut_mutex_new_01() {
    let lock = Mutex::new(10);
    assert_eq!(lock.into_inner(), 10);
}

#[test]
fn ut_mutex_try_lock_01() {
    let mut mutex = Mutex::new(10);
    let lock = mutex.try_lock().unwrap();
    *mutex.get_mut_locked(&lock) += 100;
    assert_eq!(*mutex.get(&lock), 110);
}

#[test]
fn mutex_try_lock_fails_while_held() {
    let mut mutex = Mutex::new(1);
    let guard = mutex.try_lock().unwrap();
    assert_eq!(mutex.try_lock().err(), Some(LockError));
    assert_eq!(mutex.unlock(guard), None);
    assert!(mutex.try_lock().is_ok());
    assert_eq!(LockError.as_str(), "Try lock error.");
}

#[test]
fn mutex_waiter_gets_the_lock_on_unlock() {
    let mut mutex = Mutex::new(0u8);
    let guard = mutex.try_lock().unwrap();
    let mut index = None;
    let mut enqueue = false;
    assert!(matches!(mutex.lock(7, &mut index, &mut enqueue), LockPoll::Pending));
    assert!(enqueue);
    assert_eq!(mutex.unlock(guard), Some(7));
    let next = match mutex.lock(7, &mut index, &mut enqueue) {
        LockPoll::Ready(g) => g,
        LockPoll::Pending => panic!("the woken waiter holds the mutex"),
    };
    assert!(!enqueue);
    assert!(mutex.try_lock().is_err());
    assert_eq!(mutex.unlock(next), None);
    assert!(mutex.try_lock().is_ok());
}

#[test]
fn ut_mutex_lock_01() {
    let mut mutex = Mutex::new(10);
    let mut index = None;
    let mut enqueue = false;
    let lock = match mutex.lock(1, &mut index, &mut enqueue) {
        LockPoll::Ready(g) => g,
        LockPoll::Pending => panic!("a free mutex is taken at once"),
    };
    *mutex.get_mut_locked(&lock) += 1;
    assert_eq!(*mutex.get(&lock), 11);
}

#[test]
fn ut_mutex_unlock_01() {
    let mut mutex = Mutex::new(10);
    let mut index = None;
    let mut enqueue = false;
    let lock = match mutex.lock(1, &mut index, &mut enqueue) {
        LockPoll::Ready(g) => g,
        LockPoll::Pending => panic!("a free mutex is taken at once"),
    };
    assert!(mutex.try_lock().is_err());
    mutex.unlock(lock);
    assert!(mutex.try_lock().is_ok());
}

#[test]
fn ut_rwlock_try_read_01() {
    let mut lock = RwLock::new(100);
    let res = lock.try_read().unwrap();
    assert_eq!(*lock.deref_read(&res), 100);
}

#[test]
fn ut_rwlock_try_read_02() {
    let mut lock = RwLock::new(100);
    let a = lock.try_write().unwrap();
    *lock.deref_write(&a) += 1;
    let res = lock.try_read();
    assert!(res.is_err());
    *lock.deref_write(&a) += 1;
    lock.write_unlock(a);
    let res2 = lock.try_read();
    assert!(res2.is_ok());
}

#[test]
fn ut_rwlock_try_write_01() {
    let mut lock = RwLock::new(100);
    let a = lock.try_write().unwrap();
    *lock.deref_write(&a) += 100;
    assert_eq!(*lock.deref_write(&a), 200);
}

#[test]
fn ut_rwlock_try_write_02() {
    let mut lock = RwLock::new(100);
    let a = lock.try_write().unwrap();
    *lock.deref_write(&a) += 1;
    let res = lock.try_write();
    assert!(res.is_err());
    *lock.deref_write(&a) += 1;
    lock.write_unlock(a);
    let res2 = lock.try_write();
    assert!(res2.is_ok());
}

#[test]
fn ut_rwlock_into_inner_01() {
    let lock = RwLock::new(10);
    assert_eq!(lock.into_inner(), 10);
}

pub struct Test {
    flag: bool,
    num: usize,
}

fn read_now<T>(lock: &mut RwLock<T>) -> ylong_runtime::sync::rwlock::RwLockReadGuard {
    let mut index = None;
    let mut enqueue = false;
    match lock.read(1, &mut index, &mut enqueue) {
        ReadPoll::Ready(g) => g,
        ReadPoll::Pending => panic!("no writer holds the lock"),
    }
}

fn write_now<T>(lock: &mut RwLock<T>) -> ylong_runtime::sync::rwlock::RwLockWriteGuard {
    let (mut mi, mut me, mut si, mut se) = (None, false, None, false);
    match lock.write(2, &mut mi, &mut me, &mut si, &mut se) {
        WritePoll::Ready(g) => g,
        _ => panic!("nobody holds the lock"),
    }
}

#[test]
fn ut_rwlock_new_01() {
    let mut lock = RwLock::new(Test { flag: true, num: 1 });
    let r = read_now(&mut lock);
    assert!(lock.deref_read(&r).flag);
    lock.read_unlock(r);
    let r = read_now(&mut lock);
    assert_eq!(lock.deref_read(&r).num, 1);
    lock.read_unlock(r);
    let mut lock2 = RwLock::new(0);
    let r = read_now(&mut lock2);
    assert_eq!(*lock2.deref_read(&r), 0);
}

#[test]
fn ut_rwlock_read_01() {
    let mut lock = RwLock::new(100);
    let a = read_now(&mut lock);
    assert_eq!(*lock.deref_read(&a), 100);
}

#[test]
fn ut_rwlock_read_02() {
    let mut lock = RwLock::new(100);
    let w = write_now(&mut lock);
    *lock.deref_write(&w) += 1;
    lock.write_unlock(w);
    let a = read_now(&mut lock);
    assert_eq!(*lock.deref_read(&a), 101);
}

#[test]
fn ut_rwlock_write_01() {
    let mut lock = RwLock::new(100);
    let a = write_now(&mut lock);
    *lock.deref_write(&a) += 100;
    assert_eq!(*lock.deref_write(&a), 200);
}

#[test]
fn ut_rwlock_write_test_02() {
    let mut lock = RwLock::new(100);
    // The first writer holds the lock; the second waits for the writers' mutex.
    let first = write_now(&mut lock);
    let (mut mi, mut me, mut si, mut se) = (None, false, None, false);
    assert!(matches!(lock.write(3, &mut mi, &mut me, &mut si, &mut se), WritePoll::PendingMutex));
    *lock.deref_write(&first) += 100;
    let (readers, writer) = lock.write_unlock(first);
    assert!(readers.is_empty());
    assert_eq!(writer, Some(3));
    let second = match lock.write(3, &mut mi, &mut me, &mut si, &mut se) {
        WritePoll::Ready(g) => g,
        _ => panic!("the woken writer holds the lock"),
    };
    *lock.deref_write(&second) += 100;
    lock.write_unlock(second);
    let aa = read_now(&mut lock);
    assert_eq!(*lock.deref_read(&aa), 300);
}

#[test]
fn rwlock_reader_waits_for_writer() {
    let mut lock = RwLock::new(1);
    let w = write_now(&mut lock);
    let mut index = None;
    let mut enqueue = false;
    assert!(matches!(lock.read(9, &mut index, &mut enqueue), ReadPoll::Pending));
    *lock.deref_write(&w) = 2;
    let (readers, writer) = lock.write_unlock(w);
    assert_eq!(readers, vec![9]);
    assert_eq!(writer, None);
    let r = match lock.poll_read(9, &mut index, &mut enqueue) {
        ReadPoll::Ready(g) => g,
        ReadPoll::Pending => panic!("the woken reader reads"),
    };
    assert_eq!(*lock.deref_read(&r), 2);
    assert!(lock.try_write().is_err());
    assert_eq!(lock.read_unlock(r), None);
    assert!(lock.try_write().is_ok());
}

#[test]
fn rwlock_writer_drains_readers() {
    let mut lock = RwLock::new(1);
    let r = lock.try_read().unwrap();
    let (mut mi, mut me, mut si, mut se) = (None, false, None, false);
    assert!(matches!(lock.write(4, &mut mi, &mut me, &mut si, &mut se), WritePoll::PendingDrain));
    assert!(lock.try_read().is_err());
    assert_eq!(lock.read_unlock(r), Some(4));
    let w = match lock.poll_write_drain(4, &mut si, &mut se) {
        WritePoll::Ready(g) => g,
        _ => panic!("the last reader handed over the lock"),
    };
    *lock.deref_write(&w) = 5;
    lock.write_unlock(w);
    assert_eq!(lock.into_inner(), 5);
}

#[test]
fn rwlock_readers_block_writer_until_all_leave() {
    let mut lock = RwLock::new(5);
    let r1 = lock.try_read().unwrap();
    let r2 = lock.try_read().unwrap();
    assert!(lock.try_write().is_err());
    lock.read_unlock(r1);
    assert!(lock.try_write().is_err());
    lock.read_unlock(r2);
    let w = lock.try_write().unwrap();
    *lock.deref_write(&w) = 6;
    lock.write_unlock(w);
    let r = lock.try_read().unwrap();
    assert_eq!(*lock.deref_read(&r), 6);
    assert_eq!(*lock.get_mut(), 6);
}

#[test]
fn semaphore_counts_permits() {
    let mut sem = Semaphore::new(2).unwrap();
    assert_eq!(sem.current_permits(), 2);
    assert!(sem.try_acquire().is_ok());
    assert!(sem.try_acquire().is_ok());
    assert_eq!(sem.try_acquire().err(), Some(SemaphoreError::Empty));
    assert_eq!(sem.release(), None);
    assert_eq!(sem.current_permits(), 1);
    assert!(!sem.is_closed());
    assert_eq!(sem.close(), Vec::<u64>::new());
    assert!(sem.is_closed());
    assert_eq!(sem.try_acquire().err(), Some(SemaphoreError::Closed));
    assert_eq!(sem.current_permits(), 1);
}

#[test]
fn semaphore_overflow() {
    assert_eq!(Semaphore::new(MAX_PERMITS).err(), Some(SemaphoreError::Overflow));
    assert!(Semaphore::new(MAX_PERMITS - 1).is_ok());
    assert_eq!(AutoRelSemaphore::new(usize::MAX).err(), Some(SemaphoreError::Overflow));
    assert_eq!(SemaphoreError::Empty.as_str(), "no permits available");
}

#[test]
fn auto_release_semaphore_gives_permit_back() {
    let mut sem = AutoRelSemaphore::new(1).unwrap();
    let permit = sem.try_acquire().unwrap();
    assert_eq!(sem.current_permits(), 0);
    assert!(sem.try_acquire().is_err());
    assert_eq!(sem.release_permit(permit), None);
    assert_eq!(sem.current_permits(), 1);
    sem.close();
    assert!(sem.is_closed());
}

#[test]
fn semaphore_waiters_are_served_in_order() {
    let mut sem = SemaphoreInner::new(0).unwrap();
    let (mut i1, mut e1) = (None, false);
    let (mut i2, mut e2) = (None, false);
    assert_eq!(sem.poll_acquire(1, &mut i1, &mut e1), AcquirePoll::Pending);
    assert_eq!(sem.poll_acquire(2, &mut i2, &mut e2), AcquirePoll::Pending);
    assert_eq!(sem.release(), Some(1));
    assert_eq!(sem.release_multi(3), vec![2]);
    assert_eq!(sem.current_permits(), 2);
    let (mut i3, mut e3) = (None, false);
    assert_eq!(sem.poll_acquire(3, &mut i3, &mut e3), AcquirePoll::Ready(Ok(())));
    assert_eq!(sem.current_permits(), 1);
}

#[test]
fn semaphore_close_wakes_everyone() {
    let mut sem = SemaphoreInner::new(0).unwrap();
    let (mut i1, mut e1) = (None, false);
    let (mut i2, mut e2) = (None, false);
    sem.poll_acquire(10, &mut i1, &mut e1);
    sem.poll_acquire(20, &mut i2, &mut e2);
    sem.cancel_acquire(i1, e1);
    assert_eq!(sem.close(), vec![20]);
    assert_eq!(
        sem.poll_acquire(30, &mut None, &mut false),
        AcquirePoll::Ready(Err(SemaphoreError::Closed))
    );
}

#[test]
fn semaphore_release_notify_sets_one_permit() {
    let mut sem = SemaphoreInner::new(5).unwrap();
    assert_eq!(sem.release_notify(), None);
    assert_eq!(sem.current_permits(), 1);
    assert_eq!(sem.release_all(), Vec::<u64>::new());
}

#[test]
fn send_try_recv() {
    let mut chan = Channel::new();
    match chan.try_recv() {
        Err(RecvError::Empty) => {}
        _ => unreachable!(),
    }
    chan.send("hello").unwrap();

    match chan.try_recv() {
        Ok(value) => assert_eq!(value, "hello"),
        _ => unreachable!(),
    }

    match chan.try_recv() {
        Err(RecvError::Closed) => {}
        _ => unreachable!(),
    }
}

#[test]
fn send_recv_await() {
    let mut chan = Channel::new();
    if chan.send(6).is_err() {
        panic!("Receiver dropped");
    }
    match chan.poll_recv() {
        Some(Ok(v)) => assert_eq!(v, 6),
        _ => panic!("Sender dropped"),
    }
}

#[test]
fn close_rx() {
    let mut chan = Channel::new();
    assert!(!chan.is_closed());
    chan.close();

    assert!(chan.is_closed());
    assert!(chan.send("never received").is_err());

    let mut chan = Channel::new();
    assert!(chan.send("will receive").is_ok());

    chan.close();

    let msg = chan.try_recv().unwrap();
    assert_eq!(msg, "will receive");
}

#[test]
fn oneshot_sender_dropped_without_sending() {
    let mut chan: Channel<u8> = Channel::new();
    assert_eq!(chan.poll_recv(), None);
    assert!(chan.drop_sender());
    assert_eq!(chan.try_recv(), Err(RecvError::Closed));
    let _ = (INIT, SENT, CLOSED);
}

#[test]
fn queue_is_first_in_first_out_across_blocks() {
    let mut q = Queue::new();
    for i in 0..100 {
        assert!(q.send(i).is_ok());
        assert_eq!(q.len(), i + 1);
    }
    for i in 0..70 {
        assert_eq!(q.try_recv(), Ok(i));
        assert_eq!(q.len(), 99 - i);
    }
    q.close();
    assert!(q.is_close());
    assert_eq!(q.send(1000), Err(SendError::Closed(1000)));
    for i in 70..100 {
        assert_eq!(q.try_recv(), Ok(i));
    }
    assert_eq!(q.try_recv(), Err(RecvError::Closed));
    assert_eq!(q.len(), 0);
}

#[test]
fn queue_empty_open() {
    let mut q: Queue<u8> = Queue::new();
    assert_eq!(q.try_recv(), Err(RecvError::Empty));
    assert_eq!(RecvError::Empty.as_str(), "channel is empty");
}

#[test]
fn array_is_bounded() {
    let mut a = Array::new(2);
    assert_eq!(a.capacity(), 2);
    assert!(a.try_send(1).is_ok());
    assert!(a.try_send(2).is_ok());
    assert_eq!(a.try_send(3), Err(SendError::Full(3)));
    assert_eq!(a.len(), 2);
    assert_eq!(a.try_recv(), Ok(1));
    a.close();
    assert_eq!(a.try_send(4), Err(SendError::Closed(4)));
    assert_eq!(a.try_recv(), Ok(2));
    assert_eq!(a.try_recv(), Err(RecvError::Closed));
    assert_eq!(SendError::Full(0).as_str(), "channel is full");
}

#[test]
fn channel_closes_with_its_last_sender() {
    let mut chan = MpscChannel::new(Queue::<u8>::new());
    chan.add_sender();
    chan.close_sender();
    assert!(!chan.get().is_close());
    chan.close_sender();
    assert!(chan.get().is_close());
    let mut chan = MpscChannel::new(Array::<u8>::new(1));
    chan.close_receiver();
    assert!(chan.get().is_close());
    assert_eq!(chan.get_mut().try_send(1), Err(SendError::Closed(1)));
}

#[test]
fn waiter_keeps_one_wake_for_the_next_task() {
    let mut w = Waiter::new();
    assert_eq!(w.wake_one(), None);
    assert_eq!(w.wake_one(), None);
    let (mut i1, mut e1) = (None, false);
    assert!(w.wait(1, &mut i1, &mut e1));
    let (mut i2, mut e2) = (None, false);
    assert!(!w.wait(2, &mut i2, &mut e2));
    assert!(e2);
}

#[test]
fn waiter_wakes_in_order_and_all() {
    let mut w = Waiter::new();
    let (mut i1, mut e1) = (None, false);
    let (mut i2, mut e2) = (None, false);
    let (mut i3, mut e3) = (None, false);
    assert!(!w.wait(1, &mut i1, &mut e1));
    assert!(!w.wait(2, &mut i2, &mut e2));
    assert!(!w.wait(3, &mut i3, &mut e3));
    assert_eq!(w.wake_one(), Some(1));
    assert!(w.wait(1, &mut i1, &mut e1));
    assert!(!e1);
    assert_eq!(w.wake_all(), vec![2, 3]);
    assert_eq!(w.wake_all(), Vec::<u64>::new());
    let (mut i4, mut e4) = (None, false);
    assert!(!w.wait(4, &mut i4, &mut e4));
}
