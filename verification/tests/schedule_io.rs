use ylong_runtime::net::ready::{READABLE, WRITABLE};
use ylong_runtime::net::{Interest, Ready, ReadyEvent};
use ylong_runtime::schedule_io::{Readiness, ScheduleIO, ScheduleIoError, State, Tick};
use ylong_runtime::util::slab::Entry;

#[test]
fn ut_schedule_io_default() {
    let schedule_io = ScheduleIO::default();
    let status = schedule_io.status;
    assert_eq!(status, 0);
    let is_shutdown = schedule_io.waiters.is_shutdown;
    assert!(!is_shutdown);
}

#[test]
fn ut_schedule_io_reset() {
    let mut schedule_io = ScheduleIO::default();
    let pre_status = schedule_io.status;
    assert_eq!(pre_status, 0x00);
    schedule_io.reset();
    let after_status = schedule_io.status;
    assert_eq!(after_status, 0x1000000);
}

#[test]
fn ut_schedule_io_generation() {
    let mut schedule_io = ScheduleIO::default();
    schedule_io.status = 0x7f000000;
    assert_eq!(schedule_io.generation(), 0x7f);
}

#[test]
fn ut_schedule_io_shutdown() {
    let mut schedule_io = ScheduleIO::default();
    schedule_io.shutdown();
    assert!(schedule_io.waiters.is_shutdown);
}

#[test]
fn ut_schedule_io_clear_readiness() {
    let mut schedule_io = ScheduleIO::default();
    schedule_io.status = 0x0000000f;
    schedule_io.clear_readiness(ReadyEvent::new(0, Ready::from_usize(0x1)));
    let status = schedule_io.status;
    assert_eq!(status, 0x0000000e);
}

#[test]
fn ut_schedule_io_set_readiness() {
    ut_schedule_io_set_readiness_01();
    ut_schedule_io_set_readiness_02();
    ut_schedule_io_set_readiness_03();

    fn ut_schedule_io_set_readiness_01() {
        let mut schedule_io = ScheduleIO::default();
        let token = 0x7f000000usize;
        let ret = schedule_io.set_readiness(Some(token), Tick::Update(1), |curr| curr);
        let err = ret.err().unwrap();
        assert_eq!(err, ScheduleIoError::TokenInvalid);
        assert_eq!(format!("{}", err.as_str()), "Token no longer valid.");
    }

    fn ut_schedule_io_set_readiness_02() {
        let mut schedule_io = ScheduleIO::default();
        let token = 0x00000000usize;
        let ret = schedule_io.set_readiness(Some(token), Tick::Clear(1), |curr| curr);
        let err = ret.err().unwrap();
        assert_eq!(err, ScheduleIoError::Covered);
        assert_eq!(format!("{}", err.as_str()), "Readiness has been covered.");
    }

    fn ut_schedule_io_set_readiness_03() {
        let mut schedule_io = ScheduleIO::default();
        let token = 0x00000000usize;
        let ret = schedule_io.set_readiness(Some(token), Tick::Update(1), |curr| curr);
        assert!(ret.is_ok());
        let status = schedule_io.status;
        assert_eq!(status, 0x00010000);
    }
}

#[test]
fn reset_wraps_generation() {
    let mut io = ScheduleIO::default();
    io.status = 0x7f00_ffff;
    io.reset();
    assert_eq!(io.status, 0);
    assert_eq!(io.generation(), 0);
}

#[test]
fn readiness_waits_then_wakes() {
    let mut io = ScheduleIO::default();
    let mut fut = Readiness::new(Interest::readable());
    assert!(fut.poll(&mut io, 7).is_none());
    assert_eq!(fut.state, State::Waiting);
    assert_eq!(io.waiters.list.len(), 1);

    // A write readiness does not wake a reader.
    assert!(io.wake(Ready::from_usize(WRITABLE)).is_empty());
    assert!(fut.poll(&mut io, 8).is_none());

    // The waker was replaced by the later one.
    let woken = io.wake(Ready::from_usize(READABLE));
    assert_eq!(woken, vec![8]);
    let event = fut.poll(&mut io, 8).unwrap();
    assert_eq!(event.get_ready().as_usize(), 0b0101);
    assert_eq!(fut.state, State::Done);

    fut.release(&mut io);
    assert_eq!(io.waiters.list.len(), 0);
}

#[test]
fn readiness_ready_at_once() {
    let mut io = ScheduleIO::default();
    io.set_readiness(None, Tick::Update(3), |curr| curr.union(Ready::from_usize(WRITABLE)))
        .unwrap();
    let mut fut = Readiness::new(Interest::writable());
    let event = fut.poll(&mut io, 1).unwrap();
    assert_eq!(event.get_tick(), 3);
    assert_eq!(event.get_ready().as_usize(), WRITABLE);
    assert_eq!(io.waiters.list.len(), 0);
}

#[test]
fn poll_readiness_registers_reader() {
    let mut io = ScheduleIO::default();
    assert!(io.poll_readiness(5, Interest::readable()).is_none());
    assert_eq!(io.waiters.reader, Some(5));
    let woken = io.shutdown();
    assert_eq!(woken, vec![5]);
    let event = io.poll_readiness(6, Interest::readable()).unwrap();
    assert!(event.get_ready().is_empty());
}

#[test]
fn clear_readiness_keeps_closed_bits() {
    let mut io = ScheduleIO::default();
    io.status = 0b1111;
    io.clear_readiness(ReadyEvent::new(0, Ready::from_usize(0b1111)));
    assert_eq!(io.status, 0b1100);
    // A clear at another tick is refused.
    io.status = 0x0002_0003;
    io.clear_readiness(ReadyEvent::new(1, Ready::from_usize(0b0011)));
    assert_eq!(io.status, 0x0002_0003);
}

#[test]
fn interest_and_ready_bits() {
    let both = Interest::readable().add(Interest::writable());
    assert!(both.is_readable() && both.is_writable());
    assert_eq!(Ready::from_interest(both).as_usize(), 0b1111);
    assert_eq!(Ready::from_interest(Interest::writable()).as_usize(), 0b1010);
    assert!(Ready::from_usize(0b0100).is_readable());
    assert!(Ready::from_usize(0b0100).satisfies(Interest::readable()));
    assert!(!Ready::from_usize(0b0100).satisfies(Interest::writable()));
    assert_eq!(Ready::from_usize(0xfff3).as_usize(), 0b0011);
}
