use std::time::Duration;
use ylong_runtime::sync::oneshot::Channel;
use ylong_runtime::time::wheel::{Wheel, LEVELS_NUM};
use ylong_runtime::time::timer::timer_at;
use ylong_runtime::time::{sleep, timeout, timer, TimerError, TimerHandle};

/// Runs the wheel at `now` as its driver does: hands out every expired
/// clock, then records the run.
fn run_wheel(wheel: &mut Wheel, now: u64) -> Vec<TimerHandle> {
    let mut fired = Vec::new();
    while let Some(h) = wheel.poll(now) {
        fired.push(h);
    }
    wheel.set_last_elapsed(now);
    fired
}

#[test]
fn ut_wheel_new_test() {
    let wheel = Wheel::new();
    assert_eq!(wheel.elapsed(), 0);
    assert_eq!(wheel.last_elapsed(), 0);
    assert_eq!(wheel.level_count(), LEVELS_NUM);
}

#[test]
fn new_timer_sleep() {
    let mut wheel = Wheel::new();
    let mut now = 0;
    for id in 0..3 {
        let mut s = sleep(now, 20_000_000 / 1_000_000, id);
        assert!(!s.poll(0, &mut wheel));
        assert!(!s.poll(0, &mut wheel));
        now += 20;
        let fired = run_wheel(&mut wheel, now);
        assert_eq!(fired, vec![TimerHandle { inner: id }]);
        s.fire();
        assert!(s.poll(0, &mut wheel));
    }

    let mut sleeps: Vec<_> = (10..13).map(|id| sleep(now, 20, id)).collect();
    for s in sleeps.iter_mut() {
        assert!(!s.poll(0, &mut wheel));
    }
    assert!(wheel.poll(now + 10).is_none());
    let mut fired = run_wheel(&mut wheel, now + 20);
    fired.sort_by_key(|h| h.inner);
    assert_eq!(
        fired,
        vec![
            TimerHandle { inner: 10 },
            TimerHandle { inner: 11 },
            TimerHandle { inner: 12 }
        ]
    );
    for s in sleeps.iter_mut() {
        s.fire();
        assert!(s.poll(0, &mut wheel));
    }
}

#[test]
fn ut_timeout_test() {
    let mut wheel = Wheel::new();

    // not elapsed
    let mut chan = Channel::new();
    chan.send(()).unwrap();
    let mut limit = timeout(0, 10, 1);
    let value = chan.try_recv().ok();
    let result = limit.poll(value, 0, &mut wheel).unwrap();
    assert!(result.is_ok());

    // elapsed
    let mut chan = Channel::<()>::new();
    let mut limit = timeout(0, 10, 2);
    assert!(limit.poll(chan.try_recv().ok(), 0, &mut wheel).is_none());
    let fired = run_wheel(&mut wheel, 10);
    assert_eq!(fired, vec![TimerHandle { inner: 2 }]);
    limit.fire();
    let result = limit.poll(chan.try_recv().ok(), 0, &mut wheel).unwrap();
    assert!(!result.is_ok());
    assert_eq!(result, Err(TimerError::Elapsed));
}

#[test]
fn ut_timeout_test_002() {
    let mut wheel = Wheel::new();
    let mut limit = timeout(0, 100, 1);
    let result = limit.poll(Some(1), 0, &mut wheel).unwrap();
    assert_eq!(result.unwrap(), 1);
}

#[test]
fn ut_new_timer() {
    let mut t = timer(0, 0, 1000, 1);
    assert_eq!(Duration::new(1, 0), Duration::from_millis(t.period()));
    t.reset(5);
    assert_eq!(Duration::new(1, 0), Duration::from_millis(t.period()));
}

#[test]
fn ut_new_timer_base() {
    let mut wheel = Wheel::new();
    let mut a = 0;
    let mut t = timer_at(0, 20, 20, 1);
    a += 1;
    for tick in 1..=3u64 {
        assert_eq!(t.poll_next_period(0, &mut wheel), None);
        assert_eq!(run_wheel(&mut wheel, 20 * tick), vec![TimerHandle { inner: 1 }]);
        t.fire();
        assert_eq!(t.poll_next_period(0, &mut wheel), Some(20 * (tick + 1)));
        if tick < 3 {
            a += 1;
        }
    }
    assert_eq!(a, 3);
}

#[test]
fn ut_new_timer_timeout() {
    let mut wheel = Wheel::new();
    let mut a = 0;
    let mut t = timer_at(0, 100, 100, 1);
    a += 1;
    assert_eq!(t.poll_next_period(0, &mut wheel), None);
    assert_eq!(run_wheel(&mut wheel, 100), vec![TimerHandle { inner: 1 }]);
    t.fire();
    assert_eq!(t.poll_next_period(0, &mut wheel), Some(200));
    // A sleep of 300 ms: the timer falls behind by two periods.
    let mut s = sleep(100, 300, 2);
    assert!(!s.poll(0, &mut wheel));
    let fired = run_wheel(&mut wheel, 400);
    assert_eq!(fired, vec![TimerHandle { inner: 2 }]);
    s.fire();
    assert!(s.poll(0, &mut wheel));
    a += 1;
    // Ticks that are already due come at once, one period apart.
    assert_eq!(t.poll_next_period(0, &mut wheel), Some(300));
    a += 1;
    assert_eq!(t.poll_next_period(0, &mut wheel), Some(400));
    assert_eq!(a, 3);
}

#[test]
fn timer_ticks_once_per_period() {
    let mut wheel = Wheel::new();
    let mut t = timer(0, 0, 30, 7);
    // The first tick is at the start: the wheel is already there.
    assert_eq!(t.poll_next_period(0, &mut wheel), Some(30));
    assert_eq!(t.poll_next_period(0, &mut wheel), None);
    let fired = run_wheel(&mut wheel, 30);
    assert_eq!(fired, vec![TimerHandle { inner: 7 }]);
}

#[test]
fn wheel_levels_by_distance() {
    let wheel = Wheel::new();
    assert_eq!(wheel.find_level(1), 0);
    assert_eq!(wheel.find_level(63), 0);
    assert_eq!(wheel.find_level(64), 1);
    assert_eq!(wheel.find_level(4095), 1);
    assert_eq!(wheel.find_level(4096), 2);
    assert_eq!(wheel.find_level(u64::MAX), 5);
}

#[test]
fn wheel_refuses_past_clock() {
    let mut wheel = Wheel::new();
    let mut c = ylong_runtime::time::Clock::new(3);
    assert_eq!(wheel.insert(&mut c), Err(()));
    c.set_expiration(5);
    assert_eq!(wheel.insert(&mut c), Ok(5));
    assert_eq!(c.duration(), 5);
    wheel.cancel(&c);
    assert!(run_wheel(&mut wheel, 10).is_empty());
}

#[test]
fn wheel_poll_keeps_clocks_not_yet_due() {
    let mut wheel = Wheel::new();
    let mut early = sleep(0, 5, 1);
    let mut late = sleep(0, 40, 2);
    assert!(!early.poll(0, &mut wheel));
    assert!(!late.poll(0, &mut wheel));
    assert_eq!(wheel.poll(10), Some(TimerHandle { inner: 1 }));
    assert!(wheel.poll(10).is_none());
    assert!(wheel.poll(20).is_none());
    assert_eq!(wheel.poll(40), Some(TimerHandle { inner: 2 }));
    assert!(wheel.poll(40).is_none());
}

#[test]
fn timer_does_not_tick_before_its_clock_fires() {
    let mut wheel = Wheel::new();
    let mut t = timer_at(0, 50, 50, 3);
    assert_eq!(t.poll_next_period(0, &mut wheel), None);
    assert_eq!(t.poll_next_period(0, &mut wheel), None);
    assert!(wheel.poll(20).is_none());
    assert_eq!(t.poll_next_period(0, &mut wheel), None);
    assert_eq!(wheel.poll(50), Some(TimerHandle { inner: 3 }));
    t.fire();
    assert_eq!(t.poll_next_period(0, &mut wheel), Some(100));
}
