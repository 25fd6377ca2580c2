use ylong_runtime::select::{Select, SelectOutcome};
use ylong_runtime::sync::oneshot::Channel;

/// One poll of a select: `poll(b)` polls branch `b`, giving `None` while it
/// is pending and `Some(matched)` once it has its output.
fn poll_select(sel: &mut Select, mut poll: impl FnMut(usize) -> Option<bool>) -> SelectOutcome {
    let mut anyone_pending = false;
    for i in 0..sel.len() {
        let b = sel.branch_at(i);
        if !sel.is_enabled(b) {
            continue;
        }
        match poll(b) {
            Some(matched) => {
                if let Some(w) = sel.on_ready(b, matched) {
                    return SelectOutcome::Branch(w);
                }
            }
            None => anyone_pending = true,
        }
    }
    Select::finish(anyone_pending)
}

#[test]
fn new_select_basic() {
    fn do_async1() -> i32 {
        1
    }
    fn do_async2() -> i32 {
        2
    }

    let mut count = 0;
    let mut sel = Select::new(vec![false, true, false], true, 7);
    let mut b = 0;
    match poll_select(&mut sel, |branch| {
        assert_eq!(branch, 1);
        b = do_async2();
        Some(true)
    }) {
        SelectOutcome::Branch(0) => count += do_async1(),
        SelectOutcome::Branch(1) => count += b,
        SelectOutcome::Branch(2) => count = 4,
        _ => panic!("select! fail"),
    }
    assert_eq!(count, 2);
}

#[test]
fn new_select_channel() {
    let mut rx1 = Channel::new();
    let mut rx2 = Channel::new();

    let mut a = None;
    let mut b = None;
    let mut round = 0;

    while a.is_none() || b.is_none() {
        // The senders run between the polls.
        if round == 1 {
            rx1.send("first").unwrap();
        }
        if round == 2 {
            rx2.send("second").unwrap();
        }
        round += 1;
        let mut sel = Select::new(vec![a.is_none(), b.is_none()], true, round);
        let mut got = None;
        let out = poll_select(&mut sel, |branch| {
            let r = if branch == 0 {
                rx1.poll_recv()
            } else {
                rx2.poll_recv()
            };
            r.map(|v| {
                got = Some(v);
                true
            })
        });
        match out {
            SelectOutcome::Branch(0) => a = Some(got.unwrap().unwrap()),
            SelectOutcome::Branch(1) => b = Some(got.unwrap().unwrap()),
            SelectOutcome::Pending => {}
            _ => panic!("select! fail"),
        }
    }

    let res = (a.unwrap(), b.unwrap());
    assert_eq!(res.0, "first");
    assert_eq!(res.1, "second");
}

#[test]
fn new_select_biased() {
    let mut count = 0u8;
    loop {
        let mut sel = Select::new(vec![count < 1, count < 2, count < 3, count < 4], false, 99);
        match poll_select(&mut sel, |_| Some(true)) {
            SelectOutcome::Branch(0) => {
                count += 1;
                assert_eq!(count, 1);
            }
            SelectOutcome::Branch(1) => {
                count += 1;
                assert_eq!(count, 2);
            }
            SelectOutcome::Branch(2) => {
                count += 1;
                assert_eq!(count, 3);
            }
            SelectOutcome::Branch(3) => {
                count += 1;
                assert_eq!(count, 4);
            }
            SelectOutcome::AllFailed => break,
            _ => panic!("select! fail"),
        }
    }
    assert_eq!(count, 4);
}

#[test]
fn new_select_match() {
    fn do_async1() -> i32 {
        1
    }
    fn do_async2() -> Option<i32> {
        Some(2)
    }
    fn do_async3() -> Option<bool> {
        None
    }

    for start in 0..3u64 {
        let mut count = 0;
        let mut sel = Select::new(vec![true, true, true], true, start);
        let mut a = 0;
        let mut c = None;
        let out = poll_select(&mut sel, |branch| match branch {
            0 => {
                a = do_async1();
                Some(true)
            }
            1 => Some(do_async2().is_none()),
            _ => {
                c = do_async3();
                Some(c.is_some())
            }
        });
        match out {
            SelectOutcome::Branch(0) => count += a,
            SelectOutcome::Branch(1) => count += 2,
            SelectOutcome::Branch(2) => {
                if c.unwrap() {
                    count = 3;
                } else {
                    count = 4;
                }
            }
            _ => panic!("select! fail"),
        }
        assert_eq!(count, 1);
    }
}

#[test]
fn new_select_precondition() {
    struct TestStruct {
        bool: bool,
    }
    let test_struct = TestStruct { bool: true };
    let mut count = 0;
    let mut sel = Select::new(vec![test_struct.bool], true, 3);
    match poll_select(&mut sel, |_| Some(true)) {
        SelectOutcome::Branch(0) => count += 1,
        _ => panic!("select! fail"),
    }
    assert_eq!(count, 1);
}

#[test]
fn select_all_disabled_fails() {
    let mut sel = Select::new(vec![false, false], true, 5);
    assert_eq!(poll_select(&mut sel, |_| Some(true)), SelectOutcome::AllFailed);
}

#[test]
fn select_starts_at_random_branch() {
    let sel = Select::new(vec![true, true, true], true, 5);
    assert_eq!(sel.branch_at(0), 2);
    assert_eq!(sel.branch_at(1), 0);
    assert_eq!(sel.branch_at(2), 1);
    let sel = Select::new(vec![true, true, true], false, 5);
    assert_eq!(sel.branch_at(0), 0);
}

#[test]
#[should_panic]
fn new_select_panic() {
    let mut sel = Select::new(vec![false, false], true, 1);
    match poll_select(&mut sel, |_| Some(true)) {
        SelectOutcome::AllFailed => panic!("select!: All the branches failed."),
        _ => {}
    }
}
