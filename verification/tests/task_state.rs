use ylong_runtime::task::state::{
    StateAction, TaskState, CANCELED, CARE_JOIN_HANDLE, FINISHED, INIT, JOIN_WAKER, REF_ONE,
    RUNNING, SCHEDULING,
};
#[test]
fn ut_task_state_new() {
    let mut task_state = TaskState::new();
    assert_eq!(task_state.get_current_state(), INIT);
}


#[test]
fn ut_task_state_dec_ref() {
    let mut task_state = TaskState::new();
    task_state.dec_ref();
    assert_eq!(task_state.get_current_state(), INIT.wrapping_sub(REF_ONE))
}


#[test]
fn ut_task_state_inc_ref() {
    let mut task_state = TaskState::new();
    task_state.inc_ref();
    assert_eq!(task_state.get_current_state(), INIT.wrapping_add(REF_ONE));
}


#[test]
fn ut_task_state_get_current_state() {
    let mut task_state = TaskState::new();
    assert_eq!(task_state.get_current_state(), INIT);
}


#[test]
fn ut_task_state_turning_to_running() {
    let mut task_state = TaskState::new();
    let mut test_task_state = INIT;
    test_task_state &= !SCHEDULING;
    test_task_state |= RUNNING;

    match task_state.turning_to_running() {
        StateAction::Success => {}
        _ => panic!(),
    }

    match task_state.turning_to_running() {
        StateAction::Failed(x) => assert_eq!(x, test_task_state),
        _ => panic!(),
    }
}


#[test]
fn ut_task_state_turning_to_finish() {
    let mut task_state = TaskState::new();
    task_state.turning_to_running();
    let mut test_task_state = INIT;
    test_task_state &= !RUNNING;
    test_task_state |= FINISHED;
    test_task_state &= !SCHEDULING;
    let ret = task_state.turning_to_finish().unwrap();
    assert_eq!(ret, test_task_state);
    assert!(task_state.turning_to_finish().is_err());
}



#[test]
fn ut_task_state_turning_to_idle() {
    let mut task_state = TaskState::new();
    let mut next_state = task_state.get_current_state();
    next_state |= CANCELED;
    next_state |= RUNNING;
    task_state.store(next_state);
    match task_state.turning_to_idle() {
        StateAction::Canceled(cur) => assert_eq!(cur, next_state),
        _ => panic!(),
    }

    let mut task_state = TaskState::new();
    match task_state.turning_to_idle() {
        StateAction::Failed(cur) => assert_eq!(cur, INIT),
        _ => panic!(),
    }

    let mut task_state = TaskState::new();
    let mut next_state = task_state.get_current_state();
    next_state |= RUNNING;
    next_state &= !SCHEDULING;
    task_state.store(next_state);
    let mut test_state = next_state;
    test_state &= !RUNNING;
    match task_state.turning_to_idle() {
        StateAction::Success => assert_eq!(task_state.get_current_state(), test_state),
        _ => panic!(),
    }

    let mut task_state = TaskState::new();
    let mut next_state = task_state.get_current_state();
    next_state |= RUNNING;
    next_state |= SCHEDULING;
    task_state.store(next_state);
    match task_state.turning_to_idle() {
        StateAction::Enqueue => {}
        _ => panic!(),
    }
}


#[test]
fn ut_task_state_turning_to_scheduling() {
    let mut task_state = TaskState::new();
    let mut test_state = task_state.get_current_state();
    test_state |= SCHEDULING;
    assert_eq!(task_state.turn_to_scheduling(), test_state);
}


#[test]
fn ut_task_state_turn_to_un_set_waker() {
    let mut task_state = TaskState::new();
    let mut next_state = task_state.get_current_state();
    next_state &= !CARE_JOIN_HANDLE;
    next_state &= !JOIN_WAKER;
    task_state.store(next_state);
    assert!(task_state.turn_to_un_set_waker().is_err());

    let mut task_state = TaskState::new();
    let mut next_state = task_state.get_current_state();
    next_state |= CARE_JOIN_HANDLE;
    next_state |= JOIN_WAKER;
    next_state |= FINISHED;
    task_state.store(next_state);
    assert!(task_state.turn_to_un_set_waker().is_err());

    let mut task_state = TaskState::new();
    let mut next_state = task_state.get_current_state();
    next_state |= CARE_JOIN_HANDLE;
    next_state |= JOIN_WAKER;
    next_state &= !FINISHED;
    task_state.store(next_state);
    assert!(task_state.turn_to_un_set_waker().is_ok());
}


#[test]
fn ut_task_state_turn_to_set_waker() {
    let mut task_state = TaskState::new();
    let mut next_state = task_state.get_current_state();
    next_state &= !CARE_JOIN_HANDLE;
    next_state |= JOIN_WAKER;
    task_state.store(next_state);
    assert!(task_state.turn_to_set_waker().is_err());

    let mut task_state = TaskState::new();
    let mut next_state = task_state.get_current_state();
    next_state |= CARE_JOIN_HANDLE;
    next_state &= !JOIN_WAKER;
    next_state |= FINISHED;
    task_state.store(next_state);
    assert!(task_state.turn_to_set_waker().is_err());

    let mut task_state = TaskState::new();
    let mut next_state = task_state.get_current_state();
    next_state |= CARE_JOIN_HANDLE;
    next_state &= !JOIN_WAKER;
    next_state &= !FINISHED;
    task_state.store(next_state);
    assert!(task_state.turn_to_set_waker().is_ok());
}


#[test]
fn ut_task_state_turn_to_un_join_handle() {
    let mut task_state = TaskState::new();
    let mut next_state = task_state.get_current_state();
    next_state |= FINISHED;
    task_state.store(next_state);
    assert!(task_state.turn_to_un_join_handle().is_err());

    let mut task_state = TaskState::new();
    let mut next_state = task_state.get_current_state();
    next_state &= !FINISHED;
    task_state.store(next_state);
    assert!(task_state.turn_to_un_join_handle().is_ok());
}


#[test]
fn ut_task_state_turning_to_un_join_handle() {
    let mut task_state = TaskState::new();
    assert!(task_state.try_turning_to_un_join_handle());
}
