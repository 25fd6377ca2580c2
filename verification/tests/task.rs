use ylong_runtime::task::{PriorityLevel, TaskBuilder};

#[test]
fn ut_task() {
    ut_builder_new();
    ut_builder_name();
    ut_builder_pri();
    ut_builder_insert_front();
    ut_builder_stat();
}

fn ut_builder_new() {
    let builder = TaskBuilder::new();
    assert_eq!(builder.name, None);
    assert!(builder.pri.is_none());
    assert!(!builder.is_stat);
    assert!(!builder.is_insert_front);
}

fn ut_builder_name() {
    let builder = TaskBuilder::new();

    let name = String::from("builder_name");
    assert_eq!(builder.name(name.clone()).name.unwrap(), name);
}

fn ut_builder_pri() {
    let builder = TaskBuilder::new();
    let pri = PriorityLevel::AbsHigh;
    assert_eq!(builder.priority(pri).pri.unwrap(), pri);

    let builder = TaskBuilder::new();
    let pri = PriorityLevel::High;
    assert_eq!(builder.priority(pri).pri.unwrap(), pri);

    let builder = TaskBuilder::new();
    let pri = PriorityLevel::Low;
    assert_eq!(builder.priority(pri).pri.unwrap(), pri);

    let builder = TaskBuilder::new();
    let pri = PriorityLevel::AbsLow;
    assert_eq!(builder.priority(pri).pri.unwrap(), pri);
}

fn ut_builder_stat() {
    let builder = TaskBuilder::new();
    let is_stat = true;
    assert_eq!(builder.stat(is_stat).is_stat, is_stat);

    let builder = TaskBuilder::new();
    let is_stat = false;
    assert_eq!(builder.stat(is_stat).is_stat, is_stat);
}

fn ut_builder_insert_front() {
    let builder = TaskBuilder::new();
    let is_insert_front = true;
    assert_eq!(
        builder.insert_front(is_insert_front).is_insert_front,
        is_insert_front
    );

    let builder = TaskBuilder::new();
    let is_insert_front = false;
    assert_eq!(
        builder.insert_front(is_insert_front).is_insert_front,
        is_insert_front
    );
}
