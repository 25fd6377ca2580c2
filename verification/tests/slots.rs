use ylong_runtime::util::slots::{Slots, SlotsError};

#[derive(Debug, Eq, PartialEq)]
struct Data {
    inner: i32,
}

impl Data {
    fn new(inner: i32) -> Self {
        Data { inner }
    }
}

#[test]
fn ut_slots_new() {
    let slots: Slots<i32> = Slots::new();
    assert_eq!(slots.len(), 0);
    assert_eq!(slots.next_key(), 0);
    assert!(slots.iter().next().is_none());
    assert_eq!(slots, Slots::with_capacity(0));
}

#[test]
fn ut_slots_with_capacity() {
    let slots_new: Slots<i32> = Slots::new();
    let slots_with_capacity: Slots<i32> = Slots::with_capacity(0);
    assert_eq!(slots_new, slots_with_capacity);
}

#[test]
fn ut_slots_len() {
    let mut slots = Slots::new();
    assert_eq!(slots.len(), 0_usize);

    for i in 0..1000 {
        slots.push_back(i);
    }
    assert_eq!(slots.len(), 1000);
}

#[test]
fn ut_slots_clear() {
    let mut slots = Slots::new();
    for i in 0..1000 {
        slots.push_back(i);
    }
    assert_ne!(slots, Slots::new());

    slots.clear();
    assert_eq!(slots, Slots::new());
}

#[test]
fn ut_slots_push_back() {
    let mut slots = Slots::new();
    let mut keys = Vec::new();

    for data in 0..100 {
        let key = slots.push_back(data);
        keys.push(key);
    }
    for (data, key) in keys.iter().enumerate() {
        assert_eq!(*slots.get(*key).unwrap(), data);
    }

    let mut slots = Slots::new();
    let mut keys = Vec::new();

    for data in 0..100 {
        let key = slots.push_back(data);
        keys.push(key);
    }
    for index in 0..50 {
        let res = slots.remove(index);
        assert!(res.is_ok());
    }
    for data in 100..150 {
        slots.push_back(data);
    }
    let mut cnt = 149;
    for index in 0..50 {
        assert_eq!(*slots.get(index).unwrap(), cnt);
        cnt -= 1;
    }

    let mut slots = Slots::new();
    let mut keys = Vec::new();

    for data in 0..100 {
        let key = slots.push_back(Data::new(data));
        keys.push(key);
    }
    for index in 0..50 {
        let res = slots.remove(index);
        assert!(res.is_ok());
    }
    for data in 100..150 {
        slots.push_back(Data::new(data));
    }
    let mut cnt = 149;
    for index in 0..50 {
        assert_eq!(*slots.get(index).unwrap(), Data::new(cnt));
        cnt -= 1;
    }
}

#[test]
fn ut_slots_pop_front() {
    let mut slots = Slots::new();
    for data in 0..100 {
        slots.push_back(data);
    }
    for index in 0..50 {
        assert_eq!(slots.pop_front(), Some(index));
        assert_eq!(slots.get(index), None);
    }
    assert_eq!(slots.len(), 50);

    for data in 100..150 {
        slots.push_back(data);
    }
    for target in 50..150 {
        assert_eq!(slots.pop_front(), Some(target));
    }
    assert_eq!(slots.pop_front(), None);
    assert_eq!(slots.len(), 0);
}

#[test]
fn ut_slots_remove() {
    let mut slots = Slots::new();
    let mut keys = Vec::new();

    for data in 0..100 {
        let key = slots.push_back(data);
        keys.push(key);
    }
    assert_eq!(slots.remove(0), Ok(0));
}

#[test]
fn ut_slots_get() {
    let mut slots = Slots::new();
    let key = slots.push_back("key");

    assert_eq!(slots.get(key), Some(&"key"));
    assert_eq!(slots.get(123), None);
}

#[test]
fn ut_slots_get_mut() {
    let mut slots = Slots::new();
    let key = slots.push_back("key");

    *slots.get_mut(key).unwrap() = "change_key";
    assert_eq!(*slots.get(key).unwrap(), "change_key");
    assert_eq!(slots.get(123), None);
}

#[test]
fn ut_slots_contains() {
    let mut slots = Slots::new();
    let key = slots.push_back("key");

    assert!(slots.contains(key));
    assert!(!slots.contains(123));

    let res = slots.remove(key);
    assert!(res.is_ok());
    assert!(!slots.contains(key));
}

#[test]
fn ut_slots_iter() {
    let mut slots = Slots::new();

    for i in 0..3 {
        slots.push_back(i);
    }

    let mut iter = slots.iter();
    while let Some((key, element)) = iter.next() {
        assert_eq!(slots.get(key).unwrap(), element);
    }
}

#[test]
fn ut_slots_is_empty() {
    let mut slots = Slots::new();
    assert!(slots.is_empty());

    slots.push_back(1);
    assert!(!slots.is_empty());
}

#[test]
fn ut_slots_capacity() {
    let slots: Slots<i32> = Slots::new();
    assert_eq!(slots.capacity(), 0);

    let slots: Slots<i32> = Slots::with_capacity(10);
    assert_eq!(slots.capacity(), 10);
}

#[test]
fn slots_removed_key_is_reused_first() {
    let mut slots = Slots::new();
    let zero = slots.push_back("zero");
    let one = slots.push_back("one");
    assert_eq!(zero, 0);
    assert_eq!(one, 1);
    assert_eq!(slots.remove(zero), Ok("zero"));
    assert_eq!(slots.next_key(), zero);
    let two = slots.push_back("two");
    assert_eq!(two, zero);
    assert_eq!(slots.remove(7), Err(SlotsError));
    assert_eq!(SlotsError.as_str(), "invalid key");
}

#[test]
fn slots_iter_visits_in_insertion_order() {
    let mut slots = Slots::new();
    for i in 0..5 {
        slots.push_back(i * 10);
    }
    slots.remove(2).unwrap();
    let mut seen = Vec::new();
    let mut iter = slots.iter();
    while let Some((key, element)) = iter.next() {
        seen.push((key, *element));
    }
    assert_eq!(seen, vec![(0, 0), (1, 10), (3, 30), (4, 40)]);
}
