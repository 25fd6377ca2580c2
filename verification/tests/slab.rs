use ylong_runtime::util::slab::{Address, Entry, Slab, NUM_PAGES, PAGE_INITIAL_SIZE};

#[derive(Default, Debug)]
struct Foo {
    cnt: usize,
    id: usize,
}

impl Entry for Foo {
    fn reset(&mut self) {
        self.cnt += 1;
    }
}

#[test]
fn ut_slab_new() {
    let slab = Slab::<Foo>::new();
    assert_eq!(slab.page_count(), NUM_PAGES);

    for index in 0..slab.page_count() {
        assert_eq!(
            slab.page_len(index),
            PAGE_INITIAL_SIZE * 2_usize.pow(index as u32)
        );
    }
}

#[test]
fn ut_slab_get() {
    let mut slab = Slab::<Foo>::new();

    let (addr, _) = slab.allocate().unwrap();
    assert!(slab.get(addr).is_some());

    let un_addr = Address::from_usize(10000);
    assert!(slab.get(un_addr).is_none());
}

#[test]
fn ut_slab_compact() {
    let mut slab = Slab::<Foo>::new();
    let mut address = Vec::new();

    for data in 0..33 {
        let (addr, foo) = slab.allocate().unwrap();
        slab.replace(&foo, Foo { cnt: 0, id: data });
        address.push((addr, foo));
    }
    slab.compact();
    assert_eq!(slab.get(address[32].0).unwrap().id, 32);

    let mut slab = Slab::<Foo>::new();
    let mut address = Vec::new();

    assert!(!slab.page_allocated(1));

    for _ in 0..33 {
        let (addr, foo) = slab.allocate().unwrap();
        address.push((addr, foo));
    }
    assert!(slab.page_allocated(1));
    assert_eq!(slab.page_used(1), 1);
    slab.release(address.pop().unwrap().1);
    assert!(slab.page_allocated(1));
    assert_eq!(slab.page_used(1), 0);
    slab.compact();
    assert!(!slab.page_allocated(1));
}

#[test]
fn slab_reuses_last_released_slot() {
    let mut slab = Slab::<Foo>::new();
    let (a0, r0) = slab.allocate().unwrap();
    let (a1, _r1) = slab.allocate().unwrap();
    assert_eq!(a0.as_usize(), 0);
    assert_eq!(a1.as_usize(), 1);
    slab.release(r0);
    let (a2, r2) = slab.allocate().unwrap();
    assert_eq!(a2, a0);
    // A reused slot is reset before it is handed out again.
    assert_eq!(slab.deref(&r2).cnt, 1);
}

#[test]
fn slab_address_pages() {
    assert_eq!(Address::from_usize(0).page(), 0);
    assert_eq!(Address::from_usize(31).page(), 0);
    assert_eq!(Address::from_usize(32).page(), 1);
    assert_eq!(Address::from_usize(95).page(), 1);
    assert_eq!(Address::from_usize(96).page(), 2);
}
