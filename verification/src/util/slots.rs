//! Slots container: a doubly linked list kept in a vector, whose elements are
//! addressed by stable keys and whose freed slots are reused.
use vstd::prelude::*;

verus! {

/// Key of no slot.
const NULL: usize = usize::MAX;

#[derive(Debug, Eq, PartialEq)]
struct Entry<T> {
    data: Option<T>,
    prev: usize,
    next: usize,
}

impl<T> Entry<T> {
    fn new(val: T, prev: usize, next: usize) -> (e: Entry<T>)
        ensures
            e.data == Some(val),
            e.prev == prev,
            e.next == next,
    {
        Entry { data: Some(val), prev, next }
    }
}

/// The slot key was not in use.
#[derive(Debug, Eq, PartialEq, Clone)]
pub struct SlotsError;

impl SlotsError {
    /// The error's message.
    pub fn as_str(&self) -> (r: &'static str)
        ensures
            r@ == "invalid key"@,
    {
        "invalid key"
    }
}

/// Walks the elements of a `Slots` in list order.
pub struct SlotsIter<'a, T> {
    entries: &'a Vec<Entry<T>>,
    len: usize,
    head: usize,
}

impl<'a, T> SlotsIter<'a, T> {
    spec fn rest_link(self, r: Seq<usize>, i: int) -> bool {
        &&& r[i] < self.entries.len()
        &&& self.entries@[r[i] as int].data is Some
        &&& i + 1 < r.len() ==> self.entries@[r[i] as int].next == r[i + 1]
    }

    spec fn is_rest(self, r: Seq<usize>) -> bool {
        &&& r.len() == self.len
        &&& r.len() > 0 ==> self.head == r[0]
        &&& forall|i: int| 0 <= i < r.len() ==> #[trigger] self.rest_link(r, i)
    }

    /// The keys still to be visited, in order.
    pub closed spec fn remaining(self) -> Seq<usize> {
        choose|r: Seq<usize>| self.is_rest(r)
    }

    /// The element that the walk shows under key `k`.
    pub closed spec fn value_at(self, k: usize) -> T {
        self.entries@[k as int].data->0
    }

    /// The walk follows a well-linked list.
    pub closed spec fn wf(self) -> bool {
        self.is_rest(self.remaining())
    }

    proof fn lemma_rest_unique(self, a: Seq<usize>, b: Seq<usize>)
        requires
            self.is_rest(a),
            self.is_rest(b),
        ensures
            a == b,
    {
        assert forall|i: int| 0 <= i < a.len() implies a[i] == b[i] by {
            self.lemma_rest_prefix(a, b, i);
        }
        assert(a =~= b);
    }

    proof fn lemma_rest_prefix(self, a: Seq<usize>, b: Seq<usize>, i: int)
        requires
            self.is_rest(a),
            self.is_rest(b),
            0 <= i < a.len(),
        ensures
            a[i] == b[i],
        decreases i,
    {
        if i > 0 {
            self.lemma_rest_prefix(a, b, i - 1);
            assert(self.rest_link(a, i - 1));
            assert(self.rest_link(b, i - 1));
        }
    }

    /// The next key and element, if any are left.
    pub fn next(&mut self) -> (r: Option<(usize, &'a T)>)
        requires
            old(self).wf(),
        ensures
            final(self).wf(),
            forall|k: usize| #[trigger] final(self).value_at(k) == old(self).value_at(k),
            old(self).remaining().len() == 0 ==> r is None && final(self).remaining() == old(self).remaining(),
            old(self).remaining().len() > 0 ==> (r matches Some((k, v)) && k == old(self).remaining()[0] && *v == old(self).value_at(k) && final(self).remaining() == old(self).remaining().drop_first()),
    {
        let ghost r0 = self.remaining();
        let ghost old_self = *self;
        if self.len == 0 {
            return None;
        }
        proof {
            assert(old_self.rest_link(r0, 0));
        }
        let head = self.head;
        if head < self.entries.len() {
            self.len = self.len - 1;
            self.head = self.entries[head].next;
            match self.entries[head].data.as_ref() {
                Some(val) => {
                    proof {
                        let r1 = r0.drop_first();
                        assert forall|i: int| 0 <= i < r1.len() implies #[trigger] self.rest_link(r1, i) by {
                            assert(old_self.rest_link(r0, i + 1));
                        }
                        assert(self.is_rest(r1));
                        self.lemma_rest_unique(self.remaining(), r1);
                    }
                    return Some((head, val));
                },
                None => {},
            }
        }
        None
    }
}

/// A list whose elements keep their key for as long as they stay in it.
///
/// Elements are kept in insertion order. A removed element's slot is put on a
/// stack of free slots, and the next insertion takes the most recently freed
/// slot; with no free slot, the insertion takes a new one at the end.
#[derive(Debug, Eq, PartialEq)]
pub struct Slots<T> {
    entries: Vec<Entry<T>>,
    len: usize,
    head: usize,
    tail: usize,
    next: usize,
}

impl<T> Slots<T> {
    /// Position `i` of `o` is linked as the `i`-th element of the list.
    spec fn order_link(self, o: Seq<usize>, i: int) -> bool {
        let k = o[i];
        &&& k < self.entries.len()
        &&& self.entries@[k as int].data is Some
        &&& self.entries@[k as int].next == (if i + 1 < o.len() {
            o[i + 1]
        } else {
            NULL
        })
        &&& self.entries@[k as int].prev == (if i > 0 {
            o[i - 1]
        } else {
            NULL
        })
    }

    /// `o` is the list of keys in use, head first.
    spec fn is_order(self, o: Seq<usize>) -> bool {
        &&& o.len() == self.len
        &&& self.head == (if o.len() == 0 {
            NULL
        } else {
            o[0]
        })
        &&& self.tail == (if o.len() == 0 {
            NULL
        } else {
            o[o.len() - 1]
        })
        &&& forall|i: int| 0 <= i < o.len() ==> #[trigger] self.order_link(o, i)
    }

    /// Position `i` of `f` is linked as the `i`-th free slot.
    spec fn free_link(self, f: Seq<usize>, i: int) -> bool {
        let k = f[i];
        &&& k < self.entries.len()
        &&& self.entries@[k as int].data is None
        &&& self.entries@[k as int].next == (if i + 1 < f.len() {
            f[i + 1]
        } else {
            self.entries.len() as usize
        })
    }

    /// `f` is the stack of free slots, the next one to be reused first.
    spec fn is_free(self, f: Seq<usize>) -> bool {
        &&& f.len() + self.len == self.entries.len()
        &&& self.next == (if f.len() == 0 {
            self.entries.len() as usize
        } else {
            f[0]
        })
        &&& forall|i: int| 0 <= i < f.len() ==> #[trigger] self.free_link(f, i)
    }

    /// The keys in use, in list order.
    pub closed spec fn keys(self) -> Seq<usize> {
        choose|o: Seq<usize>| self.is_order(o)
    }

    /// The free slots, the one that the next insertion takes first.
    pub closed spec fn free_keys(self) -> Seq<usize> {
        choose|f: Seq<usize>| self.is_free(f)
    }

    /// The element held under each key in use.
    pub closed spec fn values(self) -> Map<usize, T> {
        Map::new(|k: usize| self.keys().contains(k), |k: usize| self.entries@[k as int].data->0)
    }

    /// The number of slots ever taken, free or in use.
    pub closed spec fn slot_count(self) -> nat {
        self.entries@.len()
    }

    /// The key that the next insertion takes.
    pub open spec fn next_key_spec(self) -> usize {
        if self.free_keys().len() == 0 {
            self.slot_count() as usize
        } else {
            self.free_keys()[0]
        }
    }

    /// The container is consistent: the list and the free stack are well linked,
    /// hold no key twice, and every slot that holds an element is on the list.
    pub closed spec fn wf(self) -> bool {
        &&& self.entries.len() < NULL
        &&& self.is_order(self.keys())
        &&& self.is_free(self.free_keys())
        &&& self.keys().no_duplicates()
        &&& self.free_keys().no_duplicates()
        &&& forall|k: usize|
            k < self.entries.len() && (#[trigger] self.entries@[k as int]).data is Some
                ==> self.keys().contains(k)
    }

    proof fn lemma_order_unique(self, a: Seq<usize>, b: Seq<usize>)
        requires
            self.is_order(a),
            self.is_order(b),
        ensures
            a == b,
    {
        assert forall|i: int| 0 <= i < a.len() implies a[i] == b[i] by {
            self.lemma_order_prefix(a, b, i);
        }
        assert(a =~= b);
    }

    proof fn lemma_order_prefix(self, a: Seq<usize>, b: Seq<usize>, i: int)
        requires
            self.is_order(a),
            self.is_order(b),
            0 <= i < a.len(),
        ensures
            a[i] == b[i],
        decreases i,
    {
        if i > 0 {
            self.lemma_order_prefix(a, b, i - 1);
            assert(self.order_link(a, i - 1));
            assert(self.order_link(b, i - 1));
        }
    }

    proof fn lemma_free_unique(self, a: Seq<usize>, b: Seq<usize>)
        requires
            self.is_free(a),
            self.is_free(b),
        ensures
            a == b,
    {
        assert forall|i: int| 0 <= i < a.len() implies a[i] == b[i] by {
            self.lemma_free_prefix(a, b, i);
        }
        assert(a =~= b);
    }

    proof fn lemma_free_prefix(self, a: Seq<usize>, b: Seq<usize>, i: int)
        requires
            self.is_free(a),
            self.is_free(b),
            0 <= i < a.len(),
        ensures
            a[i] == b[i],
        decreases i,
    {
        if i > 0 {
            self.lemma_free_prefix(a, b, i - 1);
            assert(self.free_link(a, i - 1));
            assert(self.free_link(b, i - 1));
        }
    }

    /// Establishes `wf` from explicit witnesses of the list and the free stack.
    proof fn lemma_wf_from(self, o: Seq<usize>, f: Seq<usize>)
        requires
            self.entries.len() < NULL,
            self.is_order(o),
            self.is_free(f),
            o.no_duplicates(),
            f.no_duplicates(),
            forall|k: usize|
                k < self.entries.len() && (#[trigger] self.entries@[k as int]).data is Some
                    ==> o.contains(k),
        ensures
            self.wf(),
            self.keys() == o,
            self.free_keys() == f,
    {
        self.lemma_order_unique(self.keys(), o);
        self.lemma_free_unique(self.free_keys(), f);
    }

    /// A key in use holds an element; a free key does not.
    proof fn lemma_keys_facts(self)
        requires
            self.wf(),
        ensures
            forall|i: int|
                0 <= i < self.keys().len() ==> #[trigger] self.keys()[i] < self.entries.len()
                    && self.entries@[self.keys()[i] as int].data is Some,
            forall|i: int|
                0 <= i < self.free_keys().len() ==> #[trigger] self.free_keys()[i]
                    < self.entries.len() && self.entries@[self.free_keys()[i] as int].data is None,
    {
        assert forall|i: int| 0 <= i < self.keys().len() implies #[trigger] self.keys()[i]
            < self.entries.len() && self.entries@[self.keys()[i] as int].data is Some by {
            assert(self.order_link(self.keys(), i));
        }
        assert forall|i: int| 0 <= i < self.free_keys().len() implies #[trigger] self.free_keys()[i]
            < self.entries.len() && self.entries@[self.free_keys()[i] as int].data is None by {
            assert(self.free_link(self.free_keys(), i));
        }
    }

    /// No key is on the list twice, and the keys that hold an element are
    /// those on the list.
    pub proof fn lemma_keys_values(self)
        requires
            self.wf(),
        ensures
            self.keys().no_duplicates(),
            forall|k: usize| #[trigger] self.values().dom().contains(k) <==> self.keys().contains(k),
    {
    }

    /// The element count is the number of keys that hold an element: `len`
    /// counts exactly the keys for which `contains` holds.
    pub proof fn lemma_len_counts_elements(self)
        requires
            self.wf(),
        ensures
            self.values().dom() == self.keys().to_set(),
            self.values().dom().finite(),
            self.values().dom().len() == self.keys().len(),
    {
        self.lemma_keys_values();
        assert(self.values().dom() =~= self.keys().to_set());
        self.keys().unique_seq_to_set();
        vstd::seq_lib::seq_to_set_is_finite(self.keys());
    }

    /// Creates an empty container.
    pub fn new() -> (s: Slots<T>)
        ensures
            s.wf(),
            s.keys() == Seq::<usize>::empty(),
            s.free_keys() == Seq::<usize>::empty(),
            s.slot_count() == 0,
    {
        Slots::with_capacity(0)
    }

    /// Creates an empty container with room for `capacity` elements.
    pub fn with_capacity(capacity: usize) -> (s: Slots<T>)
        ensures
            s.wf(),
            s.keys() == Seq::<usize>::empty(),
            s.free_keys() == Seq::<usize>::empty(),
            s.slot_count() == 0,
    {
        let s = Slots { entries: Vec::with_capacity(capacity), head: NULL, tail: NULL, next: 0, len: 0 };
        proof {
            s.lemma_wf_from(Seq::empty(), Seq::empty());
        }
        s
    }

    /// The number of elements.
    pub fn len(&self) -> (r: usize)
        requires
            self.wf(),
        ensures
            r == self.keys().len(),
    {
        self.len
    }

    /// The key that the next insertion takes: the most recently freed slot, or
    /// a new one at the end.
    pub fn next_key(&self) -> (r: usize)
        requires
            self.wf(),
        ensures
            r == self.next_key_spec(),
    {
        self.next
    }

    /// Empties the container, forgetting every slot.
    pub fn clear(&mut self)
        ensures
            final(self).wf(),
            final(self).keys() == Seq::<usize>::empty(),
            final(self).free_keys() == Seq::<usize>::empty(),
            final(self).slot_count() == 0,
    {
        self.entries.clear();
        self.len = 0;
        self.head = NULL;
        self.tail = NULL;
        self.next = 0;
        proof {
            self.lemma_wf_from(Seq::empty(), Seq::empty());
        }
    }

    /// Appends an element at the end of the list and returns its key.
    pub fn push_back(&mut self, val: T) -> (key: usize)
        requires
            old(self).wf(),
            old(self).slot_count() + 1 < usize::MAX,
        ensures
            final(self).wf(),
            key == old(self).next_key_spec(),
            final(self).keys() == old(self).keys().push(key),
            final(self).values() == old(self).values().insert(key, val),
            old(self).free_keys().len() == 0 ==> final(self).free_keys() == old(self).free_keys()
                && final(self).slot_count() == old(self).slot_count() + 1,
            old(self).free_keys().len() > 0 ==> final(self).free_keys() == old(self).free_keys().drop_first()
                && final(self).slot_count() == old(self).slot_count(),
    {
        let ghost o = self.keys();
        let ghost f = self.free_keys();
        let ghost old_self = *self;
        proof {
            self.lemma_keys_facts();
        }
        let key = self.next;
        let tail = self.tail;
        self.len = self.len + 1;
        if key == self.entries.len() {
            self.next = key + 1;
            self.entries.push(Entry::new(val, tail, NULL));
        } else {
            proof {
                assert(old_self.free_link(f, 0));
            }
            self.next = self.entries[key].next;
            self.entries[key].prev = tail;
            self.entries[key].next = NULL;
            self.entries[key].data = Some(val);
        }
        if tail < self.entries.len() {
            self.entries[tail].next = key;
        } else {
            self.head = key;
        }
        self.tail = key;
        proof {
            let o2 = o.push(key);
            let f2 = if f.len() == 0 {
                f
            } else {
                f.drop_first()
            };
            assert(!o.contains(key)) by {
                if o.contains(key) {
                    let j = o.index_of(key);
                    assert(old_self.order_link(o, j));
                    if f.len() > 0 {
                        assert(old_self.free_link(f, 0));
                    }
                }
            }
            assert(o.len() > 0 ==> tail == o[o.len() - 1] && tail < old_self.entries.len());
            assert(o.len() == 0 ==> tail == NULL);
            assert forall|i: int| 0 <= i < o2.len() implies #[trigger] self.order_link(o2, i) by {
                if i < o.len() {
                    assert(old_self.order_link(o, i));
                    assert(o[i] != key);
                } else {
                    if o.len() > 0 {
                        assert(old_self.order_link(o, o.len() - 1));
                    }
                }
            }
            assert forall|i: int| 0 <= i < f2.len() implies #[trigger] self.free_link(f2, i) by {
                assert(old_self.free_link(f, i + 1));
                assert(f[i + 1] != f[0]);
                if o.len() > 0 {
                    assert(old_self.order_link(o, o.len() - 1));
                }
            }
            if f.len() > 0 {
                assert(old_self.free_link(f, 0));
                if f.len() > 1 {
                    assert(old_self.free_link(f, 1));
                }
            }
            assert forall|k: usize|
                k < self.entries.len() && (#[trigger] self.entries@[k as int]).data is Some implies o2.contains(
                k,
            ) by {
                if k != key {
                    assert(old_self.entries@[k as int].data is Some);
                    assert(o.contains(k));
                    let j = o.index_of(k);
                    assert(o2[j] == k);
                } else {
                    assert(o2[o.len() as int] == key);
                }
            }
            assert(f2.no_duplicates()) by {
                assert forall|a: int, b: int| 0 <= a < b < f2.len() implies f2[a] != f2[b] by {
                    assert(f2[a] == f[a + 1] && f2[b] == f[b + 1]);
                }
            }
            self.lemma_wf_from(o2, f2);
            assert(self.values() =~= old_self.values().insert(key, val)) by {
                assert forall|k: usize| #[trigger] o2.contains(k) <==> (o.contains(k) || k == key) by {
                    if o2.contains(k) && k != key {
                        let j = o2.index_of(k);
                        assert(o[j] == k);
                    }
                    if o.contains(k) {
                        let j = o.index_of(k);
                        assert(o2[j] == k);
                    }
                    if k == key {
                        assert(o2[o.len() as int] == key);
                    }
                }
                assert forall|k: usize| #[trigger] o.contains(k) && k != key implies self.entries@[k as int].data
                    == old_self.entries@[k as int].data by {
                    let j = o.index_of(k);
                    assert(old_self.order_link(o, j));
                }
            }
        }
        key
    }

    /// Takes the first element off the list, freeing its slot.
    pub fn pop_front(&mut self) -> (r: Option<T>)
        requires
            old(self).wf(),
        ensures
            final(self).wf(),
            old(self).keys().len() == 0 ==> r is None && final(self).keys() == old(self).keys()
                && final(self).values() == old(self).values() && final(self).free_keys()
                == old(self).free_keys() && final(self).slot_count() == old(self).slot_count(),
            old(self).keys().len() > 0 ==> {
                let k = old(self).keys()[0];
                &&& r == Some(old(self).values()[k])
                &&& final(self).keys() == old(self).keys().drop_first()
                &&& final(self).values() == old(self).values().remove(k)
                &&& final(self).free_keys() == seq![k] + old(self).free_keys()
                &&& final(self).slot_count() == old(self).slot_count()
            },
    {
        let ghost o = self.keys();
        let ghost f = self.free_keys();
        let ghost old_self = *self;
        proof {
            self.lemma_keys_facts();
        }
        let curr = self.head;
        if curr < self.entries.len() {
            proof {
                assert(old_self.order_link(o, 0));
                if o.len() > 1 {
                    assert(old_self.order_link(o, 1));
                }
            }
            let new_head = self.entries[curr].next;
            self.head = new_head;
            let free_next = self.next;
            self.entries[curr].prev = NULL;
            self.entries[curr].next = free_next;
            let val = self.entries[curr].data.take();
            if new_head < self.entries.len() {
                self.entries[new_head].prev = NULL;
            } else {
                self.tail = NULL;
            }
            self.len = self.len - 1;
            self.next = curr;
            proof {
                let o2 = o.drop_first();
                let f2 = seq![curr] + f;
                assert forall|i: int| 0 <= i < o2.len() implies #[trigger] self.order_link(o2, i) by {
                    assert(old_self.order_link(o, i + 1));
                    assert(o[i + 1] != o[0]);
                }
                assert forall|i: int| 0 <= i < f2.len() implies #[trigger] self.free_link(f2, i) by {
                    if i > 0 {
                        assert(old_self.free_link(f, i - 1));
                        assert(f[i - 1] != curr);
                        if o.len() > 1 {
                            assert(f[i - 1] != o[1]);
                        }
                    } else if f.len() > 0 {
                        assert(old_self.free_link(f, 0));
                    }
                }
                assert forall|k: usize|
                    k < self.entries.len() && (#[trigger] self.entries@[k as int]).data is Some implies o2.contains(
                    k,
                ) by {
                    assert(k != curr);
                    assert(old_self.entries@[k as int].data is Some);
                    let j = o.index_of(k);
                    assert(j != 0);
                    assert(o2[j - 1] == k);
                }
                assert(o2.no_duplicates());
                assert(f2.no_duplicates()) by {
                    assert forall|a: int, b: int| 0 <= a < b < f2.len() implies f2[a] != f2[b] by {
                        if a == 0 {
                            assert(old_self.free_link(f, b - 1));
                        }
                    }
                }
                self.lemma_wf_from(o2, f2);
                assert(self.values() =~= old_self.values().remove(curr)) by {
                    assert forall|k: usize| #[trigger] o2.contains(k) <==> (o.contains(k) && k != curr) by {
                        if o2.contains(k) {
                            let j = o2.index_of(k);
                            assert(o[j + 1] == k);
                        }
                        if o.contains(k) && k != curr {
                            let j = o.index_of(k);
                            assert(o2[j - 1] == k);
                        }
                    }
                    assert forall|k: usize| #[trigger] o2.contains(k) implies self.entries@[k as int].data
                        == old_self.entries@[k as int].data by {
                        let j = o2.index_of(k);
                        assert(old_self.order_link(o, j + 1));
                    }
                }
            }
            return val;
        }
        proof {
            if o.len() > 0 {
                assert(old_self.order_link(o, 0));
            }
        }
        None
    }

    /// Removes the element under `key`, freeing its slot; fails when the key is
    /// not in use.
    #[verifier::rlimit(60)]
    #[verifier::spinoff_prover]
    pub fn remove(&mut self, key: usize) -> (r: Result<T, SlotsError>)
        requires
            old(self).wf(),
        ensures
            final(self).wf(),
            r is Ok <==> old(self).values().dom().contains(key),
            r is Err ==> final(self).keys() == old(self).keys() && final(self).values()
                == old(self).values() && final(self).free_keys() == old(self).free_keys()
                && final(self).slot_count() == old(self).slot_count(),
            r is Ok ==> {
                &&& r == Ok::<T, SlotsError>(old(self).values()[key])
                &&& final(self).keys() == old(self).keys().remove(old(self).keys().index_of(key))
                &&& final(self).values() == old(self).values().remove(key)
                &&& final(self).free_keys() == seq![key] + old(self).free_keys()
                &&& final(self).slot_count() == old(self).slot_count()
            },
    {
        let ghost o = self.keys();
        let ghost f = self.free_keys();
        let ghost old_self = *self;
        proof {
            self.lemma_keys_facts();
        }
        if key < self.entries.len() {
            if self.entries[key].data.is_some() {
                let ghost j = o.index_of(key);
                proof {
                    assert(o.contains(key));
                    assert(old_self.order_link(o, j));
                    if j > 0 {
                        assert(old_self.order_link(o, j - 1));
                    }
                    if j + 1 < o.len() {
                        assert(old_self.order_link(o, j + 1));
                    }
                }
                let val = self.entries[key].data.take();
                let prev = self.entries[key].prev;
                let next = self.entries[key].next;
                let free_next = self.next;
                self.entries[key].prev = NULL;
                self.entries[key].next = free_next;
                if prev < self.entries.len() {
                    self.entries[prev].next = next;
                } else {
                    self.head = next;
                }
                if next < self.entries.len() {
                    self.entries[next].prev = prev;
                } else {
                    self.tail = prev;
                }
                self.len = self.len - 1;
                self.next = key;
                proof {
                    let o2 = o.remove(j);
                    let f2 = seq![key] + f;
                    assert forall|i: int| 0 <= i < o2.len() implies #[trigger] self.order_link(o2, i) by {
                        if i < j {
                            assert(old_self.order_link(o, i));
                            assert(o[i] != key);
                            if i + 1 == j {
                            } else {
                                assert(o2[i + 1] == o[i + 1]);
                            }
                            if i > 0 {
                                assert(o2[i - 1] == o[i - 1]);
                            }
                            if j + 1 < o.len() {
                                assert(o[i] != o[j + 1]);
                            }
                        } else {
                            assert(old_self.order_link(o, i + 1));
                            assert(o[i + 1] != key);
                            if j > 0 {
                                assert(o[i + 1] != o[j - 1]);
                            }
                        }
                    }
                    assert forall|i: int| 0 <= i < f2.len() implies #[trigger] self.free_link(f2, i) by {
                        if i > 0 {
                            assert(old_self.free_link(f, i - 1));
                            assert(f[i - 1] != key);
                            if j > 0 {
                                assert(f[i - 1] != o[j - 1]);
                            }
                            if j + 1 < o.len() {
                                assert(f[i - 1] != o[j + 1]);
                            }
                        } else if f.len() > 0 {
                            assert(old_self.free_link(f, 0));
                        }
                    }
                    assert forall|k: usize|
                        k < self.entries.len() && (#[trigger] self.entries@[k as int]).data is Some implies o2.contains(
                        k,
                    ) by {
                        assert(k != key);
                        assert(old_self.entries@[k as int].data is Some);
                        let i = o.index_of(k);
                        if i < j {
                            assert(o2[i] == k);
                        } else {
                            assert(i != j);
                            assert(o2[i - 1] == k);
                        }
                    }
                    assert(o2.no_duplicates()) by {
                        assert forall|a: int, b: int| 0 <= a < b < o2.len() implies o2[a] != o2[b] by {
                            let a1 = if a < j { a } else { a + 1 };
                            let b1 = if b < j { b } else { b + 1 };
                            assert(o2[a] == o[a1] && o2[b] == o[b1]);
                        }
                    }
                    assert(f2.no_duplicates()) by {
                        assert forall|a: int, b: int| 0 <= a < b < f2.len() implies f2[a] != f2[b] by {
                            if a == 0 {
                                assert(old_self.free_link(f, b - 1));
                            }
                        }
                    }
                    self.lemma_wf_from(o2, f2);
                    assert(self.values() =~= old_self.values().remove(key)) by {
                        assert forall|k: usize| #[trigger] o2.contains(k) <==> (o.contains(k) && k != key) by {
                            if o2.contains(k) {
                                let i = o2.index_of(k);
                                if i < j {
                                    assert(o[i] == k);
                                } else {
                                    assert(o[i + 1] == k);
                                }
                            }
                            if o.contains(k) && k != key {
                                let i = o.index_of(k);
                                if i < j {
                                    assert(o2[i] == k);
                                } else {
                                    assert(o2[i - 1] == k);
                                }
                            }
                        }
                        assert forall|k: usize| #[trigger] o2.contains(k) implies self.entries@[k as int].data
                            == old_self.entries@[k as int].data by {
                            let i = o.index_of(k);
                            assert(old_self.order_link(o, i));
                        }
                    }
                }
                return Ok(val.unwrap());
            }
        }
        proof {
            if o.contains(key) {
                let j = o.index_of(key);
                assert(old_self.order_link(o, j));
            }
        }
        Err(SlotsError)
    }

    /// The element under `key`, if the key is in use.
    pub fn get(&self, key: usize) -> (r: Option<&T>)
        requires
            self.wf(),
        ensures
            r is Some <==> self.values().dom().contains(key),
            r matches Some(v) ==> *v == self.values()[key],
    {
        proof {
            self.lemma_keys_facts();
            if self.keys().contains(key) {
                let j = self.keys().index_of(key);
                assert(self.order_link(self.keys(), j));
            }
        }
        if key < self.entries.len() {
            match self.entries[key].data.as_ref() {
                Some(val) => Some(val),
                None => None,
            }
        } else {
            None
        }
    }

    /// The element under `key`, to be changed in place, if the key is in use.
    pub fn get_mut(&mut self, key: usize) -> (r: Option<&mut T>)
        requires
            old(self).wf(),
        ensures
            r is Some <==> old(self).values().dom().contains(key),
            r matches Some(v) ==> *v == old(self).values()[key] && final(self).values()
                == old(self).values().insert(key, *final(v)),
            r is None ==> final(self).values() == old(self).values(),
            final(self).wf(),
            final(self).keys() == old(self).keys(),
            final(self).free_keys() == old(self).free_keys(),
            final(self).slot_count() == old(self).slot_count(),
    {
        let ghost old_self = *self;
        proof {
            self.lemma_keys_facts();
            if self.keys().contains(key) {
                let j = self.keys().index_of(key);
                assert(self.order_link(self.keys(), j));
            }
        }
        if key < self.entries.len() {
            proof {
                old_self.lemma_replace_data_all(key);
            }
            self.entries[key].data.as_mut()
        } else {
            None
        }
    }

    /// Changing the element held under a key in use changes nothing else.
    proof fn lemma_replace_data(self, other: Self, key: usize)
        requires
            self.wf(),
            key < self.entries.len(),
            self.same_but_data(other, key),
        ensures
            other.wf(),
            other.keys() == self.keys(),
            other.free_keys() == self.free_keys(),
            self.keys().contains(key) ==> other.values() == self.values().insert(key, other.entries@[key as int].data->0),
            !self.keys().contains(key) ==> other.values() == self.values(),
    {
        let o = self.keys();
        let f = self.free_keys();
        assert forall|i: int| 0 <= i < o.len() implies #[trigger] other.order_link(o, i) by {
            assert(self.order_link(o, i));
        }
        assert forall|i: int| 0 <= i < f.len() implies #[trigger] other.free_link(f, i) by {
            assert(self.free_link(f, i));
        }
        assert forall|k: usize|
            k < other.entries.len() && (#[trigger] other.entries@[k as int]).data is Some implies o.contains(k) by {
            assert(self.entries@[k as int].data is Some);
        }
        other.lemma_wf_from(o, f);
        assert forall|k: usize| #[trigger] o.contains(k) && k != key implies other.entries@[k as int] == self.entries@[k as int] by {
            let i = o.index_of(k);
            assert(self.order_link(o, i));
        }
        if self.keys().contains(key) {
            assert(other.values() =~= self.values().insert(key, other.entries@[key as int].data->0));
        } else {
            assert(other.values() =~= self.values());
        }
    }

    /// `other` is `self` with at most the element under `key` changed.
    spec fn same_but_data(self, other: Self, key: usize) -> bool {
        &&& other.entries.len() == self.entries.len()
        &&& other.len == self.len
        &&& other.head == self.head
        &&& other.tail == self.tail
        &&& other.next == self.next
        &&& forall|k: int|
            0 <= k < self.entries.len() && k != key ==> other.entries@[k] == self.entries@[k]
        &&& other.entries@[key as int].prev == self.entries@[key as int].prev
        &&& other.entries@[key as int].next == self.entries@[key as int].next
        &&& (other.entries@[key as int].data is Some <==> self.entries@[key as int].data is Some)
    }

    proof fn lemma_replace_data_all(self, key: usize)
        requires
            self.wf(),
            key < self.entries.len(),
        ensures
            forall|other: Self|
                #![trigger other.wf()]
                #![trigger other.keys()]
                #![trigger other.free_keys()]
                #![trigger other.values()]
                #![trigger other.slot_count()]
                self.same_but_data(other, key) ==> other.wf()
                && other.keys() == self.keys() && other.free_keys() == self.free_keys()
                && other.slot_count() == self.slot_count()
                && (self.keys().contains(key) ==> other.values() == self.values().insert(key, other.entries@[key as int].data->0))
                && (!self.keys().contains(key) ==> other.values() == self.values()),
    {
        assert forall|other: Self| self.same_but_data(other, key) implies other.wf()
                && other.keys() == self.keys() && other.free_keys() == self.free_keys()
                && other.slot_count() == self.slot_count()
                && (self.keys().contains(key) ==> other.values() == self.values().insert(key, other.entries@[key as int].data->0))
                && (!self.keys().contains(key) ==> other.values() == self.values()) by {
            self.lemma_replace_data(other, key);
        }
    }

    /// Whether `key` is in use.
    pub fn contains(&self, key: usize) -> (r: bool)
        requires
            self.wf(),
        ensures
            r == self.values().dom().contains(key),
    {
        proof {
            self.lemma_keys_facts();
            if self.keys().contains(key) {
                let j = self.keys().index_of(key);
                assert(self.order_link(self.keys(), j));
            }
        }
        if key < self.entries.len() {
            self.entries[key].data.is_some()
        } else {
            false
        }
    }

    /// A walk over the elements in list order.
    pub fn iter(&self) -> (it: SlotsIter<'_, T>)
        requires
            self.wf(),
        ensures
            it.wf(),
            it.remaining() == self.keys(),
            forall|k: usize| #[trigger] self.keys().contains(k) ==> it.value_at(k) == self.values()[k],
    {
        let it = SlotsIter { entries: &self.entries, len: self.len, head: self.head };
        proof {
            let o = self.keys();
            assert forall|i: int| 0 <= i < o.len() implies #[trigger] it.rest_link(o, i) by {
                assert(self.order_link(o, i));
            }
            assert(it.is_rest(o));
            it.lemma_rest_unique(it.remaining(), o);
        }
        it
    }

    /// The number of elements the container can hold before it needs more memory.
    pub fn capacity(&self) -> (r: usize)
        ensures
            r >= self.slot_count(),
    {
        vec_capacity(&self.entries)
    }

    /// Whether the container holds no element.
    pub fn is_empty(&self) -> (r: bool)
        requires
            self.wf(),
        ensures
            r == (self.keys().len() == 0),
    {
        self.len == 0
    }
}

impl<T> Default for Slots<T> {
    fn default() -> (s: Slots<T>)
        ensures
            s.wf(),
            s.keys() == Seq::<usize>::empty(),
            s.free_keys() == Seq::<usize>::empty(),
            s.slot_count() == 0,
    {
        Slots::new()
    }
}

/// `Vec::capacity`: what the vector can hold without reallocating, which std
/// documents as never less than its length. The exact amount is the allocator's
/// choice and is not stated.
#[verifier::external_body]
fn vec_capacity<T>(v: &Vec<T>) -> (r: usize)
    ensures
        r >= v.len(),
{
    v.capacity()
}

} // verus!
