//! The list of tasks waiting on a primitive, each known by the id of its waker.
use crate::util::slots::Slots;
use vstd::prelude::*;

verus! {

/// Waiters in the order in which they arrived. Each waiter is known by the id
/// of its waker, and is registered under a key by which it can leave.
pub struct WakerList {
    waiters: Slots<u64>,
}

impl WakerList {
    /// The list is consistent.
    pub closed spec fn wf(self) -> bool {
        self.waiters.wf()
    }

    /// The keys of the waiters, first come first.
    pub closed spec fn keys(self) -> Seq<usize> {
        self.waiters.keys()
    }

    /// The waker id registered under each key.
    pub closed spec fn ids(self) -> Map<usize, u64> {
        self.waiters.values()
    }

    /// The waker ids of the waiters, first come first.
    pub open spec fn waiting(self) -> Seq<u64> {
        self.keys().map_values(|k: usize| self.ids()[k])
    }

    /// The number of keys ever handed out, free or in use.
    pub closed spec fn slot_count(self) -> nat {
        self.waiters.slot_count()
    }

    /// An empty list.
    pub fn new() -> (l: WakerList)
        ensures
            l.wf(),
            l.keys() == Seq::<usize>::empty(),
            l.slot_count() == 0,
    {
        WakerList { waiters: Slots::new() }
    }

    /// Registers a waiter at the end of the list; returns its key.
    pub fn insert(&mut self, id: u64) -> (key: usize)
        requires
            old(self).wf(),
            old(self).slot_count() + 1 < usize::MAX,
        ensures
            final(self).wf(),
            !old(self).keys().contains(key),
            final(self).keys() == old(self).keys().push(key),
            final(self).ids() == old(self).ids().insert(key, id),
            final(self).slot_count() <= old(self).slot_count() + 1,
    {
        proof {
            self.waiters.lemma_keys_values();
        }
        let key = self.waiters.push_back(id);
        proof {
            self.waiters.lemma_keys_values();
            assert(!old(self).keys().contains(key)) by {
                if old(self).keys().contains(key) {
                    let j = old(self).keys().index_of(key);
                    assert(self.keys()[j] == key);
                    assert(self.keys()[old(self).keys().len() as int] == key);
                }
            }
        }
        key
    }

    /// Takes the waiter under `key` off the list; returns whether it was there.
    pub fn remove(&mut self, key: usize) -> (r: bool)
        requires
            old(self).wf(),
        ensures
            final(self).wf(),
            r == old(self).keys().contains(key),
            r ==> final(self).keys() == old(self).keys().remove(old(self).keys().index_of(key)),
            r ==> final(self).ids() == old(self).ids().remove(key),
            !r ==> final(self).keys() == old(self).keys() && final(self).ids() == old(self).ids(),
            final(self).slot_count() == old(self).slot_count(),
    {
        proof {
            self.waiters.lemma_keys_values();
        }
        self.waiters.remove(key).is_ok()
    }

    /// Takes the first waiter off the list; returns its waker id, or `None` when
    /// nobody waits.
    pub fn notify_one(&mut self) -> (r: Option<u64>)
        requires
            old(self).wf(),
        ensures
            final(self).wf(),
            final(self).slot_count() == old(self).slot_count(),
            old(self).keys().len() == 0 ==> r is None && final(self).keys() == old(self).keys(),
            old(self).keys().len() > 0 ==> r == Some(old(self).waiting()[0])
                && final(self).keys() == old(self).keys().drop_first()
                && final(self).waiting() == old(self).waiting().drop_first(),
    {
        proof {
            self.waiters.lemma_keys_values();
        }
        let r = self.waiters.pop_front();
        proof {
            let o = old(self).keys();
            if o.len() > 0 {
                self.waiters.lemma_keys_values();
                assert(final(self).waiting() =~= old(self).waiting().drop_first()) by {
                    assert forall|i: int| 0 <= i < o.len() - 1 implies #[trigger] self.ids()[self.keys()[i]]
                        == old(self).ids()[o[i + 1]] by {
                        assert(self.keys()[i] == o[i + 1]);
                        assert(o[i + 1] != o[0]);
                    }
                }
            }
        }
        r
    }

    /// Takes every waiter off the list; returns their waker ids, first come
    /// first.
    pub fn notify_all(&mut self) -> (r: Vec<u64>)
        requires
            old(self).wf(),
        ensures
            final(self).wf(),
            r@ == old(self).waiting(),
            final(self).keys().len() == 0,
            final(self).slot_count() == old(self).slot_count(),
    {
        let mut out: Vec<u64> = Vec::new();
        let ghost all = self.waiting();
        loop
            invariant
                self.wf(),
                out@ + self.waiting() == all,
                all == old(self).waiting(),
                self.slot_count() == old(self).slot_count(),
            decreases self.keys().len(),
        {
            let ghost prev_w = self.waiting();
            let ghost prev_out = out@;
            let next = self.notify_one();
            match next {
                Some(id) => {
                    out.push(id);
                    proof {
                        assert(prev_w.len() > 0);
                        assert(out@ + self.waiting() =~= prev_out + prev_w);
                    }
                },
                None => {
                    proof {
                        assert(self.waiting() =~= Seq::<u64>::empty());
                        assert(out@ =~= all);
                    }
                    return out;
                },
            }
        }
    }

    /// The number of waiters.
    pub fn len(&self) -> (r: usize)
        requires
            self.wf(),
        ensures
            r == self.keys().len(),
    {
        self.waiters.len()
    }
}

} // verus!
