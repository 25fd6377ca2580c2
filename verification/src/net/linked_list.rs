//! A list of values in the order they were added, each reachable by the key
//! it was given when added.
use vstd::prelude::*;

verus! {

/// One entry of a list: its key and value.
pub struct Node<T> {
    key: u64,
    val: T,
}

/// Values in the order they were added; each has a key, never given twice.
pub struct LinkedList<T> {
    nodes: Vec<Node<T>>,
    next_key: u64,
}

impl<T> LinkedList<T> {
    /// The keys, oldest first.
    pub closed spec fn keys(self) -> Seq<u64> {
        self.nodes@.map_values(|n: Node<T>| n.key)
    }

    /// The values, oldest first.
    pub closed spec fn values(self) -> Seq<T> {
        self.nodes@.map_values(|n: Node<T>| n.val)
    }

    /// The position of key `k`, when the list holds it.
    pub open spec fn index_of_key(self, k: u64) -> int {
        choose|i: int| 0 <= i < self.keys().len() && self.keys()[i] == k
    }

    /// The key that the next value gets.
    pub closed spec fn next_key(self) -> u64 {
        self.next_key
    }

    /// The keys rise from oldest to newest, and all lie below the next key.
    pub closed spec fn wf(self) -> bool {
        &&& forall|i: int, j: int| 0 <= i < j < self.nodes@.len() ==> self.nodes@[i].key < self.nodes@[j].key
        &&& forall|i: int| 0 <= i < self.nodes@.len() ==> #[trigger] self.nodes@[i].key < self.next_key
    }

    /// An empty list.
    pub fn new() -> (l: LinkedList<T>)
        ensures
            l.wf(),
            l.keys() == Seq::<u64>::empty(),
            l.values() == Seq::<T>::empty(),
            l.next_key() == 0,
    {
        let l = LinkedList { nodes: Vec::new(), next_key: 0 };
        proof {
            assert(l.keys() =~= Seq::<u64>::empty());
            assert(l.values() =~= Seq::<T>::empty());
        }
        l
    }

    /// The number of values.
    pub fn len(&self) -> (r: usize)
        ensures
            r == self.values().len(),
            r == self.keys().len(),
    {
        self.nodes.len()
    }

    /// Adds `val` at the end and gives back its key.
    pub fn add_item(&mut self, val: T) -> (key: u64)
        requires
            old(self).wf(),
            old(self).next_key() < u64::MAX,
        ensures
            final(self).wf(),
            key == old(self).next_key(),
            final(self).next_key() == key + 1,
            final(self).keys() == old(self).keys().push(key),
            final(self).values() == old(self).values().push(val),
    {
        let key = self.next_key;
        self.nodes.push(Node { key, val });
        self.next_key = self.next_key + 1;
        proof {
            assert(self.keys() =~= old(self).keys().push(key));
            assert(self.values() =~= old(self).values().push(val));
        }
        key
    }

    /// The position of the value with key `key`.
    pub fn position(&self, key: u64) -> (r: Option<usize>)
        requires
            self.wf(),
        ensures
            r is None <==> !self.keys().contains(key),
            r matches Some(i) ==> i < self.keys().len() && i < self.values().len() && self.keys()[i as int]
                == key,
    {
        let mut i: usize = 0;
        while i < self.nodes.len()
            invariant
                i <= self.nodes@.len(),
                forall|j: int| 0 <= j < i ==> self.nodes@[j].key != key,
            decreases self.nodes@.len() - i,
        {
            if self.nodes[i].key == key {
                proof {
                    assert(self.keys()[i as int] == key);
                }
                return Some(i);
            }
            i = i + 1;
        }
        proof {
            if self.keys().contains(key) {
                let j = choose|j: int| 0 <= j < self.keys().len() && self.keys()[j] == key;
                assert(self.nodes@[j].key == key);
            }
        }
        None
    }

    /// Takes out the value with key `key`, if there is one.
    pub fn remove_node(&mut self, key: u64) -> (r: Option<T>)
        requires
            old(self).wf(),
        ensures
            final(self).wf(),
            final(self).next_key() == old(self).next_key(),
            r is None <==> !old(self).keys().contains(key),
            r is None ==> final(self).keys() == old(self).keys() && final(self).values() == old(self).values(),
            r matches Some(v) ==> {
                let i = old(self).index_of_key(key);
                &&& 0 <= i < old(self).keys().len()
                &&& old(self).keys()[i] == key
                &&& v == old(self).values()[i]
                &&& final(self).keys() == old(self).keys().remove(i)
                &&& final(self).values() == old(self).values().remove(i)
            },
    {
        match self.position(key) {
            Some(i) => {
                proof {
                    self.lemma_keys_distinct();
                    let c = self.index_of_key(key);
                    assert(self.keys()[c] == key);
                    assert(c == i);
                }
                let node = self.nodes.remove(i);
                proof {
                    assert(self.keys() =~= old(self).keys().remove(i as int));
                    assert(self.values() =~= old(self).values().remove(i as int));
                    assert forall|a: int, b: int| 0 <= a < b < self.nodes@.len() implies self.nodes@[a].key
                        < self.nodes@[b].key by {
                        let oa = if a < i { a } else { a + 1 };
                        let ob = if b < i { b } else { b + 1 };
                        assert(self.nodes@[a] == old(self).nodes@[oa]);
                        assert(self.nodes@[b] == old(self).nodes@[ob]);
                    }
                    assert forall|a: int| 0 <= a < self.nodes@.len() implies #[trigger] self.nodes@[a].key
                        < self.next_key by {
                        let oa = if a < i { a } else { a + 1 };
                        assert(self.nodes@[a] == old(self).nodes@[oa]);
                    }
                }
                Some(node.val)
            },
            None => None,
        }
    }

    /// The value at position `i`.
    pub fn get_at(&self, i: usize) -> (r: &T)
        requires
            i < self.values().len(),
        ensures
            *r == self.values()[i as int],
    {
        &self.nodes[i].val
    }

    /// Puts `val` at position `i` in place of the value there, which is
    /// given back.
    pub fn replace_at(&mut self, i: usize, val: T) -> (prev: T)
        requires
            old(self).wf(),
            i < old(self).values().len(),
        ensures
            final(self).wf(),
            final(self).next_key() == old(self).next_key(),
            final(self).keys() == old(self).keys(),
            final(self).values() == old(self).values().update(i as int, val),
            prev == old(self).values()[i as int],
    {
        let mut prev = val;
        std::mem::swap(&mut self.nodes[i].val, &mut prev);
        proof {
            assert(self.keys() =~= old(self).keys());
            assert(self.values() =~= old(self).values().update(i as int, self.nodes@[i as int].val));
        }
        prev
    }

    /// No key occurs twice.
    pub proof fn lemma_keys_distinct(self)
        requires
            self.wf(),
        ensures
            self.keys().no_duplicates(),
            self.keys().len() == self.values().len(),
    {
        assert forall|i: int, j: int| 0 <= i < self.keys().len() && 0 <= j < self.keys().len() && i != j implies self.keys()[i]
            != self.keys()[j] by {
            if i < j {
                assert(self.nodes@[i].key < self.nodes@[j].key);
            } else {
                assert(self.nodes@[j].key < self.nodes@[i].key);
            }
        }
    }
}

} // verus!
