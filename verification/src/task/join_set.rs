//! The bookkeeping of a set of spawned tasks whose results are taken in the
//! order the tasks finish.
//!
//! Each task of the set is an entry, named by an integer. An entry waits in
//! the wait list until its task wakes it, which moves it to the done list;
//! the set is polled by taking entries off the front of the done list.
use crate::task::builder::TaskBuilder;
use std::collections::VecDeque;
use vstd::prelude::*;

verus! {

/// What a poll of the set has to do next.
#[derive(Debug, Clone, Copy, PartialEq, Eq, Structural)]
pub enum JoinNext {
    /// The set is empty: the poll is ready with nothing.
    Empty,
    /// Poll this entry's join handle, then end the poll with what it gave.
    Poll(u64),
    /// Nothing has finished yet.
    Pending,
}

/// A set of spawned tasks.
pub struct JoinSet {
    wait_list: Vec<u64>,
    done_list: VecDeque<u64>,
    in_done: Vec<u64>,
    waker: Option<u64>,
    len: usize,
    builder: TaskBuilder,
}

/// `s` without its first `x`, or `s` when it holds none.
pub open spec fn seq_without(s: Seq<u64>, x: u64) -> Seq<u64> {
    if s.contains(x) {
        s.remove(s.index_of(x))
    } else {
        s
    }
}

/// Whether `v` holds `x`.
fn contains_item(v: &Vec<u64>, x: u64) -> (r: bool)
    ensures
        r == v@.contains(x),
{
    let mut i: usize = 0;
    while i < v.len()
        invariant
            i <= v@.len(),
            forall|j: int| 0 <= j < i ==> v@[j] != x,
        decreases v@.len() - i,
    {
        if v[i] == x {
            return true;
        }
        i = i + 1;
    }
    false
}

/// Takes `x` out of `v`; whether it was there.
fn remove_item(v: &mut Vec<u64>, x: u64) -> (found: bool)
    requires
        old(v)@.no_duplicates(),
    ensures
        found == old(v)@.contains(x),
        final(v)@ == seq_without(old(v)@, x),
        final(v)@.no_duplicates(),
        !final(v)@.contains(x),
{
    let mut i: usize = 0;
    while i < v.len()
        invariant
            i <= v@.len(),
            v@ == old(v)@,
            old(v)@.no_duplicates(),
            forall|j: int| 0 <= j < i ==> v@[j] != x,
        decreases v@.len() - i,
    {
        if v[i] == x {
            proof {
                assert(v@[i as int] == x);
                assert(v@.contains(x));
                let k = v@.index_of(x);
                assert(0 <= k < v@.len() && v@[k] == x);
                if k != i {
                    assert(v@[k] != v@[i as int]);
                }
            }
            v.remove(i);
            proof {
                assert forall|a: int, b: int| 0 <= a < b < v@.len() implies v@[a] != v@[b] by {
                    let oa = if a < i { a } else { a + 1 };
                    let ob = if b < i { b } else { b + 1 };
                    assert(v@[a] == old(v)@[oa]);
                    assert(v@[b] == old(v)@[ob]);
                }
                assert forall|j: int| 0 <= j < v@.len() implies v@[j] != x by {
                    let oj = if j < i { j } else { j + 1 };
                    assert(v@[j] == old(v)@[oj]);
                }
            }
            return true;
        }
        i = i + 1;
    }
    false
}

impl JoinSet {
    /// The entries waiting for their tasks.
    pub closed spec fn wait(self) -> Seq<u64> {
        self.wait_list@
    }

    /// The entries whose tasks woke them, oldest first.
    pub closed spec fn done(self) -> Seq<u64> {
        self.done_list@
    }

    /// The entries marked as moved to the done list.
    pub closed spec fn flagged(self) -> Seq<u64> {
        self.in_done@
    }

    /// Whom to wake when an entry is done.
    pub closed spec fn spec_waker(self) -> Option<u64> {
        self.waker
    }

    /// The number of tasks whose results were not taken yet.
    pub closed spec fn spec_len(self) -> usize {
        self.len
    }

    /// The settings of the tasks that the set spawns.
    pub closed spec fn spec_builder(self) -> TaskBuilder {
        self.builder
    }

    /// No entry is listed twice, and no entry waits and is done at once.
    pub closed spec fn wf(self) -> bool {
        &&& self.wait_list@.no_duplicates()
        &&& self.in_done@.no_duplicates()
        &&& self.done_list@.no_duplicates()
        &&& forall|x: u64| self.wait_list@.contains(x) ==> !self.done_list@.contains(x)
    }

    /// An empty set, whose tasks get the default settings.
    pub fn new() -> (s: JoinSet)
        ensures
            s.wf(),
            s.wait().len() == 0,
            s.done().len() == 0,
            s.flagged().len() == 0,
            s.spec_waker() is None,
            s.spec_len() == 0,
    {
        JoinSet {
            wait_list: Vec::new(),
            done_list: VecDeque::new(),
            in_done: Vec::new(),
            waker: None,
            len: 0,
            builder: TaskBuilder::new(),
        }
    }

    /// The settings of the tasks that the set spawns.
    pub fn builder(&self) -> (b: &TaskBuilder)
        ensures
            *b == self.spec_builder(),
    {
        &self.builder
    }

    /// Records a newly spawned task under `entry`: it waits.
    pub fn spawn(&mut self, entry: u64)
        requires
            old(self).wf(),
            old(self).spec_len() < usize::MAX,
            !old(self).wait().contains(entry),
            !old(self).done().contains(entry),
        ensures
            final(self).wf(),
            final(self).spec_len() == old(self).spec_len() + 1,
            final(self).wait() == old(self).wait().push(entry),
            final(self).done() == old(self).done(),
            final(self).flagged() == old(self).flagged(),
            final(self).spec_waker() == old(self).spec_waker(),
    {
        self.len = self.len + 1;
        self.wait_list.push(entry);
        proof {
            assert forall|a: int, b: int| 0 <= a < b < self.wait_list@.len() implies self.wait_list@[a]
                != self.wait_list@[b] by {
                if b == self.wait_list@.len() - 1 {
                    assert(old(self).wait_list@.contains(self.wait_list@[a]));
                }
            }
            assert forall|x: u64| self.wait_list@.contains(x) implies !self.done_list@.contains(x) by {
                if x != entry {
                    let k = choose|k: int| 0 <= k < self.wait_list@.len() && self.wait_list@[k] == x;
                    assert(old(self).wait_list@[k] == x);
                }
            }
        }
    }

    /// The task of `entry` woke it: unless it was moved already, it leaves
    /// the wait list for the end of the done list, and the set's waker is
    /// taken to be woken. Nothing moves when the entry was not waiting.
    pub fn wake_entry(&mut self, entry: u64) -> (wake: Option<u64>)
        requires
            old(self).wf(),
        ensures
            final(self).wf(),
            final(self).spec_len() == old(self).spec_len(),
            old(self).flagged().contains(entry) ==> wake is None && final(self).wait() == old(self).wait()
                && final(self).done() == old(self).done() && final(self).flagged() == old(self).flagged()
                && final(self).spec_waker() == old(self).spec_waker(),
            !old(self).flagged().contains(entry) ==> {
                &&& final(self).flagged() == old(self).flagged().push(entry)
                &&& final(self).wait() == seq_without(old(self).wait(), entry)
                &&& !old(self).wait().contains(entry) ==> wake is None && final(self).done() == old(self).done()
                    && final(self).spec_waker() == old(self).spec_waker()
                &&& old(self).wait().contains(entry) ==> wake == old(self).spec_waker() && final(self).done()
                    == old(self).done().push(entry) && final(self).spec_waker() is None
            },
    {
        if contains_item(&self.in_done, entry) {
            return None;
        }
        self.in_done.push(entry);
        proof {
            assert forall|a: int, b: int| 0 <= a < b < self.in_done@.len() implies self.in_done@[a]
                != self.in_done@[b] by {
                if b == self.in_done@.len() - 1 {
                    assert(old(self).in_done@.contains(self.in_done@[a]));
                }
            }
        }
        if !remove_item(&mut self.wait_list, entry) {
            return None;
        }
        self.done_list.push_back(entry);
        proof {
            assert forall|a: int, b: int| 0 <= a < b < self.done_list@.len() implies self.done_list@[a]
                != self.done_list@[b] by {
                if b == self.done_list@.len() - 1 {
                    assert(old(self).done_list@.contains(self.done_list@[a]));
                }
            }
            assert forall|x: u64| self.wait_list@.contains(x) implies !self.done_list@.contains(x) by {
                assert(x != entry);
                let k = choose|k: int| 0 <= k < self.wait_list@.len() && self.wait_list@[k] == x;
                let i = old(self).wait_list@.index_of(entry);
                let ok = if k < i { k } else { k + 1 };
                assert(old(self).wait_list@[ok] == x);
                assert(old(self).wait_list@.contains(x));
                assert(!old(self).done_list@.contains(x));
                if self.done_list@.contains(x) {
                    let d = choose|d: int| 0 <= d < self.done_list@.len() && self.done_list@[d] == x;
                    if d < old(self).done_list@.len() {
                        assert(old(self).done_list@[d] == x);
                    }
                }
            }
        }
        self.waker.take()
    }

    /// Begins a poll for the next finished task with `waker`: ready with
    /// nothing when no task is left; else `waker` becomes the set's waker,
    /// and the entry at the front of the done list, if any, is to be polled.
    pub fn poll_join_next_begin(&mut self, waker: u64) -> (r: JoinNext)
        requires
            old(self).wf(),
        ensures
            final(self).wf(),
            final(self).spec_len() == old(self).spec_len(),
            final(self).wait() == old(self).wait(),
            final(self).flagged() == old(self).flagged(),
            old(self).spec_len() == 0 ==> r == JoinNext::Empty && final(self).done() == old(self).done()
                && final(self).spec_waker() == old(self).spec_waker(),
            old(self).spec_len() != 0 ==> {
                &&& final(self).spec_waker() == Some(waker)
                &&& old(self).done().len() > 0 ==> r == JoinNext::Poll(old(self).done()[0]) && final(self).done()
                    == old(self).done().drop_first()
                &&& old(self).done().len() == 0 ==> r == JoinNext::Pending && final(self).done() == old(self).done()
            },
            r matches JoinNext::Poll(e) ==> !final(self).wait().contains(e) && !final(self).done().contains(e),
    {
        if self.len == 0 {
            return JoinNext::Empty;
        }
        let is_same_waker = match self.waker {
            None => false,
            Some(w) => w == waker,
        };
        if !is_same_waker {
            self.waker = Some(waker);
        }
        match self.done_list.pop_front() {
            Some(entry) => {
                proof {
                    assert(self.done_list@ =~= old(self).done_list@.drop_first());
                    assert forall|a: int, b: int| 0 <= a < b < self.done_list@.len() implies self.done_list@[a]
                        != self.done_list@[b] by {
                        assert(old(self).done_list@[a + 1] != old(self).done_list@[b + 1]);
                    }
                    assert forall|x: u64| self.wait_list@.contains(x) implies !self.done_list@.contains(x) by {
                        if self.done_list@.contains(x) {
                            let d = choose|d: int| 0 <= d < self.done_list@.len() && self.done_list@[d] == x;
                            assert(old(self).done_list@[d + 1] == x);
                            assert(old(self).done_list@.contains(x));
                            assert(old(self).wait_list@.contains(x));
                        }
                    }
                    assert(old(self).done_list@[0] == entry);
                    assert(old(self).done_list@.contains(entry));
                    if self.done_list@.contains(entry) {
                        let d = choose|d: int| 0 <= d < self.done_list@.len() && self.done_list@[d] == entry;
                        assert(old(self).done_list@[d + 1] == entry);
                    }
                }
                JoinNext::Poll(entry)
            },
            None => JoinNext::Pending,
        }
    }

    /// Ends a poll of `entry`, taken off the done list: when its join handle
    /// gave the result, one task fewer is left; else it waits again, unmarked,
    /// and the poll is pending (the caller wakes its own waker to poll again).
    pub fn poll_join_next_end(&mut self, entry: u64, ready: bool)
        requires
            old(self).wf(),
            ready ==> old(self).spec_len() > 0,
            !old(self).wait().contains(entry),
            !old(self).done().contains(entry),
        ensures
            final(self).wf(),
            final(self).done() == old(self).done(),
            final(self).spec_waker() == old(self).spec_waker(),
            ready ==> final(self).spec_len() == old(self).spec_len() - 1 && final(self).wait() == old(self).wait()
                && final(self).flagged() == old(self).flagged(),
            !ready ==> final(self).spec_len() == old(self).spec_len() && final(self).wait() == old(self).wait().push(
                entry,
            ) && final(self).flagged() == seq_without(old(self).flagged(), entry),
    {
        if ready {
            self.len = self.len - 1;
        } else {
            let _ = remove_item(&mut self.in_done, entry);
            self.wait_list.push(entry);
            proof {
                assert forall|a: int, b: int| 0 <= a < b < self.wait_list@.len() implies self.wait_list@[a]
                    != self.wait_list@[b] by {
                    if b == self.wait_list@.len() - 1 {
                        assert(old(self).wait_list@.contains(self.wait_list@[a]));
                    }
                }
                assert forall|x: u64| self.wait_list@.contains(x) implies !self.done_list@.contains(x) by {
                    if x != entry {
                        let k = choose|k: int| 0 <= k < self.wait_list@.len() && self.wait_list@[k] == x;
                        assert(old(self).wait_list@[k] == x);
                    }
                }
            }
        }
    }

    /// The entries whose tasks are to be canceled: the done ones, then the
    /// waiting ones.
    pub fn cancel_all(&self) -> (r: Vec<u64>)
        ensures
            r@ == self.done() + self.wait(),
    {
        let mut r: Vec<u64> = Vec::new();
        let mut i: usize = 0;
        while i < self.done_list.len()
            invariant
                i <= self.done_list@.len(),
                r@ == self.done_list@.subrange(0, i as int),
            decreases self.done_list@.len() - i,
        {
            r.push(self.done_list[i]);
            proof {
                assert(r@ =~= self.done_list@.subrange(0, i + 1));
            }
            i = i + 1;
        }
        let mut j: usize = 0;
        while j < self.wait_list.len()
            invariant
                i == self.done_list@.len(),
                j <= self.wait_list@.len(),
                r@ == self.done_list@ + self.wait_list@.subrange(0, j as int),
            decreases self.wait_list@.len() - j,
        {
            proof {
                assert(self.done_list@.subrange(0, i as int) =~= self.done_list@);
            }
            r.push(self.wait_list[j]);
            proof {
                assert(r@ =~= self.done_list@ + self.wait_list@.subrange(0, j + 1));
            }
            j = j + 1;
        }
        proof {
            assert(self.done_list@.subrange(0, i as int) =~= self.done_list@);
            assert(self.wait_list@.subrange(0, j as int) =~= self.wait_list@);
        }
        r
    }

    /// Empties the set when it goes away: gives back the entries whose tasks
    /// are to be canceled and whose join handles are to be dropped.
    pub fn clear(&mut self) -> (r: Vec<u64>)
        requires
            old(self).wf(),
        ensures
            final(self).wf(),
            r@ == old(self).done() + old(self).wait(),
            final(self).done().len() == 0,
            final(self).wait().len() == 0,
            final(self).spec_len() == old(self).spec_len(),
            final(self).flagged() == old(self).flagged(),
            final(self).spec_waker() == old(self).spec_waker(),
    {
        let r = self.cancel_all();
        while self.done_list.pop_back().is_some()
            invariant
                self.wait_list@ == old(self).wait_list@,
                self.in_done@ == old(self).in_done@,
                self.done_list@.no_duplicates(),
                self.len == old(self).len,
                self.waker == old(self).waker,
            decreases self.done_list@.len(),
        {
            proof {
                assert forall|a: int, b: int| 0 <= a < b < self.done_list@.len() implies self.done_list@[a]
                    != self.done_list@[b] by {}
            }
        }
        self.wait_list.clear();
        r
    }

    /// A builder for a task of the set with settings of its own.
    pub fn build_task(&mut self) -> (b: TaskBuilder)
        ensures
            *final(self) == *old(self),
            b.name is None,
            b.pri is None,
            !b.is_stat,
            !b.is_insert_front,
    {
        TaskBuilder::new()
    }
}

/// A task spawned into a set whose done list is empty is the next one handed
/// out once it wakes: `spawn(e)` (from `s0` to `s1`), then `wake_entry(e)`
/// (to `s2`), then `poll_join_next_begin` (to `s3`, giving `r`) polls `e`,
/// with one more task in the set than before the spawn.
pub proof fn lemma_spawned_then_woken_is_joined(
    s0: JoinSet,
    s1: JoinSet,
    s2: JoinSet,
    s3: JoinSet,
    e: u64,
    waker: u64,
    r: JoinNext,
)
    requires
        s0.wf(),
        s0.done().len() == 0,
        !s0.flagged().contains(e),
        s1.wait() == s0.wait().push(e),
        s1.done() == s0.done(),
        s1.flagged() == s0.flagged(),
        s1.spec_len() == s0.spec_len() + 1,
        s2.spec_len() == s1.spec_len(),
        !s1.flagged().contains(e) ==> s2.flagged() == s1.flagged().push(e) && (s1.wait().contains(e)
            ==> s2.done() == s1.done().push(e)),
        s3.spec_len() == s2.spec_len(),
        s2.spec_len() != 0 ==> (s2.done().len() > 0 ==> r == JoinNext::Poll(s2.done()[0])),
    ensures
        r == JoinNext::Poll(e),
        s3.spec_len() == s0.spec_len() + 1,
{
    assert(s1.wait()[s1.wait().len() - 1] == e);
    assert(s1.wait().contains(e));
    assert(s2.done() =~= seq![e]);
}

} // verus!
