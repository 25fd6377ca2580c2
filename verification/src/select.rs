//! The decisions of a select over several branches: which branch to poll at
//! each step, which branches are left, and how a poll ends.
//!
//! A poll goes over the branches once, starting at a random branch (or at the
//! first, when biased), and polls each branch that is still enabled. A branch
//! whose output matches its pattern wins; one whose output does not is
//! disabled. When no branch wins and none is pending, every branch failed.
use vstd::prelude::*;

verus! {

/// How a poll of a select ends.
#[derive(Debug, Clone, Copy, PartialEq, Eq, Structural)]
pub enum SelectOutcome {
    /// This branch won.
    Branch(usize),
    /// Some branch is still pending.
    Pending,
    /// Every branch failed: the `else` branch runs.
    AllFailed,
}

/// The state of a select.
pub struct Select {
    match_result: Vec<bool>,
    random: bool,
    random_number: u64,
}

impl Select {
    /// Which branches are still enabled.
    pub closed spec fn enabled(self) -> Seq<bool> {
        self.match_result@
    }

    /// Whether the polls start at a random branch.
    pub closed spec fn is_random(self) -> bool {
        self.random
    }

    /// The random start.
    pub closed spec fn start(self) -> u64 {
        self.random_number
    }

    /// A select over branches whose preconditions are `preconditions`: a
    /// branch whose precondition fails is disabled from the start.
    pub fn new(preconditions: Vec<bool>, random: bool, random_number: u64) -> (s: Select)
        requires
            preconditions@.len() > 0,
        ensures
            s.enabled() == preconditions@,
            s.is_random() == random,
            s.start() == random_number,
    {
        Select { match_result: preconditions, random, random_number }
    }

    /// The number of branches.
    pub fn len(&self) -> (r: usize)
        ensures
            r == self.enabled().len(),
    {
        self.match_result.len()
    }

    /// The branch polled at step `i` of a poll: `i` places after the random
    /// start, going round, or the `i`th when biased.
    pub fn branch_at(&self, i: usize) -> (b: usize)
        requires
            i < self.enabled().len(),
        ensures
            b < self.enabled().len(),
            self.is_random() ==> b == (self.start() + i) % (self.enabled().len() as int),
            !self.is_random() ==> b == i,
    {
        if self.random {
            let n = self.match_result.len() as u64;
            let start = self.random_number % n;
            let offset = (i as u64) % n;
            proof {
                vstd::arithmetic::div_mod::lemma_add_mod_noop(
                    self.random_number as int,
                    i as int,
                    n as int,
                );
                vstd::arithmetic::div_mod::lemma_small_mod(i as nat, n as nat);
            }
            let r = if start >= n - offset {
                start - (n - offset)
            } else {
                start + offset
            };
            proof {
                if start >= n - offset {
                    assert(start + offset == n + r);
                    vstd::arithmetic::div_mod::lemma_mod_add_multiples_vanish(r as int, n as int);
                    vstd::arithmetic::div_mod::lemma_small_mod(r as nat, n as nat);
                } else {
                    vstd::arithmetic::div_mod::lemma_small_mod(r as nat, n as nat);
                }
            }
            r as usize
        } else {
            i
        }
    }

    /// Whether branch `b` is still enabled.
    pub fn is_enabled(&self, b: usize) -> (r: bool)
        requires
            b < self.enabled().len(),
        ensures
            r == self.enabled()[b as int],
    {
        self.match_result[b]
    }

    /// Branch `b` gave its output: it wins if the output matches its
    /// pattern, and becomes the start; else it is disabled.
    pub fn on_ready(&mut self, b: usize, matched: bool) -> (won: Option<usize>)
        requires
            b < old(self).enabled().len(),
        ensures
            final(self).is_random() == old(self).is_random(),
            matched ==> won == Some(b) && final(self).enabled() == old(self).enabled() && final(self).start()
                == b,
            !matched ==> won is None && final(self).enabled() == old(self).enabled().update(b as int, false)
                && final(self).start() == old(self).start(),
    {
        if matched {
            self.random_number = b as u64;
            Some(b)
        } else {
            self.match_result.set(b, false);
            None
        }
    }

    /// How a poll that no branch won ends: pending if some branch was
    /// pending, else every branch failed.
    pub fn finish(anyone_pending: bool) -> (r: SelectOutcome)
        ensures
            anyone_pending ==> r == SelectOutcome::Pending,
            !anyone_pending ==> r == SelectOutcome::AllFailed,
    {
        if anyone_pending {
            SelectOutcome::Pending
        } else {
            SelectOutcome::AllFailed
        }
    }
}

} // verus!
