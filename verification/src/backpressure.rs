//! Backpressure: the watch over the size of the content store, which ends
//! the crawl once a budget is reached.

use vstd::prelude::*;

verus! {

/// The pause between two measurements of the store, in milliseconds.
pub const POLL_MILLIS: u64 = 200;

/// Whether a store of `current` bytes has reached a budget of `budget`.
pub open spec fn budget_reached(current: u64, budget: u64) -> bool {
    current >= budget
}

/// The first of the measurements that reaches the budget, if one does.
pub open spec fn first_reached(sizes: Seq<u64>, budget: u64) -> Option<int>
    decreases sizes.len(),
{
    if sizes.len() == 0 {
        None
    } else {
        match first_reached(sizes.drop_last(), budget) {
            Some(at) => Some(at),
            None => if budget_reached(sizes.last(), budget) {
                Some(sizes.len() - 1)
            } else {
                None
            },
        }
    }
}

/// What the monitor does after a measurement.
#[derive(Clone, Copy, Debug, PartialEq, Eq, Structural)]
pub enum Watch {
    /// The budget is reached: the pool is to be cancelled, and the monitor
    /// has done its work.
    Cancel,
    /// The budget is not reached: measure again after so many milliseconds.
    Wait(u64),
}

/// The watch over a byte budget.
#[derive(Clone, Copy, Debug)]
pub struct Monitor {
    budget: u64,
}

impl View for Monitor {
    type V = u64;

    closed spec fn view(&self) -> u64 {
        self.budget
    }
}

impl Monitor {
    /// A monitor for a budget of so many bytes.
    pub fn new(budget: u64) -> (monitor: Monitor)
        ensures
            monitor@ == budget,
    {
        Monitor { budget }
    }

    /// The budget, in bytes.
    pub fn budget(&self) -> (budget: u64)
        ensures
            budget == self@,
    {
        self.budget
    }

    /// Judges one measurement of the store: the crawl is cancelled if, and
    /// only if, the store has reached the budget.
    pub fn observe(&self, current: u64) -> (watch: Watch)
        ensures
            watch == (if budget_reached(current, self@) {
                Watch::Cancel
            } else {
                Watch::Wait(POLL_MILLIS)
            }),
    {
        if current >= self.budget {
            Watch::Cancel
        } else {
            Watch::Wait(POLL_MILLIS)
        }
    }

    /// Judges a series of measurements, as the monitor would one by one:
    /// gives the place of the measurement at which it cancels the crawl.
    pub fn cancels_at(&self, sizes: &Vec<u64>) -> (at: Option<usize>)
        ensures
            at is Some == first_reached(sizes@, self@) is Some,
            at matches Some(i) ==> first_reached(sizes@, self@) == Some(i as int),
    {
        let mut i: usize = 0;
        assert(sizes@.take(0) == Seq::<u64>::empty());
        while i < sizes.len()
            invariant
                i <= sizes@.len(),
                first_reached(sizes@.take(i as int), self@) is None,
            decreases sizes@.len() - i,
        {
            proof {
                lemma_first_reached_prefix(sizes@, self@, i as int);
            }
            match self.observe(sizes[i]) {
                Watch::Cancel => {
                    return Some(i);
                },
                Watch::Wait(_) => {},
            }
            assert(sizes@.take(i + 1).drop_last() == sizes@.take(i as int));
            i += 1;
        }
        assert(sizes@.take(sizes@.len() as int) == sizes@);
        None
    }
}

/// The monitor cancels at the first measurement that reaches the budget and
/// at no earlier one: before it every measurement is under the budget.
pub proof fn lemma_first_reached(sizes: Seq<u64>, budget: u64)
    ensures
        match first_reached(sizes, budget) {
            Some(at) => 0 <= at < sizes.len() && budget_reached(sizes[at], budget) && forall|i: int|
                0 <= i < at ==> !budget_reached(#[trigger] sizes[i], budget),
            None => forall|i: int|
                0 <= i < sizes.len() ==> !budget_reached(#[trigger] sizes[i], budget),
        },
    decreases sizes.len(),
{
    if sizes.len() > 0 {
        lemma_first_reached(sizes.drop_last(), budget);
        assert(forall|i: int| 0 <= i < sizes.len() - 1 ==> sizes.drop_last()[i] == sizes[i]);
    }
}

/// Where no measurement before place `at` reaches the budget and the one at
/// `at` does, `at` is where the monitor cancels.
proof fn lemma_first_reached_prefix(sizes: Seq<u64>, budget: u64, at: int)
    requires
        0 <= at < sizes.len(),
        first_reached(sizes.take(at), budget) is None,
    ensures
        budget_reached(sizes[at], budget) ==> first_reached(sizes, budget) == Some(at),
        !budget_reached(sizes[at], budget) ==> first_reached(sizes.take(at + 1), budget) is None,
    decreases sizes.len() - at,
{
    assert(sizes.take(at + 1).drop_last() == sizes.take(at));
    assert(sizes.take(at + 1).last() == sizes[at]);
    if budget_reached(sizes[at], budget) {
        assert(first_reached(sizes.take(at + 1), budget) == Some(at));
        lemma_first_reached_extends(sizes, budget, at + 1, at);
    }
}

/// A place at which the monitor cancels stays the same however many
/// measurements follow.
proof fn lemma_first_reached_extends(sizes: Seq<u64>, budget: u64, len: int, at: int)
    requires
        0 <= len <= sizes.len(),
        first_reached(sizes.take(len), budget) == Some(at),
    ensures
        first_reached(sizes, budget) == Some(at),
    decreases sizes.len() - len,
{
    if len < sizes.len() {
        assert(sizes.take(len + 1).drop_last() == sizes.take(len));
        lemma_first_reached_extends(sizes, budget, len + 1, at);
    } else {
        assert(sizes.take(len) == sizes);
    }
}

} // verus!
