//! The running count of completed executions.

use vstd::prelude::*;

use crate::decode::CompletedExecution;

verus! {

/// A milestone is reported each time the count passes a multiple of this.
pub const MILESTONE_INTERVAL: u64 = 10;

/// The count after `arrivals` more executions. It stops at the largest
/// number that the counter holds.
pub open spec fn count_after(count: nat, arrivals: nat) -> nat {
    if count + arrivals > u64::MAX {
        u64::MAX as nat
    } else {
        count + arrivals
    }
}

/// The milestone that a step of the count from `before` to `after` reaches:
/// the largest multiple of `MILESTONE_INTERVAL` up to `after`, where it lies
/// beyond `before`.
pub open spec fn milestone_reached(before: nat, after: nat) -> Option<u64> {
    let interval = MILESTONE_INTERVAL as nat;
    if after / interval > before / interval {
        Some(((after / interval) * interval) as u64)
    } else {
        None
    }
}

/// Counts the completed executions seen so far.
pub struct ExecutionAggregator {
    count: u64,
}

impl View for ExecutionAggregator {
    type V = nat;

    closed spec fn view(&self) -> nat {
        self.count as nat
    }
}

impl ExecutionAggregator {
    /// An aggregator that has seen nothing.
    pub fn new() -> (aggregator: ExecutionAggregator)
        ensures
            aggregator@ == 0,
    {
        ExecutionAggregator { count: 0 }
    }

    /// The number of executions seen so far.
    pub fn count(&self) -> (count: u64)
        ensures
            count == self@,
    {
        self.count
    }

    /// Takes note of a list of executions. The count grows by the length of
    /// the list and never shrinks. Returns the milestone that the count
    /// reached with this list, if it reached one.
    pub fn record(&mut self, executions: &Vec<CompletedExecution>) -> (milestone: Option<u64>)
        ensures
            final(self)@ == count_after(old(self)@, executions@.len()),
            final(self)@ >= old(self)@,
            milestone == milestone_reached(old(self)@, final(self)@),
    {
        let before: u64 = self.count;
        let arrivals: u64 = executions.len() as u64;
        let after: u64 = if arrivals > u64::MAX - before {
            u64::MAX
        } else {
            before + arrivals
        };
        self.count = after;
        if after / MILESTONE_INTERVAL > before / MILESTONE_INTERVAL {
            Some((after / MILESTONE_INTERVAL) * MILESTONE_INTERVAL)
        } else {
            None
        }
    }
}

} // verus!
