//! The per-habit count of days in each status.
use vstd::prelude::*;

use crate::error::HabitError;
use crate::node::NodeStatus;

verus! {

/// Five counts, one for each status. A count may go below zero: the ledger
/// moves days as it is told and does not check them against the records.
pub ghost struct Tally {
    pub idle: int,
    pub skipped: int,
    pub partial: int,
    pub failed: int,
    pub complete: int,
}

impl Tally {
    pub open spec fn zero() -> Tally {
        Tally { idle: 0, skipped: 0, partial: 0, failed: 0, complete: 0 }
    }

    pub open spec fn get(self, s: NodeStatus) -> int {
        match s {
            NodeStatus::IDLE => self.idle,
            NodeStatus::SKIPPED => self.skipped,
            NodeStatus::PARTIAL => self.partial,
            NodeStatus::FAILED => self.failed,
            NodeStatus::COMPLETE => self.complete,
        }
    }

    pub open spec fn with(self, s: NodeStatus, n: int) -> Tally {
        match s {
            NodeStatus::IDLE => Tally { idle: n, ..self },
            NodeStatus::SKIPPED => Tally { skipped: n, ..self },
            NodeStatus::PARTIAL => Tally { partial: n, ..self },
            NodeStatus::FAILED => Tally { failed: n, ..self },
            NodeStatus::COMPLETE => Tally { complete: n, ..self },
        }
    }

    pub open spec fn total(self) -> int {
        self.idle + self.skipped + self.partial + self.failed + self.complete
    }

    /// One more day counted under `to`, one fewer under `from` if there is one.
    pub open spec fn shifted(self, from: Option<NodeStatus>, to: NodeStatus) -> Tally {
        let lowered = match from {
            Some(f) => self.with(f, self.get(f) - 1),
            None => self,
        };
        lowered.with(to, lowered.get(to) + 1)
    }
}

/// A habit's record to date: how many days were recorded, and how many of them
/// in each status.
#[derive(Clone, Copy, Debug, PartialEq, Eq, Structural)]
pub struct MetricsSummary {
    pub days: usize,
    pub complete: usize,
    pub partial: usize,
    pub skipped: usize,
    pub idle: usize,
    pub failed: usize,
}

impl MetricsSummary {
    /// The score in half days: a complete day earns two halves, a partial day one.
    pub fn score_halves(&self) -> (r: u128)
        ensures
            r == 2 * self.complete + self.partial,
    {
        2 * (self.complete as u128) + self.partial as u128
    }

    /// The score as a share of the recorded days, in tenths of a percent,
    /// rounded half up; zero where no day is recorded.
    pub fn percent_tenths(&self) -> (r: u128)
        ensures
            self.days == 0 ==> r == 0,
            self.days > 0 ==> r == (1000 * (2 * self.complete + self.partial) + self.days) / (2 * self.days),
    {
        if self.days == 0 {
            return 0;
        }
        let halves = self.score_halves();
        (1000 * halves + self.days as u128) / (2 * self.days as u128)
    }
}

/// The counts of one habit's days by status. All five are kept from the start.
#[derive(Clone, Copy, Debug, PartialEq, Eq, Structural)]
pub struct MetricsLedger {
    idle: i128,
    skipped: i128,
    partial: i128,
    failed: i128,
    complete: i128,
}

impl View for MetricsLedger {
    type V = Tally;

    closed spec fn view(&self) -> Tally {
        Tally {
            idle: self.idle as int,
            skipped: self.skipped as int,
            partial: self.partial as int,
            failed: self.failed as int,
            complete: self.complete as int,
        }
    }
}

impl MetricsLedger {
    /// A ledger with every count at zero.
    pub fn new() -> (r: MetricsLedger)
        ensures
            r@ == Tally::zero(),
    {
        MetricsLedger { idle: 0, skipped: 0, partial: 0, failed: 0, complete: 0 }
    }

    /// A ledger holding the given counts.
    pub fn from_counts(idle: i128, skipped: i128, partial: i128, failed: i128, complete: i128) -> (r: MetricsLedger)
        ensures
            r@ == (Tally {
                idle: idle as int,
                skipped: skipped as int,
                partial: partial as int,
                failed: failed as int,
                complete: complete as int,
            }),
    {
        MetricsLedger { idle, skipped, partial, failed, complete }
    }

    pub fn count(&self, s: NodeStatus) -> (r: i128)
        ensures
            r == self@.get(s),
    {
        match s {
            NodeStatus::IDLE => self.idle,
            NodeStatus::SKIPPED => self.skipped,
            NodeStatus::PARTIAL => self.partial,
            NodeStatus::FAILED => self.failed,
            NodeStatus::COMPLETE => self.complete,
        }
    }

    fn set(&mut self, s: NodeStatus, n: i128)
        ensures
            final(self)@ == old(self)@.with(s, n as int),
    {
        match s {
            NodeStatus::IDLE => self.idle = n,
            NodeStatus::SKIPPED => self.skipped = n,
            NodeStatus::PARTIAL => self.partial = n,
            NodeStatus::FAILED => self.failed = n,
            NodeStatus::COMPLETE => self.complete = n,
        }
    }

    /// Moves one day from `from` (if given) to `to`: one off the count of `from`,
    /// one on the count of `to`. Without `to` there is nothing to count and the
    /// ledger stays; so it does where a count would leave the range of `i128`.
    pub fn shift(&mut self, from: Option<NodeStatus>, to: Option<NodeStatus>) -> (r: Result<(), HabitError>)
        ensures
            match to {
                None => r == Err::<(), HabitError>(HabitError::InvalidArgument) && final(self)@ == old(self)@,
                Some(t) => {
                    let lowered = match from {
                        Some(f) => old(self)@.with(f, old(self)@.get(f) - 1),
                        None => old(self)@,
                    };
                    if (from is Some && old(self)@.get(from->0) == i128::MIN) || lowered.get(t) == i128::MAX {
                        r == Err::<(), HabitError>(HabitError::InvariantViolation) && final(self)@ == old(self)@
                    } else {
                        r == Ok::<(), HabitError>(()) && final(self)@ == old(self)@.shifted(from, t)
                    }
                },
            },
    {
        let t = match to {
            None => return Err(HabitError::InvalidArgument),
            Some(t) => t,
        };
        let mut next = *self;
        if let Some(f) = from {
            let c = next.count(f);
            if c == i128::MIN {
                return Err(HabitError::InvariantViolation);
            }
            next.set(f, c - 1);
        }
        let c = next.count(t);
        if c == i128::MAX {
            return Err(HabitError::InvariantViolation);
        }
        next.set(t, c + 1);
        *self = next;
        Ok(())
    }
}

} // verus!
