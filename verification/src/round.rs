//! The round timer: a start and a fixed duration, asked for what is left of
//! it and whether it is over.

use vstd::prelude::*;
use crate::types::Timestamp;

verus! {

/// The length of the ledger's round, in milliseconds.
pub const ROUND_DURATION: Timestamp = 60000;

/// A running round.
#[derive(Debug, Clone, Copy, PartialEq, Eq, Structural)]
pub struct VotingRound {
    pub start_time: Timestamp,
    pub duration: Timestamp,
}

impl VotingRound {
    /// The moment at which the round is over.
    pub open spec fn deadline(self) -> int {
        self.start_time + self.duration
    }

    /// What is left of the round at `now`: nothing from the deadline on.
    pub open spec fn remaining(self, now: Timestamp) -> int {
        if now >= self.deadline() {
            0
        } else {
            self.deadline() - now
        }
    }

    /// Whether the round is over at `now`.
    pub open spec fn expired(self, now: Timestamp) -> bool {
        now >= self.deadline()
    }

    /// A round of the given duration that starts at `now`.
    pub fn new(now: Timestamp, duration: Timestamp) -> (round: Self)
        ensures
            round == (VotingRound { start_time: now, duration }),
    {
        VotingRound { start_time: now, duration }
    }

    /// Whether the deadline is a moment that the clock can show: whether
    /// the round may be asked for its time.
    pub fn deadline_fits(&self) -> (r: bool)
        ensures
            r == (self.deadline() <= Timestamp::MAX),
    {
        self.start_time <= Timestamp::MAX - self.duration
    }

    /// Whether the round is over at `now`.
    pub fn has_round_expired(&self, now: Timestamp) -> (r: bool)
        requires
            self.deadline() <= Timestamp::MAX,
        ensures
            r == self.expired(now),
    {
        now >= self.start_time + self.duration
    }

    /// The time left at `now`, 0 once the round is over.
    pub fn get_remaining_time(&self, now: Timestamp) -> (left: Timestamp)
        requires
            self.deadline() <= Timestamp::MAX,
        ensures
            left == self.remaining(now),
    {
        if now >= self.start_time + self.duration {
            0
        } else {
            (self.start_time + self.duration) - now
        }
    }
}

} // verus!
