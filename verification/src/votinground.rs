//! The round, as a ledger offers it to those that hold it by this interface
//! alone.

use vstd::prelude::*;
use crate::round::VotingRound;
use crate::types::{Error, Timestamp};

verus! {

/// A ledger that runs one round. Through this interface a refusal to start
/// the round is not reported: the round is started where none has.
pub trait Votinground {
    /// The value is in order.
    spec fn round_wf(&self) -> bool;

    /// Whether a round has started.
    spec fn round_is_started(&self) -> bool;

    /// The round's start and duration.
    spec fn round_timer(&self) -> VotingRound;

    /// Starts the round at `now`.
    fn init_round(&mut self, now: Timestamp) -> (r: Result<(), Error>)
        requires
            old(self).round_wf(),
            !old(self).round_is_started(),
        ensures
            final(self).round_wf(),
            final(self).round_is_started(),
            final(self).round_timer() == (VotingRound {
                start_time: now,
                duration: old(self).round_timer().duration,
            }),
            r == Ok::<(), Error>(()),
    ;

    /// The time left of the round at `now`: 0 once it is over.
    fn get_remaining_time(&mut self, now: Timestamp) -> (r: Result<Timestamp, Error>)
        requires
            old(self).round_wf(),
            old(self).round_is_started() ==> old(self).round_timer().deadline() <= Timestamp::MAX,
        ensures
            final(self).round_wf(),
            final(self).round_is_started() == old(self).round_is_started(),
            final(self).round_timer() == old(self).round_timer(),
            r == (if old(self).round_is_started() {
                Ok::<Timestamp, Error>(old(self).round_timer().remaining(now) as Timestamp)
            } else {
                Err::<Timestamp, Error>(Error::RoundNotStarted)
            }),
    ;

    /// Whether the round is over at `now`.
    fn has_round_expired(&mut self, now: Timestamp) -> (r: Result<bool, Error>)
        requires
            old(self).round_wf(),
            old(self).round_is_started() ==> old(self).round_timer().deadline() <= Timestamp::MAX,
        ensures
            final(self).round_wf(),
            final(self).round_is_started() == old(self).round_is_started(),
            final(self).round_timer() == old(self).round_timer(),
            r == (if old(self).round_is_started() {
                Ok::<bool, Error>(old(self).round_timer().expired(now))
            } else {
                Err::<bool, Error>(Error::RoundNotStarted)
            }),
    ;
}

} // verus!
