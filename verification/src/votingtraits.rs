//! Voting, as a ledger offers it to those that hold it by this interface
//! alone.

use vstd::prelude::*;
use crate::account::AccountId;
use crate::state::LedgerState;
use crate::types::{Error, PendingVote, TypeVote};

verus! {

/// A ledger on which votes are cast. Through this interface a refusal is
/// not reported: the calls are for what the ledger does not refuse.
pub trait Votingtraits {
    /// The value is in order.
    spec fn ledger_wf(&self) -> bool;

    /// Everything the ledger holds.
    spec fn ledger(&self) -> LedgerState;

    /// Counts the caller's vote on another voter.
    fn vote(&mut self, caller: AccountId, voter_id: AccountId, value: TypeVote) -> (r: Result<
        PendingVote,
        Error,
    >)
        requires
            old(self).ledger_wf(),
            old(self).ledger().vote_error(caller, voter_id) is None,
            old(self).ledger().vote_in_range(caller, voter_id, value),
        ensures
            final(self).ledger_wf(),
            final(self).ledger() == old(self).ledger().vote(caller, voter_id, value),
            r == Ok::<PendingVote, Error>(PendingVote { voter: caller, votation: value }),
    ;

    /// The reputation that the lookup table gives the caller.
    fn get_reputation(&self, caller: AccountId, voter_id: AccountId) -> (r: Result<i32, Error>)
        requires
            self.ledger_wf(),
            self.ledger().get_reputation_error(caller, voter_id) is None,
        ensures
            r == Ok::<i32, Error>(self.ledger().reputation(voter_id) as i32),
            r->Ok_0 == self.ledger().reputation(voter_id),
    ;
}

} // verus!
