//! The ledger taken apart into plain values, for a host that keeps it
//! somewhere between two operations, and put together again.

use vstd::prelude::*;
use crate::account::AccountId;
use crate::account_map::{as_map, keys_unique};
use crate::round::VotingRound;
use crate::state::LedgerState;
use crate::types::{Admin, Balance, Voter, Votermirror};

verus! {

/// Everything a ledger holds, as lists and numbers.
pub struct LedgerParts {
    pub admin: Admin,
    /// The lookup table: each voter with its magnitudes.
    pub voters: Vec<(AccountId, Voter)>,
    /// The mirror list, in its order.
    pub mirror: Vec<Votermirror>,
    /// The funds assigned, by account.
    pub balances: Vec<(AccountId, Balance)>,
    pub total_votes: u32,
    pub total_power: i32,
    pub round: VotingRound,
    pub roundstarted: bool,
}

impl LedgerParts {
    /// The ledger that the parts stand for.
    pub open spec fn state(self) -> LedgerState {
        LedgerState {
            admin: self.admin,
            voters: as_map(self.voters@),
            mirror: self.mirror@,
            balances: as_map(self.balances@),
            total_votes: self.total_votes as int,
            total_power: self.total_power as int,
            round: self.round,
            round_started: self.roundstarted,
        }
    }

    /// The parts make a ledger: no voter and no account is listed twice,
    /// and the lookup table and the mirror list are in step.
    pub open spec fn valid(self) -> bool {
        &&& keys_unique(self.voters@)
        &&& keys_unique(self.balances@)
        &&& self.state().wf()
    }
}

} // verus!
