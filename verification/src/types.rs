//! The plain data of the ledger: voters, mirror entries, the admin, the
//! errors and the notifications that the operations hand back.

use vstd::prelude::*;
use crate::account::AccountId;

verus! {

/// An amount of funds.
pub type Balance = u128;

/// A point in time, or a span of it, in milliseconds.
pub type Timestamp = u64;

/// The votes in favour that a voter has received, weighted.
pub type Upvotes = i32;

/// The votes against that a voter has received, weighted.
pub type Downvotes = i32;

/// Why an operation was refused.
#[derive(Debug, Clone, Copy, PartialEq, Eq, Structural)]
pub enum Error {
    NotIsAdmin,
    MustBeItSelf,
    VoterAlreadyExists,
    VoterNotExist,
    NotVoteItSelf,
    NotIsVoter,
    NftNotMint,
    RoundNotStarted,
    RoundStarted,
    NoEqualReputation,
    FundsAreNotEnough,
}

/// The two kinds of vote.
#[derive(Debug, Clone, Copy, PartialEq, Eq, Structural)]
pub enum TypeVote {
    Like,
    Unlike,
}

/// What the lookup table keeps of a voter: two magnitudes, both added to the
/// voter's reputation.
#[derive(Debug, Clone, Copy, PartialEq, Eq, Structural)]
pub struct Voter {
    pub upvotes: Upvotes,
    pub downvotes: Downvotes,
}

impl Voter {
    /// The reputation that the two magnitudes add up to.
    pub open spec fn reputation(self) -> int {
        self.upvotes + self.downvotes
    }

    /// Both magnitudes are non-negative and their sum fits the counter.
    pub open spec fn in_range(self) -> bool {
        &&& 0 <= self.upvotes
        &&& 0 <= self.downvotes
        &&& self.upvotes + self.downvotes <= i32::MAX
    }
}

/// An entry of the mirror list: a voter and the reputation held for it there.
#[derive(Debug, Clone, Copy, PartialEq, Eq)]
pub struct Votermirror {
    pub voter_id: AccountId,
    pub reputation: i32,
}

/// The authority over admission, removal and funds.
#[derive(Debug, Clone, Copy, PartialEq, Eq)]
pub struct Admin {
    pub address: AccountId,
    pub modified_date: Timestamp,
}

/// Notification: a voter was admitted.
#[derive(Debug, Clone, Copy, PartialEq, Eq)]
pub struct NewVoter {
    pub voter_id: AccountId,
}

/// Notification: a voter was removed, and the total power that is left.
#[derive(Debug, Clone, Copy, PartialEq, Eq)]
pub struct RemoveVoter {
    pub voter_id: AccountId,
    pub total_power: i32,
}

/// Notification: a vote was cast, with the totals after it.
#[derive(Debug, Clone, Copy, PartialEq, Eq)]
pub struct Vote {
    pub total_power: i32,
    pub total_votes: u32,
    pub votation: TypeVote,
}

/// A vote that is counted and waits for its token to be minted.
#[derive(Debug, Clone, Copy, PartialEq, Eq)]
pub struct PendingVote {
    /// The account that cast the vote, for which the token is minted.
    pub voter: AccountId,
    pub votation: TypeVote,
}

/// Notification: funds were assigned.
#[derive(Debug, Clone, Copy, PartialEq, Eq)]
pub struct Transfer {
    pub from: Option<AccountId>,
    pub to: AccountId,
    pub value: Balance,
}

} // verus!
