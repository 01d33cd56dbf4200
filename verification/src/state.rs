//! The ledger as a mathematical value, and its operations as functions on
//! that value. The executable ledger is specified against these.

use vstd::prelude::*;
use crate::account::AccountId;
use crate::mirror::first_position;
use crate::round::{VotingRound, ROUND_DURATION};
use crate::types::{Admin, Balance, Error, Timestamp, TypeVote, Voter, Votermirror};
use crate::weight::{vote_weight, weight_computable};

verus! {

/// The magnitudes of a voter that has received no vote.
pub open spec fn fresh_voter() -> Voter {
    Voter { upvotes: 0, downvotes: 0 }
}

/// What a vote of the given weight adds to the target's reputation and to
/// the total power: twice the weight for a like, the weight for an unlike.
pub open spec fn contribution(value: TypeVote, power: int) -> int {
    match value {
        TypeVote::Like => 2 * power,
        TypeVote::Unlike => power,
    }
}

/// The lookup table and the mirror list are in step: they list the same
/// voters, the mirror list each of them once, and every voter's magnitudes
/// are in range.
pub open spec fn in_step(voters: Map<AccountId, Voter>, mirror: Seq<Votermirror>) -> bool {
    &&& forall|i: int, j: int|
        0 <= i < j < mirror.len() ==> (#[trigger] mirror[i]).voter_id != (
        #[trigger] mirror[j]).voter_id
    &&& forall|i: int|
        0 <= i < mirror.len() ==> voters.contains_key((#[trigger] mirror[i]).voter_id)
    &&& forall|id: AccountId| #[trigger]
        voters.contains_key(id) ==> first_position(mirror, id) is Some
    &&& forall|id: AccountId| #[trigger] voters.contains_key(id) ==> voters[id].in_range()
}

/// The sum of the reputations that a mirror list holds.
pub open spec fn mirror_total(mirror: Seq<Votermirror>) -> int
    decreases mirror.len(),
{
    if mirror.len() == 0 {
        0
    } else {
        mirror_total(mirror.drop_last()) + mirror.last().reputation
    }
}

/// Everything the ledger holds.
#[verifier::ext_equal]
pub struct LedgerState {
    pub admin: Admin,
    pub voters: Map<AccountId, Voter>,
    pub mirror: Seq<Votermirror>,
    pub balances: Map<AccountId, Balance>,
    pub total_votes: int,
    pub total_power: int,
    pub round: VotingRound,
    pub round_started: bool,
}

impl LedgerState {
    /// The ledger as it is made: no voters, no votes, no round.
    pub open spec fn initial(admin: AccountId, now: Timestamp) -> LedgerState {
        LedgerState {
            admin: Admin { address: admin, modified_date: now },
            voters: Map::empty(),
            mirror: Seq::empty(),
            balances: Map::empty(),
            total_votes: 0,
            total_power: 0,
            round: VotingRound { start_time: now, duration: ROUND_DURATION },
            round_started: false,
        }
    }

    /// Whether the account may admit and remove voters and move funds.
    pub open spec fn is_admin(self, caller: AccountId) -> bool {
        caller == self.admin.address
    }

    /// Whether the account is an admitted voter.
    pub open spec fn is_voter(self, id: AccountId) -> bool {
        self.voters.contains_key(id)
    }

    /// The reputation that the lookup table gives an admitted voter.
    pub open spec fn reputation(self, id: AccountId) -> int {
        self.voters[id].reputation()
    }

    /// Whether the voter stands in the mirror list.
    pub open spec fn in_mirror(self, id: AccountId) -> bool {
        first_position(self.mirror, id) is Some
    }

    /// The voter's position in the mirror list.
    pub open spec fn mirror_position(self, id: AccountId) -> int {
        first_position(self.mirror, id)->0
    }

    /// The reputation that the mirror list holds for a voter that stands in
    /// it.
    pub open spec fn mirror_reputation(self, id: AccountId) -> int {
        self.mirror[self.mirror_position(id)].reputation as int
    }

    /// The funds assigned to an account: 0 where none were.
    pub open spec fn balance(self, id: AccountId) -> Balance {
        if self.balances.contains_key(id) {
            self.balances[id]
        } else {
            0
        }
    }

    /// The two representations list the same voters, each once, and every
    /// voter's magnitudes are in range.
    pub open spec fn wf(self) -> bool {
        in_step(self.voters, self.mirror)
    }

    /// The two representations agree: every entry of the mirror list holds
    /// the reputation that the lookup table gives its voter.
    pub open spec fn consistent(self) -> bool {
        forall|i: int|
            0 <= i < self.mirror.len() ==> (#[trigger] self.mirror[i]).reputation
                == self.voters[self.mirror[i].voter_id].reputation()
    }

    /// The total power is the sum of the voters' reputations.
    pub open spec fn balanced(self) -> bool {
        self.total_power == mirror_total(self.mirror)
    }

    // Admission

    /// Why an admission is refused, if it is.
    pub open spec fn add_voter_error(self, caller: AccountId, id: AccountId) -> Option<Error> {
        if !self.is_admin(caller) {
            Some(Error::NotIsAdmin)
        } else if self.is_voter(id) {
            Some(Error::VoterAlreadyExists)
        } else {
            None
        }
    }

    /// The ledger after an admission: unchanged where it is refused, else
    /// with the voter in both representations, without votes.
    pub open spec fn add_voter(self, caller: AccountId, id: AccountId) -> LedgerState {
        if self.add_voter_error(caller, id) is Some {
            self
        } else {
            LedgerState {
                voters: self.voters.insert(id, fresh_voter()),
                mirror: self.mirror.push(Votermirror { voter_id: id, reputation: 0 }),
                ..self
            }
        }
    }

    // Removal

    /// Why a removal is refused, if it is.
    pub open spec fn remove_voter_error(self, caller: AccountId, id: AccountId) -> Option<Error> {
        if !self.is_admin(caller) {
            Some(Error::NotIsAdmin)
        } else if !self.is_voter(id) {
            Some(Error::VoterNotExist)
        } else if caller == id {
            Some(Error::NotVoteItSelf)
        } else if self.reputation(id) != self.mirror_reputation(id) {
            Some(Error::NoEqualReputation)
        } else {
            None
        }
    }

    /// The ledger after a removal: unchanged where it is refused, else
    /// without the voter in either representation and without its power.
    pub open spec fn remove_voter(self, caller: AccountId, id: AccountId) -> LedgerState {
        if self.remove_voter_error(caller, id) is Some {
            self
        } else {
            LedgerState {
                voters: self.voters.remove(id),
                mirror: self.mirror.remove(self.mirror_position(id)),
                total_power: self.total_power - self.reputation(id),
                ..self
            }
        }
    }

    // Voting

    /// Why a vote is refused, if it is.
    pub open spec fn vote_error(self, caller: AccountId, target: AccountId) -> Option<Error> {
        if !self.is_voter(caller) {
            Some(Error::NotIsVoter)
        } else if !self.is_voter(target) {
            Some(Error::VoterNotExist)
        } else if caller == target {
            Some(Error::NotVoteItSelf)
        } else {
            None
        }
    }

    /// The weight of a vote that the caller casts now.
    pub open spec fn vote_power(self, caller: AccountId) -> int {
        vote_weight(self.reputation(caller), self.total_power)
    }

    /// What a vote that the caller casts now adds to its target and to the
    /// total power.
    pub open spec fn vote_gain(self, caller: AccountId, value: TypeVote) -> int {
        contribution(value, self.vote_power(caller))
    }

    /// The target's magnitudes after the caller's vote.
    pub open spec fn voted(self, caller: AccountId, target: AccountId, value: TypeVote) -> Voter {
        let before = self.voters[target];
        let power = self.vote_power(caller);
        match value {
            TypeVote::Like => Voter {
                upvotes: (before.upvotes + 2 * power) as i32,
                downvotes: before.downvotes,
            },
            TypeVote::Unlike => Voter {
                upvotes: before.upvotes,
                downvotes: (before.downvotes + power) as i32,
            },
        }
    }

    /// Whether the counters can take the vote: the caller's share can be
    /// computed, and neither the target's reputation nor a total leaves its
    /// range.
    pub open spec fn vote_in_range(
        self,
        caller: AccountId,
        target: AccountId,
        value: TypeVote,
    ) -> bool {
        &&& weight_computable(self.reputation(caller), self.total_power)
        &&& self.reputation(target) + self.vote_gain(caller, value) <= i32::MAX
        &&& self.total_power + self.vote_gain(caller, value) <= i32::MAX
        &&& self.total_votes + 1 <= u32::MAX
    }

    /// The ledger after a vote: unchanged where it is refused, else with the
    /// gain added to the target in both representations and to the total
    /// power, and with one more vote counted.
    pub open spec fn vote(self, caller: AccountId, target: AccountId, value: TypeVote) -> LedgerState {
        if self.vote_error(caller, target) is Some {
            self
        } else {
            LedgerState {
                voters: self.voters.insert(target, self.voted(caller, target, value)),
                mirror: self.mirror.update(
                    self.mirror_position(target),
                    Votermirror {
                        voter_id: target,
                        reputation: (self.reputation(target) + self.vote_gain(caller, value)) as i32,
                    },
                ),
                total_power: self.total_power + self.vote_gain(caller, value),
                total_votes: self.total_votes + 1,
                ..self
            }
        }
    }

    // Reading reputations

    /// Why the lookup table's reputation of a voter is not given out, if it
    /// is not: it is given to the voter alone.
    pub open spec fn get_reputation_error(self, caller: AccountId, id: AccountId) -> Option<Error> {
        if caller != id {
            Some(Error::MustBeItSelf)
        } else if !self.is_voter(id) {
            Some(Error::VoterNotExist)
        } else {
            None
        }
    }

    // Ranking

    /// The ledger with its mirror list in another order.
    pub open spec fn with_mirror(self, mirror: Seq<Votermirror>) -> LedgerState {
        LedgerState { mirror, ..self }
    }

    // The round

    /// The ledger after an attempt to start the round at `now`: unchanged
    /// where a round has started, else with the round started then.
    pub open spec fn init_round(self, now: Timestamp) -> LedgerState {
        if self.round_started {
            self
        } else {
            LedgerState {
                round: VotingRound { start_time: now, duration: self.round.duration },
                round_started: true,
                ..self
            }
        }
    }

    // Funds

    /// Why funds are not assigned, if they are not.
    pub open spec fn transfer_error(
        self,
        caller: AccountId,
        available: Balance,
        value: Balance,
    ) -> Option<Error> {
        if !self.is_admin(caller) {
            Some(Error::NotIsAdmin)
        } else if available < value {
            Some(Error::FundsAreNotEnough)
        } else {
            None
        }
    }

    /// The ledger after an assignment of funds: unchanged where it is
    /// refused, else with the value added to what the receiver had.
    pub open spec fn transfer(
        self,
        caller: AccountId,
        available: Balance,
        to: AccountId,
        value: Balance,
    ) -> LedgerState {
        if self.transfer_error(caller, available, value) is Some {
            self
        } else {
            LedgerState {
                balances: self.balances.insert(to, (self.balance(to) + value) as Balance),
                ..self
            }
        }
    }
}

/// An operation that changes the voters or the totals.
pub enum Operation {
    AddVoter { caller: AccountId, voter_id: AccountId },
    RemoveVoter { caller: AccountId, voter_id: AccountId },
    Vote { caller: AccountId, voter_id: AccountId, value: TypeVote },
}

impl LedgerState {
    /// The ledger after one operation.
    pub open spec fn apply(self, op: Operation) -> LedgerState {
        match op {
            Operation::AddVoter { caller, voter_id } => self.add_voter(caller, voter_id),
            Operation::RemoveVoter { caller, voter_id } => self.remove_voter(caller, voter_id),
            Operation::Vote { caller, voter_id, value } => self.vote(caller, voter_id, value),
        }
    }

    /// Whether the counters can take the operation.
    pub open spec fn can_take(self, op: Operation) -> bool {
        match op {
            Operation::Vote { caller, voter_id, value } => self.vote_error(caller, voter_id)
                is None ==> self.vote_in_range(caller, voter_id, value),
            _ => true,
        }
    }

    /// The power that the operation awards: the gain of a vote that is not
    /// refused.
    pub open spec fn power_awarded(self, op: Operation) -> int {
        match op {
            Operation::Vote { caller, voter_id, value } => if self.vote_error(caller, voter_id)
                is None {
                self.vote_gain(caller, value)
            } else {
                0
            },
            _ => 0,
        }
    }

    /// The power that leaves with the operation: the reputation of a voter
    /// whose removal is not refused.
    pub open spec fn power_removed(self, op: Operation) -> int {
        match op {
            Operation::RemoveVoter { caller, voter_id } => if self.remove_voter_error(
                caller,
                voter_id,
            ) is None {
                self.reputation(voter_id)
            } else {
                0
            },
            _ => 0,
        }
    }

    /// The votes that the operation counts: 1 for a vote that is not
    /// refused.
    pub open spec fn votes_counted(self, op: Operation) -> int {
        match op {
            Operation::Vote { caller, voter_id, value } => if self.vote_error(caller, voter_id)
                is None {
                1
            } else {
                0
            },
            _ => 0,
        }
    }

    /// The ledger after the operations, one after the other.
    pub open spec fn apply_all(self, ops: Seq<Operation>) -> LedgerState
        decreases ops.len(),
    {
        if ops.len() == 0 {
            self
        } else {
            self.apply_all(ops.drop_last()).apply(ops.last())
        }
    }

    /// Whether the counters can take each operation in its turn.
    pub open spec fn can_take_all(self, ops: Seq<Operation>) -> bool
        decreases ops.len(),
    {
        if ops.len() == 0 {
            true
        } else {
            self.can_take_all(ops.drop_last()) && self.apply_all(ops.drop_last()).can_take(
                ops.last(),
            )
        }
    }

    /// The power that the operations award, each in its turn.
    pub open spec fn total_awarded(self, ops: Seq<Operation>) -> int
        decreases ops.len(),
    {
        if ops.len() == 0 {
            0
        } else {
            self.total_awarded(ops.drop_last()) + self.apply_all(ops.drop_last()).power_awarded(
                ops.last(),
            )
        }
    }

    /// The power that leaves with the operations, each in its turn.
    pub open spec fn total_removed(self, ops: Seq<Operation>) -> int
        decreases ops.len(),
    {
        if ops.len() == 0 {
            0
        } else {
            self.total_removed(ops.drop_last()) + self.apply_all(ops.drop_last()).power_removed(
                ops.last(),
            )
        }
    }

    /// The votes that the operations count, each in its turn.
    pub open spec fn total_counted(self, ops: Seq<Operation>) -> int
        decreases ops.len(),
    {
        if ops.len() == 0 {
            0
        } else {
            self.total_counted(ops.drop_last()) + self.apply_all(ops.drop_last()).votes_counted(
                ops.last(),
            )
        }
    }
}

} // verus!
