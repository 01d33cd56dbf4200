//! The ledger itself. It owns the lookup table, the mirror list and the
//! counters, and every change of them goes through its operations.
//!
//! What the host alone knows comes in as an argument: who calls, what time
//! it is, what funds are at hand, whether a token was minted. Notifications
//! go out as return values, for the host to publish.

use vstd::prelude::*;
use crate::account::AccountId;
use crate::account_map::{as_map, has_key, keys_unique, lemma_entry, position, AccountMap};
use crate::laws::{
    lemma_add_voter_keeps_agreement, lemma_remove_voter_keeps_agreement,
    lemma_reordering_keeps_agreement, lemma_vote_keeps_agreement,
};
use crate::mirror::{
    first_position, is_reordering, is_top_reputation, keeps_order_of_ties, lemma_first_position_holds,
    lemma_sorted_starts_at_top, stable_sorted_descending, VoterMirror,
};
use crate::parts::LedgerParts;
use crate::round::{VotingRound, ROUND_DURATION};
use crate::state::{in_step, LedgerState};
use crate::store::VoterStore;
use crate::types::{
    Admin, Balance, Error, NewVoter, PendingVote, RemoveVoter, Timestamp, Transfer, TypeVote,
    Vote, Voter, Votermirror,
};
use crate::votinground::Votinground;
use crate::votingtraits::Votingtraits;
use crate::weight::{vote_weight, weight, weight_computable};

verus! {

/// The voting ledger.
pub struct Voting {
    admin: Admin,
    enabled_voters: VoterStore,
    mirror: VoterMirror,
    balances: AccountMap<Balance>,
    total_votes: u32,
    total_power: i32,
    round: VotingRound,
    roundstarted: bool,
}

impl View for Voting {
    type V = LedgerState;

    closed spec fn view(&self) -> LedgerState {
        LedgerState {
            admin: self.admin,
            voters: self.enabled_voters@,
            mirror: self.mirror@,
            balances: self.balances@,
            total_votes: self.total_votes as int,
            total_power: self.total_power as int,
            round: self.round,
            round_started: self.roundstarted,
        }
    }
}

impl Voting {
    /// The ledger is in order: its tables hold each key once, and its two
    /// representations of the voters are in step.
    pub closed spec fn wf(&self) -> bool {
        &&& self.enabled_voters.wf()
        &&& self.balances.wf()
        &&& self@.wf()
    }

    /// A ledger in order has a state in order, with counters in range.
    pub proof fn lemma_wf(&self)
        requires
            self.wf(),
        ensures
            self@.wf(),
            0 <= self@.total_votes <= u32::MAX,
            i32::MIN <= self@.total_power <= i32::MAX,
    {
    }

    /// A ledger for the given admin, made at `now`: no voters, no votes, no
    /// funds assigned, and no round started.
    pub fn new(admin: AccountId, now: Timestamp) -> (ledger: Self)
        ensures
            ledger.wf(),
            ledger@ == LedgerState::initial(admin, now),
            ledger@.consistent(),
    {
        let ledger = Voting {
            admin: Admin { address: admin, modified_date: now },
            enabled_voters: VoterStore::new(),
            mirror: VoterMirror::new(),
            balances: AccountMap::new(),
            total_votes: 0,
            total_power: 0,
            round: VotingRound::new(now, ROUND_DURATION),
            roundstarted: false,
        };
        assert(ledger@ =~= LedgerState::initial(admin, now));
        ledger
    }

    /// Admits a voter, on the admin's word. The voter starts without votes,
    /// in the lookup table and at the end of the mirror list.
    pub fn add_voter(&mut self, caller: AccountId, voter_id: AccountId) -> (r: Result<
        NewVoter,
        Error,
    >)
        requires
            old(self).wf(),
        ensures
            final(self).wf(),
            final(self)@ == old(self)@.add_voter(caller, voter_id),
            r == (match old(self)@.add_voter_error(caller, voter_id) {
                Some(e) => Err::<NewVoter, Error>(e),
                None => Ok::<NewVoter, Error>(NewVoter { voter_id }),
            }),
            old(self)@.consistent() ==> final(self)@.consistent(),
    {
        if caller != self.admin.address {
            return Err(Error::NotIsAdmin);
        }
        if self.enabled_voters.contains(voter_id) {
            return Err(Error::VoterAlreadyExists);
        }
        proof {
            lemma_add_voter_keeps_agreement(self@, caller, voter_id);
        }
        let _ = self.enabled_voters.register(voter_id);
        self.mirror.append(voter_id);
        assert(self@ =~= old(self)@.add_voter(caller, voter_id));
        Ok(NewVoter { voter_id })
    }

    /// Removes a voter, on the admin's word, and takes the voter's
    /// reputation out of the total power. The admin cannot remove itself,
    /// and a voter whose two reputations differ is not removed.
    pub fn remove_voter(&mut self, caller: AccountId, voter_id: AccountId) -> (r: Result<
        RemoveVoter,
        Error,
    >)
        requires
            old(self).wf(),
            old(self)@.remove_voter_error(caller, voter_id) is None ==> old(self)@.total_power
                - old(self)@.reputation(voter_id) >= i32::MIN,
        ensures
            final(self).wf(),
            final(self)@ == old(self)@.remove_voter(caller, voter_id),
            r == (match old(self)@.remove_voter_error(caller, voter_id) {
                Some(e) => Err::<RemoveVoter, Error>(e),
                None => Ok::<RemoveVoter, Error>(
                    RemoveVoter {
                        voter_id,
                        total_power: (old(self)@.total_power - old(self)@.reputation(
                            voter_id,
                        )) as i32,
                    },
                ),
            }),
            old(self)@.consistent() ==> final(self)@.consistent(),
    {
        if caller != self.admin.address {
            return Err(Error::NotIsAdmin);
        }
        if !self.enabled_voters.contains(voter_id) {
            return Err(Error::VoterNotExist);
        }
        if caller == voter_id {
            return Err(Error::NotVoteItSelf);
        }
        proof {
            lemma_first_position_holds(self.mirror@, voter_id);
        }
        let reputation = self.helper_get_reputation_mapping(voter_id);
        if reputation != self.helper_get_reputation_vec(voter_id) {
            return Err(Error::NoEqualReputation);
        }
        proof {
            lemma_remove_voter_keeps_agreement(self@, caller, voter_id);
        }
        self.total_power = self.total_power - reputation;
        let _ = self.enabled_voters.remove(voter_id);
        let index = self.get_index(voter_id);
        self.mirror.remove_at(index.unwrap());
        assert(self@ =~= old(self)@.remove_voter(caller, voter_id));
        Ok(RemoveVoter { voter_id, total_power: self.total_power })
    }

    /// Counts the caller's vote on another voter. The weight of the vote
    /// follows from the caller's share of the total power; a like adds twice
    /// the weight to the target's upvotes, an unlike adds the weight to its
    /// downvotes, and the total power grows by as much.
    ///
    /// The vote stands from here on. What comes back names the account for
    /// which a token is to be minted; `confirm_vote` takes the minter's
    /// answer.
    pub fn vote(&mut self, caller: AccountId, voter_id: AccountId, value: TypeVote) -> (r: Result<
        PendingVote,
        Error,
    >)
        requires
            old(self).wf(),
            old(self)@.vote_error(caller, voter_id) is None ==> old(self)@.vote_in_range(
                caller,
                voter_id,
                value,
            ),
        ensures
            final(self).wf(),
            final(self)@ == old(self)@.vote(caller, voter_id, value),
            r == (match old(self)@.vote_error(caller, voter_id) {
                Some(e) => Err::<PendingVote, Error>(e),
                None => Ok::<PendingVote, Error>(PendingVote { voter: caller, votation: value }),
            }),
            old(self)@.consistent() ==> final(self)@.consistent(),
    {
        let voter = match self.enabled_voters.lookup(caller) {
            Some(voter) => voter,
            None => {
                return Err(Error::NotIsVoter);
            },
        };
        let candidate = match self.enabled_voters.lookup(voter_id) {
            Some(candidate) => candidate,
            None => {
                return Err(Error::VoterNotExist);
            },
        };
        if caller == voter_id {
            return Err(Error::NotVoteItSelf);
        }
        proof {
            lemma_first_position_holds(self.mirror@, voter_id);
            lemma_vote_keeps_agreement(self@, caller, voter_id, value);
        }
        let reputation_caller: i32 = voter.upvotes + voter.downvotes;
        let power: i32 = self.power_of_vote(reputation_caller);
        let power_positive: i32 = 2 * power;
        let up_candidate: i32 = candidate.upvotes;
        let down_candidate: i32 = candidate.downvotes;
        let index = self.get_index(voter_id).unwrap();
        if value == TypeVote::Like {
            self.enabled_voters.update(
                voter_id,
                Voter { upvotes: up_candidate + power_positive, downvotes: down_candidate },
            );
            self.mirror.update_reputation_at(
                index,
                up_candidate + power_positive + down_candidate,
            );
            self.total_power = self.total_power + power_positive;
        } else {
            self.enabled_voters.update(
                voter_id,
                Voter { upvotes: up_candidate, downvotes: down_candidate + power },
            );
            self.mirror.update_reputation_at(index, up_candidate + down_candidate + power);
            self.total_power = self.total_power + power;
        }
        self.total_votes = self.total_votes + 1;
        assert(self@ =~= old(self)@.vote(caller, voter_id, value));
        Ok(PendingVote { voter: caller, votation: value })
    }

    /// Closes a vote with the minter's answer: the notification of the vote
    /// where the token was minted, an error where it was not. The ledger is
    /// the same either way: a host that wants all or nothing drops the
    /// ledger's changes on the error.
    pub fn confirm_vote(&self, pending: PendingVote, minted: bool) -> (r: Result<Vote, Error>)
        ensures
            r == (if minted {
                Ok::<Vote, Error>(
                    Vote {
                        total_power: self@.total_power as i32,
                        total_votes: self@.total_votes as u32,
                        votation: pending.votation,
                    },
                )
            } else {
                Err::<Vote, Error>(Error::NftNotMint)
            }),
    {
        if !minted {
            return Err(Error::NftNotMint);
        }
        Ok(
            Vote {
                total_power: self.total_power,
                total_votes: self.total_votes,
                votation: pending.votation,
            },
        )
    }

    /// The position of a voter in the mirror list.
    pub fn get_index(&self, voter_id: AccountId) -> (index: Option<usize>)
        ensures
            index is Some <==> self@.in_mirror(voter_id),
            index is Some ==> index->0 == self@.mirror_position(voter_id) && index->0
                < self@.mirror.len(),
            self.wf() && self@.is_voter(voter_id) ==> index is Some,
    {
        self.mirror.index_of(voter_id)
    }

    /// The reputation that the lookup table gives a voter: 0 for an account
    /// that is no voter.
    pub fn helper_get_reputation_mapping(&self, voter_id: AccountId) -> (reputation: i32)
        requires
            self.wf(),
        ensures
            reputation == (if self@.is_voter(voter_id) {
                self@.reputation(voter_id)
            } else {
                0
            }),
    {
        let mut reputation: i32 = 0;
        if let Some(voter) = self.enabled_voters.lookup(voter_id) {
            assert(self@.voters[voter_id].in_range());
            let up: i32 = voter.upvotes;
            let down: i32 = voter.downvotes;
            reputation = up + down;
        }
        reputation
    }

    /// The reputation that the mirror list holds for a voter.
    pub fn helper_get_reputation_vec(&self, voter_id: AccountId) -> (reputation: i32)
        requires
            self@.in_mirror(voter_id),
        ensures
            reputation == self@.mirror_reputation(voter_id),
    {
        let index = self.get_index(voter_id);
        let voter_mirror = self.mirror.entry_at(index.unwrap());
        voter_mirror.reputation
    }

    /// The weight of a vote that a caller of the given reputation casts now.
    pub fn power_of_vote(&self, reputation: i32) -> (power: i32)
        requires
            weight_computable(reputation as int, self@.total_power),
        ensures
            power == vote_weight(reputation as int, self@.total_power),
            self@.total_power == 0 ==> power == 1,
            power == 1 || power == 10 || power == 20 || power == 30,
    {
        weight(reputation, self.total_power)
    }

    /// The reputation that the lookup table gives a voter, handed to the
    /// voter alone.
    pub fn get_reputation(&self, caller: AccountId, voter_id: AccountId) -> (r: Result<i32, Error>)
        requires
            self.wf(),
        ensures
            r == (match self@.get_reputation_error(caller, voter_id) {
                Some(e) => Err::<i32, Error>(e),
                None => Ok::<i32, Error>(self@.reputation(voter_id) as i32),
            }),
            r is Ok ==> r->Ok_0 == self@.reputation(voter_id),
    {
        if caller != voter_id {
            return Err(Error::MustBeItSelf);
        }
        if !self.enabled_voters.contains(voter_id) {
            return Err(Error::VoterNotExist);
        }
        Ok(self.helper_get_reputation_mapping(voter_id))
    }

    /// The reputation that the mirror list holds for a voter, handed to
    /// whoever asks.
    pub fn get_reputation_mirror(&self, voter_id: AccountId) -> (r: Result<i32, Error>)
        ensures
            r == (if self@.in_mirror(voter_id) {
                Ok::<i32, Error>(self@.mirror_reputation(voter_id) as i32)
            } else {
                Err::<i32, Error>(Error::VoterNotExist)
            }),
    {
        let index = self.get_index(voter_id);
        if index.is_none() {
            return Err(Error::VoterNotExist);
        }
        Ok(self.helper_get_reputation_vec(voter_id))
    }

    /// Whether the number of tokens that a voter holds may be handed out: it
    /// is handed to the voter alone. The minter knows the number: what comes
    /// back is the account to ask it about.
    pub fn get_balance_nft(&self, caller: AccountId, voter_id: AccountId) -> (r: Result<
        AccountId,
        Error,
    >)
        requires
            self.wf(),
        ensures
            r == (match self@.get_reputation_error(caller, voter_id) {
                Some(e) => Err::<AccountId, Error>(e),
                None => Ok::<AccountId, Error>(voter_id),
            }),
    {
        if caller != voter_id {
            return Err(Error::MustBeItSelf);
        }
        if !self.enabled_voters.contains(voter_id) {
            return Err(Error::VoterNotExist);
        }
        Ok(voter_id)
    }

    /// Starts the round at `now`. A round starts once.
    pub fn init_round(&mut self, now: Timestamp) -> (r: Result<(), Error>)
        requires
            old(self).wf(),
        ensures
            final(self).wf(),
            final(self)@ == old(self)@.init_round(now),
            r == (if old(self)@.round_started {
                Err::<(), Error>(Error::RoundStarted)
            } else {
                Ok::<(), Error>(())
            }),
    {
        if self.roundstarted {
            return Err(Error::RoundStarted);
        }
        self.roundstarted = true;
        self.round = VotingRound::new(now, self.round.duration);
        assert(self@ =~= old(self)@.init_round(now));
        Ok(())
    }

    /// The time left of the round at `now`: 0 once it is over.
    pub fn get_remaining_time(&mut self, now: Timestamp) -> (r: Result<Timestamp, Error>)
        requires
            old(self)@.round_started ==> old(self)@.round.deadline() <= Timestamp::MAX,
        ensures
            *final(self) == *old(self),
            r == (if old(self)@.round_started {
                Ok::<Timestamp, Error>(old(self)@.round.remaining(now) as Timestamp)
            } else {
                Err::<Timestamp, Error>(Error::RoundNotStarted)
            }),
    {
        if !self.roundstarted {
            return Err(Error::RoundNotStarted);
        }
        Ok(self.round.get_remaining_time(now))
    }

    /// Whether the round is over at `now`.
    pub fn has_round_expired(&mut self, now: Timestamp) -> (r: Result<bool, Error>)
        requires
            old(self)@.round_started ==> old(self)@.round.deadline() <= Timestamp::MAX,
        ensures
            *final(self) == *old(self),
            r == (if old(self)@.round_started {
                Ok::<bool, Error>(old(self)@.round.expired(now))
            } else {
                Err::<bool, Error>(Error::RoundNotStarted)
            }),
    {
        if !self.roundstarted {
            return Err(Error::RoundNotStarted);
        }
        Ok(self.round.has_round_expired(now))
    }

    /// Sorts the mirror list by descending reputation, ties left in their
    /// order. Nothing else changes.
    pub fn sorted_for_reputation(&mut self)
        requires
            old(self).wf(),
        ensures
            final(self).wf(),
            final(self)@ == old(self)@.with_mirror(final(self)@.mirror),
            stable_sorted_descending(old(self)@.mirror, final(self)@.mirror),
            old(self)@.consistent() ==> final(self)@.consistent(),
    {
        self.mirror.sort_descending_by_reputation();
        proof {
            let from = choose|from: Seq<int>|
                is_reordering(old(self)@.mirror, self.mirror@, from) && keeps_order_of_ties(
                    self.mirror@,
                    from,
                );
            lemma_reordering_keeps_agreement(old(self)@, self.mirror@, from);
            assert(self@ =~= old(self)@.with_mirror(self.mirror@));
        }
    }

    /// Sorts the mirror list by descending reputation and returns the
    /// reputation of the voter that now leads it: the highest there is. The
    /// list stays sorted. Without voters there is no leader.
    pub fn ranking(&mut self) -> (r: Result<i32, Error>)
        requires
            old(self).wf(),
        ensures
            final(self).wf(),
            final(self)@ == old(self)@.with_mirror(final(self)@.mirror),
            stable_sorted_descending(old(self)@.mirror, final(self)@.mirror),
            old(self)@.consistent() ==> final(self)@.consistent(),
            r == (if old(self)@.mirror.len() == 0 {
                Err::<i32, Error>(Error::VoterNotExist)
            } else {
                Ok::<i32, Error>(final(self)@.mirror[0].reputation)
            }),
            r is Ok ==> is_top_reputation(old(self)@.mirror, r->Ok_0 as int),
    {
        self.sorted_for_reputation();
        if self.mirror.len() == 0 {
            return Err(Error::VoterNotExist);
        }
        proof {
            lemma_sorted_starts_at_top(old(self)@.mirror, self@.mirror);
        }
        Ok(self.mirror.entry_at(0).reputation)
    }

    /// The funds at hand, handed to the admin alone. The host knows them:
    /// `available` is what it holds.
    pub fn get_balance_admin(&self, caller: AccountId, available: Balance) -> (r: Result<
        Balance,
        Error,
    >)
        ensures
            r == (if self@.is_admin(caller) {
                Ok::<Balance, Error>(available)
            } else {
                Err::<Balance, Error>(Error::NotIsAdmin)
            }),
    {
        if caller != self.admin.address {
            return Err(Error::NotIsAdmin);
        }
        Ok(available)
    }

    /// The funds assigned to an account.
    pub fn get_balance(&self, voter_id: AccountId) -> (r: Result<Balance, Error>)
        requires
            self.wf(),
        ensures
            r == Ok::<Balance, Error>(self@.balance(voter_id)),
    {
        Ok(self.helper_get_balance(voter_id))
    }

    /// Assigns funds to an account, on the admin's word, out of the
    /// `available` funds that the host holds.
    pub fn transfer_admin_to(
        &mut self,
        caller: AccountId,
        available: Balance,
        to: AccountId,
        value: Balance,
    ) -> (r: Result<Transfer, Error>)
        requires
            old(self).wf(),
            old(self)@.transfer_error(caller, available, value) is None ==> old(self)@.balance(to)
                + value <= Balance::MAX,
        ensures
            final(self).wf(),
            final(self)@ == old(self)@.transfer(caller, available, to, value),
            r == (match old(self)@.transfer_error(caller, available, value) {
                Some(e) => Err::<Transfer, Error>(e),
                None => Ok::<Transfer, Error>(Transfer { from: Some(caller), to, value }),
            }),
    {
        if caller != self.admin.address {
            return Err(Error::NotIsAdmin);
        }
        if available < value {
            return Err(Error::FundsAreNotEnough);
        }
        let balance_to = self.helper_get_balance(to);
        self.balances.insert(to, balance_to + value);
        assert(self@ =~= old(self)@.transfer(caller, available, to, value));
        Ok(Transfer { from: Some(caller), to, value })
    }

    /// The funds assigned to an account: 0 where none were.
    pub fn helper_get_balance(&self, voter_id: AccountId) -> (balance: Balance)
        requires
            self.wf(),
        ensures
            balance == self@.balance(voter_id),
    {
        match self.balances.get(voter_id) {
            Some(balance) => balance,
            None => 0,
        }
    }

    /// Whether the counters can take the caller's vote: whether `vote` may be
    /// called with these arguments. A vote that is refused fits.
    pub fn vote_fits(&self, caller: AccountId, voter_id: AccountId, value: TypeVote) -> (r: bool)
        requires
            self.wf(),
        ensures
            r == (self@.vote_error(caller, voter_id) is None ==> self@.vote_in_range(
                caller,
                voter_id,
                value,
            )),
    {
        let voter = match self.enabled_voters.lookup(caller) {
            Some(voter) => voter,
            None => {
                return true;
            },
        };
        let candidate = match self.enabled_voters.lookup(voter_id) {
            Some(candidate) => candidate,
            None => {
                return true;
            },
        };
        if caller == voter_id {
            return true;
        }
        assert(self@.voters[caller].in_range());
        assert(self@.voters[voter_id].in_range());
        let reputation_caller: i32 = voter.upvotes + voter.downvotes;
        if self.total_power != 0 && reputation_caller > i32::MAX / 100 {
            return false;
        }
        let power: i32 = self.power_of_vote(reputation_caller);
        let gain: i32 = if value == TypeVote::Like {
            2 * power
        } else {
            power
        };
        let reputation_candidate: i32 = candidate.upvotes + candidate.downvotes;
        reputation_candidate <= i32::MAX - gain && self.total_power <= i32::MAX - gain
            && self.total_votes < u32::MAX
    }

    /// Whether the total power can give up the voter's reputation: whether
    /// `remove_voter` may be called with these arguments. A removal that is
    /// refused fits.
    pub fn removal_fits(&self, caller: AccountId, voter_id: AccountId) -> (r: bool)
        requires
            self.wf(),
        ensures
            r == (self@.remove_voter_error(caller, voter_id) is None ==> self@.total_power
                - self@.reputation(voter_id) >= i32::MIN),
            self@.total_power >= 0 ==> r,
    {
        if caller != self.admin.address || caller == voter_id {
            return true;
        }
        let voter = match self.enabled_voters.lookup(voter_id) {
            Some(voter) => voter,
            None => {
                return true;
            },
        };
        assert(self@.voters[voter_id].in_range());
        let reputation: i32 = voter.upvotes + voter.downvotes;
        proof {
            lemma_first_position_holds(self.mirror@, voter_id);
        }
        if reputation != self.helper_get_reputation_vec(voter_id) {
            return true;
        }
        self.total_power >= i32::MIN + reputation
    }

    /// Whether the receiver's funds can take the value: whether
    /// `transfer_admin_to` may be called with these arguments. An
    /// assignment that is refused fits.
    pub fn transfer_fits(
        &self,
        caller: AccountId,
        available: Balance,
        to: AccountId,
        value: Balance,
    ) -> (r: bool)
        requires
            self.wf(),
        ensures
            r == (self@.transfer_error(caller, available, value) is None ==> self@.balance(to)
                + value <= Balance::MAX),
    {
        if caller != self.admin.address || available < value {
            return true;
        }
        self.helper_get_balance(to) <= Balance::MAX - value
    }

    /// Whether the round's deadline is a moment that the clock can show:
    /// whether the round may be asked for its time. Before a round has
    /// started it may.
    pub fn round_fits(&self) -> (r: bool)
        ensures
            r == (self@.round_started ==> self@.round.deadline() <= Timestamp::MAX),
    {
        !self.roundstarted || self.round.deadline_fits()
    }

    /// The ledger, taken apart.
    pub fn to_parts(&self) -> (parts: LedgerParts)
        requires
            self.wf(),
        ensures
            parts.valid(),
            parts.state() == self@,
    {
        let parts = LedgerParts {
            admin: self.admin,
            voters: self.enabled_voters.entries(),
            mirror: self.mirror.entries(),
            balances: self.balances.entries(),
            total_votes: self.total_votes,
            total_power: self.total_power,
            round: self.round,
            roundstarted: self.roundstarted,
        };
        assert(parts.state() =~= self@);
        parts
    }

    /// The ledger that the parts make, where they make one: where no voter
    /// and no account is listed twice and the lookup table and the mirror
    /// list are in step. Whether the two agree on the reputations is not
    /// asked here: the removal of a voter asks it.
    pub fn from_parts(parts: LedgerParts) -> (r: Option<Self>)
        ensures
            r is Some <==> parts.valid(),
            r is Some ==> r->0.wf() && r->0@ == parts.state(),
    {
        let ghost state = parts.state();
        let enabled_voters = match VoterStore::from_entries(parts.voters) {
            Some(voters) => voters,
            None => {
                return None;
            },
        };
        let balances = match AccountMap::from_entries(parts.balances) {
            Some(balances) => balances,
            None => {
                return None;
            },
        };
        let mirror = VoterMirror::from_entries(parts.mirror);
        if !check_in_step(&enabled_voters, &mirror) {
            return None;
        }
        let ledger = Voting {
            admin: parts.admin,
            enabled_voters,
            mirror,
            balances,
            total_votes: parts.total_votes,
            total_power: parts.total_power,
            round: parts.round,
            roundstarted: parts.roundstarted,
        };
        assert(ledger@ =~= state);
        Some(ledger)
    }

    /// The admin.
    pub fn admin(&self) -> (admin: Admin)
        ensures
            admin == self@.admin,
    {
        self.admin
    }

    /// The power awarded by all votes, less what left with removed voters.
    pub fn total_power(&self) -> (power: i32)
        ensures
            power == self@.total_power,
    {
        self.total_power
    }

    /// The number of votes counted.
    pub fn total_votes(&self) -> (votes: u32)
        ensures
            votes == self@.total_votes,
    {
        self.total_votes
    }

    /// Whether the account is an admitted voter.
    pub fn is_voter(&self, voter_id: AccountId) -> (r: bool)
        requires
            self.wf(),
        ensures
            r == self@.is_voter(voter_id),
    {
        self.enabled_voters.contains(voter_id)
    }

    /// The magnitudes that the lookup table holds for a voter.
    pub fn voter(&self, voter_id: AccountId) -> (r: Option<Voter>)
        requires
            self.wf(),
        ensures
            r == (if self@.is_voter(voter_id) {
                Some(self@.voters[voter_id])
            } else {
                None
            }),
    {
        self.enabled_voters.lookup(voter_id)
    }

    /// The mirror list, copied out in its order.
    pub fn mirror_entries(&self) -> (entries: Vec<Votermirror>)
        ensures
            entries@ == self@.mirror,
    {
        self.mirror.entries()
    }

    /// The round's start and duration. Before a round has started the start
    /// is the moment at which the ledger was made.
    pub fn round(&self) -> (round: VotingRound)
        ensures
            round == self@.round,
    {
        self.round
    }

    /// Whether a round has started.
    pub fn round_started(&self) -> (started: bool)
        ensures
            started == self@.round_started,
    {
        self.roundstarted
    }
}

/// Whether a lookup table and a mirror list are in step.
fn check_in_step(voters: &VoterStore, mirror: &VoterMirror) -> (r: bool)
    requires
        voters.wf(),
    ensures
        r == in_step(voters@, mirror@),
{
    let n: usize = mirror.len();
    let mut i: usize = 0;
    while i < n
        invariant
            n == mirror@.len(),
            i <= n,
            voters.wf(),
            forall|a: int, b: int|
                0 <= a < b < i ==> (#[trigger] mirror@[a]).voter_id != (
                #[trigger] mirror@[b]).voter_id,
            forall|a: int| 0 <= a < i ==> voters@.contains_key((#[trigger] mirror@[a]).voter_id),
        decreases n - i,
    {
        let id = mirror.entry_at(i).voter_id;
        if !voters.contains(id) {
            return false;
        }
        let mut j: usize = 0;
        while j < i
            invariant
                n == mirror@.len(),
                j <= i < n,
                id == mirror@[i as int].voter_id,
                forall|a: int| 0 <= a < j ==> (#[trigger] mirror@[a]).voter_id != id,
            decreases i - j,
        {
            if mirror.entry_at(j).voter_id == id {
                return false;
            }
            j = j + 1;
        }
        i = i + 1;
    }
    let list = voters.entries();
    let mut k: usize = 0;
    while k < list.len()
        invariant
            k <= list@.len(),
            keys_unique(list@),
            as_map(list@) == voters@,
            forall|a: int|
                0 <= a < k ==> first_position(mirror@, (#[trigger] list@[a]).0)
                    is Some && list@[a].1.in_range(),
        decreases list@.len() - k,
    {
        let id = list[k].0;
        let voter = list[k].1;
        proof {
            lemma_entry(list@, k as int);
        }
        if mirror.index_of(id).is_none() {
            return false;
        }
        if voter.upvotes < 0 || voter.downvotes < 0 || voter.upvotes > i32::MAX - voter.downvotes {
            assert(!voters@[id].in_range());
            return false;
        }
        k = k + 1;
    }
    proof {
        assert forall|id: AccountId| #[trigger] voters@.contains_key(id) implies
            first_position(mirror@, id) is Some && voters@[id].in_range() by {
            assert(has_key(list@, id));
            let a = position(list@, id);
            lemma_entry(list@, a);
        }
    }
    true
}

impl Votingtraits for Voting {
    open spec fn ledger_wf(&self) -> bool {
        self.wf()
    }

    open spec fn ledger(&self) -> LedgerState {
        self@
    }

    fn vote(&mut self, caller: AccountId, voter_id: AccountId, value: TypeVote) -> (r: Result<
        PendingVote,
        Error,
    >) {
        let pending = self.vote(caller, voter_id, value).unwrap();
        Ok(pending)
    }

    fn get_reputation(&self, caller: AccountId, voter_id: AccountId) -> (r: Result<i32, Error>) {
        Ok(self.get_reputation(caller, voter_id).unwrap())
    }
}

impl Votinground for Voting {
    open spec fn round_wf(&self) -> bool {
        self.wf()
    }

    open spec fn round_is_started(&self) -> bool {
        self@.round_started
    }

    open spec fn round_timer(&self) -> VotingRound {
        self@.round
    }

    fn init_round(&mut self, now: Timestamp) -> (r: Result<(), Error>) {
        self.init_round(now).unwrap();
        Ok(())
    }

    fn get_remaining_time(&mut self, now: Timestamp) -> (r: Result<Timestamp, Error>) {
        self.get_remaining_time(now)
    }

    fn has_round_expired(&mut self, now: Timestamp) -> (r: Result<bool, Error>) {
        self.has_round_expired(now)
    }
}

} // verus!
