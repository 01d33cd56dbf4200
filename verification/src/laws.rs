//! What holds of the ledger's operations, whatever the state they start
//! from.

use vstd::prelude::*;
use crate::account::AccountId;
use crate::mirror::{
    first_position, is_reordering, lemma_first_position_found, lemma_first_position_holds,
    lemma_reordering_is_onto,
};
use crate::state::{mirror_total, LedgerState, Operation};
use crate::types::{Error, Timestamp, TypeVote, Votermirror};
use crate::weight::{lemma_share_bounds, share};

verus! {

/// Admission keeps the two representations in step, and in agreement where
/// they agreed.
pub proof fn lemma_add_voter_keeps_agreement(s: LedgerState, caller: AccountId, id: AccountId)
    requires
        s.wf(),
    ensures
        s.add_voter(caller, id).wf(),
        s.consistent() ==> s.add_voter(caller, id).consistent(),
{
    let t = s.add_voter(caller, id);
    if s.add_voter_error(caller, id) is None {
        let n = s.mirror.len() as int;
        assert forall|i: int| 0 <= i < n implies (#[trigger] s.mirror[i]).voter_id != id by {
            assert(s.voters.contains_key(s.mirror[i].voter_id));
        }
        assert forall|k: AccountId| #[trigger] t.voters.contains_key(k) implies first_position(
            t.mirror,
            k,
        ) is Some by {
            if k == id {
                assert(t.mirror[n].voter_id == id);
            } else {
                lemma_first_position_holds(s.mirror, k);
                let p = first_position(s.mirror, k)->0;
                assert(t.mirror[p].voter_id == k);
            }
        }
        assert forall|i: int, j: int| 0 <= i < j < t.mirror.len() implies (
        #[trigger] t.mirror[i]).voter_id != (#[trigger] t.mirror[j]).voter_id by {
            if j < n {
                assert(s.mirror[i].voter_id != s.mirror[j].voter_id);
            } else {
                assert(t.mirror[i] == s.mirror[i]);
            }
        }
        assert forall|i: int| 0 <= i < t.mirror.len() implies t.voters.contains_key(
            (#[trigger] t.mirror[i]).voter_id,
        ) by {
            if i < n {
                assert(t.mirror[i] == s.mirror[i]);
            }
        }
        if s.consistent() {
            assert forall|i: int| 0 <= i < t.mirror.len() implies (
            #[trigger] t.mirror[i]).reputation == t.voters[t.mirror[i].voter_id].reputation() by {
                if i < n {
                    assert(t.mirror[i] == s.mirror[i]);
                }
            }
        }
    }
}

/// Removal keeps the two representations in step, and in agreement where
/// they agreed.
pub proof fn lemma_remove_voter_keeps_agreement(s: LedgerState, caller: AccountId, id: AccountId)
    requires
        s.wf(),
    ensures
        s.remove_voter(caller, id).wf(),
        s.consistent() ==> s.remove_voter(caller, id).consistent(),
{
    let t = s.remove_voter(caller, id);
    if s.remove_voter_error(caller, id) is None {
        lemma_first_position_holds(s.mirror, id);
        let p = s.mirror_position(id);
        let from = |i: int| if i < p { i } else { i + 1 };
        assert forall|i: int| 0 <= i < t.mirror.len() implies #[trigger] t.mirror[i]
            == s.mirror[from(i)] && t.mirror[i].voter_id != id by {
            if from(i) < p {
                assert(s.mirror[from(i)].voter_id != s.mirror[p].voter_id);
            } else {
                assert(s.mirror[p].voter_id != s.mirror[from(i)].voter_id);
            }
        }
        assert forall|i: int, j: int| 0 <= i < j < t.mirror.len() implies (
        #[trigger] t.mirror[i]).voter_id != (#[trigger] t.mirror[j]).voter_id by {
            assert(s.mirror[from(i)].voter_id != s.mirror[from(j)].voter_id);
        }
        assert forall|i: int| 0 <= i < t.mirror.len() implies t.voters.contains_key(
            (#[trigger] t.mirror[i]).voter_id,
        ) by {
            assert(s.voters.contains_key(s.mirror[from(i)].voter_id));
        }
        assert forall|k: AccountId| #[trigger] t.voters.contains_key(k) implies first_position(
            t.mirror,
            k,
        ) is Some by {
            lemma_first_position_holds(s.mirror, k);
            let q = first_position(s.mirror, k)->0;
            let i = if q < p { q } else { q - 1 };
            assert(t.mirror[i] == s.mirror[q]);
            assert(t.mirror[i].voter_id == k);
        }
        if s.consistent() {
            assert forall|i: int| 0 <= i < t.mirror.len() implies (
            #[trigger] t.mirror[i]).reputation == t.voters[t.mirror[i].voter_id].reputation() by {
                assert(s.mirror[from(i)].reputation
                    == s.voters[s.mirror[from(i)].voter_id].reputation());
            }
        }
    }
}

/// A vote that the counters can take keeps the two representations in step
/// and leaves them in agreement where they agreed.
pub proof fn lemma_vote_keeps_agreement(
    s: LedgerState,
    caller: AccountId,
    target: AccountId,
    value: TypeVote,
)
    requires
        s.wf(),
        s.vote_error(caller, target) is None ==> s.vote_in_range(caller, target, value),
    ensures
        s.vote(caller, target, value).wf(),
        s.consistent() ==> s.vote(caller, target, value).consistent(),
{
    let t = s.vote(caller, target, value);
    if s.vote_error(caller, target) is None {
        lemma_first_position_holds(s.mirror, target);
        let p = s.mirror_position(target);
        assert(s.voters[target].in_range());
        assert(s.voters[caller].in_range());
        assert(t.voters[target].in_range());
        assert(t.voters.dom() =~= s.voters.dom());
        assert forall|i: int| 0 <= i < t.mirror.len() implies (#[trigger] t.mirror[i]).voter_id
            == s.mirror[i].voter_id by {}
        assert forall|i: int, j: int| 0 <= i < j < t.mirror.len() implies (
        #[trigger] t.mirror[i]).voter_id != (#[trigger] t.mirror[j]).voter_id by {
            assert(s.mirror[i].voter_id != s.mirror[j].voter_id);
        }
        assert forall|i: int| 0 <= i < t.mirror.len() implies t.voters.contains_key(
            (#[trigger] t.mirror[i]).voter_id,
        ) by {
            assert(s.voters.contains_key(s.mirror[i].voter_id));
        }
        assert forall|k: AccountId| #[trigger] t.voters.contains_key(k) implies first_position(
            t.mirror,
            k,
        ) is Some by {
            lemma_first_position_holds(s.mirror, k);
            let q = first_position(s.mirror, k)->0;
            assert(t.mirror[q].voter_id == k);
        }
        if s.consistent() {
            assert forall|i: int| 0 <= i < t.mirror.len() implies (
            #[trigger] t.mirror[i]).reputation == t.voters[t.mirror[i].voter_id].reputation() by {
                if i != p {
                    if i < p {
                        assert(s.mirror[i].voter_id != s.mirror[p].voter_id);
                    } else {
                        assert(s.mirror[p].voter_id != s.mirror[i].voter_id);
                    }
                    assert(s.mirror[i].reputation
                        == s.voters[s.mirror[i].voter_id].reputation());
                }
            }
        }
    }
}

/// Putting the mirror list in another order keeps the two representations
/// in step, and in agreement where they agreed.
pub proof fn lemma_reordering_keeps_agreement(
    s: LedgerState,
    mirror: Seq<Votermirror>,
    from: Seq<int>,
)
    requires
        s.wf(),
        is_reordering(s.mirror, mirror, from),
    ensures
        s.with_mirror(mirror).wf(),
        s.consistent() ==> s.with_mirror(mirror).consistent(),
{
    let t = s.with_mirror(mirror);
    assert forall|i: int, j: int| 0 <= i < j < mirror.len() implies (
    #[trigger] mirror[i]).voter_id != (#[trigger] mirror[j]).voter_id by {
        assert(mirror[i] == s.mirror[from[i]]);
        assert(mirror[j] == s.mirror[from[j]]);
        assert(from[i] != from[j]);
        if from[i] < from[j] {
            assert(s.mirror[from[i]].voter_id != s.mirror[from[j]].voter_id);
        } else {
            assert(s.mirror[from[j]].voter_id != s.mirror[from[i]].voter_id);
        }
    }
    assert forall|i: int| 0 <= i < mirror.len() implies t.voters.contains_key(
        (#[trigger] mirror[i]).voter_id,
    ) by {
        assert(mirror[i] == s.mirror[from[i]]);
        assert(s.voters.contains_key(s.mirror[from[i]].voter_id));
    }
    assert forall|k: AccountId| #[trigger] t.voters.contains_key(k) implies first_position(
        mirror,
        k,
    ) is Some by {
        lemma_first_position_holds(s.mirror, k);
        let q = first_position(s.mirror, k)->0;
        lemma_reordering_is_onto(s.mirror, mirror, from, q);
        let i = choose|i: int| 0 <= i < mirror.len() && from[i] == q && #[trigger] mirror[i]
            == s.mirror[q];
        lemma_first_position_found(mirror, k, i);
    }
    if s.consistent() {
        assert forall|i: int| 0 <= i < mirror.len() implies (#[trigger] mirror[i]).reputation
            == t.voters[mirror[i].voter_id].reputation() by {
            assert(mirror[i] == s.mirror[from[i]]);
            assert(s.mirror[from[i]].reputation
                == s.voters[s.mirror[from[i]].voter_id].reputation());
        }
    }
}

/// One operation that the counters can take keeps the two representations
/// in step, and in agreement where they agreed.
pub proof fn lemma_operation_keeps_agreement(s: LedgerState, op: Operation)
    requires
        s.wf(),
        s.can_take(op),
    ensures
        s.apply(op).wf(),
        s.consistent() ==> s.apply(op).consistent(),
{
    match op {
        Operation::AddVoter { caller, voter_id } => {
            lemma_add_voter_keeps_agreement(s, caller, voter_id);
        },
        Operation::RemoveVoter { caller, voter_id } => {
            lemma_remove_voter_keeps_agreement(s, caller, voter_id);
        },
        Operation::Vote { caller, voter_id, value } => {
            lemma_vote_keeps_agreement(s, caller, voter_id, value);
        },
    }
}

/// The two representations agree after every admission, removal and vote:
/// a ledger in which the lookup table and the mirror list give every voter
/// the same reputation is such a ledger after any operations that its
/// counters can take.
pub proof fn lemma_agreement_is_invariant(s: LedgerState, ops: Seq<Operation>)
    requires
        s.wf(),
        s.consistent(),
        s.can_take_all(ops),
    ensures
        s.apply_all(ops).wf(),
        s.apply_all(ops).consistent(),
    decreases ops.len(),
{
    if ops.len() > 0 {
        lemma_agreement_is_invariant(s, ops.drop_last());
        lemma_operation_keeps_agreement(s.apply_all(ops.drop_last()), ops.last());
    }
}

/// A ledger as it is made is in step and in agreement, and so is every
/// ledger that operations lead to from there.
pub proof fn lemma_agreement_from_the_start(admin: AccountId, now: Timestamp, ops: Seq<Operation>)
    requires
        LedgerState::initial(admin, now).can_take_all(ops),
    ensures
        LedgerState::initial(admin, now).apply_all(ops).wf(),
        LedgerState::initial(admin, now).apply_all(ops).consistent(),
{
    lemma_agreement_is_invariant(LedgerState::initial(admin, now), ops);
}

/// After any operations the total power is what it was, plus the gain of
/// every vote counted (twice the weight for a like, the weight for an
/// unlike), less the reputation of every voter removed.
pub proof fn lemma_total_power_is_awarded_less_removed(s: LedgerState, ops: Seq<Operation>)
    ensures
        s.apply_all(ops).total_power == s.total_power + s.total_awarded(ops) - s.total_removed(
            ops,
        ),
        s.total_power == 0 ==> s.apply_all(ops).total_power == s.total_awarded(ops)
            - s.total_removed(ops),
    decreases ops.len(),
{
    if ops.len() > 0 {
        lemma_total_power_is_awarded_less_removed(s, ops.drop_last());
    }
}

/// After any operations the number of votes is what it was, plus one for
/// every vote that was not refused.
pub proof fn lemma_total_votes_is_counted(s: LedgerState, ops: Seq<Operation>)
    ensures
        s.apply_all(ops).total_votes == s.total_votes + s.total_counted(ops),
    decreases ops.len(),
{
    if ops.len() > 0 {
        lemma_total_votes_is_counted(s, ops.drop_last());
    }
}

/// Power is awarded only: a vote that is not refused adds 1 at least and 60
/// at most to the total power, and a refused one nothing.
pub proof fn lemma_vote_gain_is_positive(s: LedgerState, caller: AccountId, value: TypeVote)
    ensures
        1 <= s.vote_power(caller) <= 30,
        1 <= s.vote_gain(caller, value) <= 60,
{
}

/// The first vote ever cast weighs 1: without any power awarded, whoever
/// votes adds 2 with a like and 1 with an unlike.
pub proof fn lemma_first_vote_weighs_one(s: LedgerState, caller: AccountId)
    requires
        s.total_power == 0,
    ensures
        s.vote_power(caller) == 1,
        s.vote_gain(caller, TypeVote::Like) == 2,
        s.vote_gain(caller, TypeVote::Unlike) == 1,
{
}

/// Admitting a voter twice is refused the second time, whether or not the
/// first admission was.
pub proof fn lemma_second_admission_is_refused(s: LedgerState, caller: AccountId, id: AccountId)
    requires
        s.is_admin(caller),
    ensures
        s.add_voter(caller, id).add_voter_error(caller, id) == Some(Error::VoterAlreadyExists),
        s.add_voter(caller, id).add_voter(caller, id) == s.add_voter(caller, id),
{
}

/// Removing an account that is no voter is refused, and so is removing a
/// voter a second time.
pub proof fn lemma_removing_a_stranger_is_refused(s: LedgerState, caller: AccountId, id: AccountId)
    requires
        s.is_admin(caller),
    ensures
        !s.is_voter(id) ==> s.remove_voter_error(caller, id) == Some(Error::VoterNotExist),
        s.remove_voter_error(caller, id) is None ==> s.remove_voter(caller, id).remove_voter_error(
            caller,
            id,
        ) == Some(Error::VoterNotExist),
{
}

/// A voter's vote on itself is refused.
pub proof fn lemma_self_vote_is_refused(s: LedgerState, caller: AccountId, value: TypeVote)
    requires
        s.is_voter(caller),
    ensures
        s.vote_error(caller, caller) == Some(Error::NotVoteItSelf),
        s.vote(caller, caller, value) == s,
{
}

/// Where the two representations agree, no removal is refused for a
/// difference between them.
pub proof fn lemma_agreement_passes_the_removal_check(
    s: LedgerState,
    caller: AccountId,
    id: AccountId,
)
    requires
        s.wf(),
        s.consistent(),
    ensures
        s.remove_voter_error(caller, id) != Some(Error::NoEqualReputation),
{
    if s.is_voter(id) {
        lemma_first_position_holds(s.mirror, id);
    }
}

/// For every voter the mirror list holds the reputation that the lookup
/// table gives, where the two representations agree.
pub proof fn lemma_agreement_by_voter(s: LedgerState, id: AccountId)
    requires
        s.wf(),
        s.consistent(),
        s.is_voter(id),
    ensures
        s.in_mirror(id),
        s.mirror_reputation(id) == s.reputation(id),
{
    lemma_first_position_holds(s.mirror, id);
}

/// The counters grow: no operation takes a vote back, and the total power
/// falls with the removal of a voter only.
pub proof fn lemma_counters_grow(s: LedgerState, op: Operation)
    ensures
        s.apply(op).total_votes >= s.total_votes,
        !(op is RemoveVoter) ==> s.apply(op).total_power >= s.total_power,
        s.wf() ==> s.apply(op).total_power <= s.total_power + 60,
        s.wf() && op is RemoveVoter ==> s.apply(op).total_power <= s.total_power,
{
    match op {
        Operation::RemoveVoter { caller, voter_id } => {
            if s.wf() && s.remove_voter_error(caller, voter_id) is None {
                assert(s.voters[voter_id].in_range());
            }
        },
        _ => {},
    }
}

/// A round starts once: a second start changes nothing.
pub proof fn lemma_round_starts_once(s: LedgerState, first: Timestamp, second: Timestamp)
    ensures
        s.init_round(first).round_started,
        s.init_round(first).init_round(second) == s.init_round(first),
        !s.round_started ==> s.init_round(first).round.start_time == first,
{
}

/// Replacing an entry changes the sum of the reputations by the difference
/// between the two.
pub proof fn lemma_total_after_update(mirror: Seq<Votermirror>, p: int, entry: Votermirror)
    requires
        0 <= p < mirror.len(),
    ensures
        mirror_total(mirror.update(p, entry)) == mirror_total(mirror) - mirror[p].reputation
            + entry.reputation,
    decreases mirror.len(),
{
    let last = mirror.len() - 1;
    if p == last {
        assert(mirror.update(p, entry).drop_last() =~= mirror.drop_last());
    } else {
        assert(mirror.update(p, entry).drop_last() =~= mirror.drop_last().update(p, entry));
        lemma_total_after_update(mirror.drop_last(), p, entry);
    }
}

/// Taking an entry out takes its reputation out of the sum.
pub proof fn lemma_total_after_remove(mirror: Seq<Votermirror>, p: int)
    requires
        0 <= p < mirror.len(),
    ensures
        mirror_total(mirror.remove(p)) == mirror_total(mirror) - mirror[p].reputation,
    decreases mirror.len(),
{
    let last = mirror.len() - 1;
    if p == last {
        assert(mirror.remove(p) =~= mirror.drop_last());
    } else {
        assert(mirror.remove(p).drop_last() =~= mirror.drop_last().remove(p));
        assert(mirror.remove(p).last() == mirror.last());
        lemma_total_after_remove(mirror.drop_last(), p);
    }
}

/// Where no reputation is negative, none is more than their sum.
pub proof fn lemma_total_bounds(mirror: Seq<Votermirror>, p: int)
    requires
        0 <= p < mirror.len(),
        forall|i: int| 0 <= i < mirror.len() ==> (#[trigger] mirror[i]).reputation >= 0,
    ensures
        0 <= mirror[p].reputation <= mirror_total(mirror),
        0 <= mirror_total(mirror.drop_last()),
    decreases mirror.len(),
{
    let rest = mirror.drop_last();
    assert forall|i: int| 0 <= i < rest.len() implies (#[trigger] rest[i]).reputation >= 0 by {
        assert(rest[i] == mirror[i]);
    }
    if rest.len() > 0 {
        lemma_total_bounds(rest, if p < rest.len() { p } else { 0 });
    }
}

/// One operation that the counters can take leaves the total power the sum
/// of the voters' reputations, where it was that and the two representations
/// agreed.
pub proof fn lemma_operation_keeps_balance(s: LedgerState, op: Operation)
    requires
        s.wf(),
        s.consistent(),
        s.balanced(),
        s.can_take(op),
    ensures
        s.apply(op).balanced(),
{
    match op {
        Operation::AddVoter { caller, voter_id } => {
            if s.add_voter_error(caller, voter_id) is None {
                assert(s.apply(op).mirror.drop_last() =~= s.mirror);
            }
        },
        Operation::RemoveVoter { caller, voter_id } => {
            if s.remove_voter_error(caller, voter_id) is None {
                lemma_first_position_holds(s.mirror, voter_id);
                lemma_total_after_remove(s.mirror, s.mirror_position(voter_id));
            }
        },
        Operation::Vote { caller, voter_id, value } => {
            if s.vote_error(caller, voter_id) is None {
                lemma_first_position_holds(s.mirror, voter_id);
                let p = s.mirror_position(voter_id);
                assert(s.voters[voter_id].in_range());
                lemma_total_after_update(s.mirror, p, s.apply(op).mirror[p]);
            }
        },
    }
}

/// In a ledger that operations lead to from its making, the total power is
/// the sum of the reputations of the voters that are there.
pub proof fn lemma_total_power_is_the_sum_of_reputations(
    admin: AccountId,
    now: Timestamp,
    ops: Seq<Operation>,
)
    requires
        LedgerState::initial(admin, now).can_take_all(ops),
    ensures
        LedgerState::initial(admin, now).apply_all(ops).wf(),
        LedgerState::initial(admin, now).apply_all(ops).consistent(),
        LedgerState::initial(admin, now).apply_all(ops).balanced(),
    decreases ops.len(),
{
    let start = LedgerState::initial(admin, now);
    lemma_agreement_is_invariant(start, ops);
    if ops.len() > 0 {
        lemma_total_power_is_the_sum_of_reputations(admin, now, ops.drop_last());
        lemma_operation_keeps_balance(start.apply_all(ops.drop_last()), ops.last());
    }
}

/// Where the total power is the sum of the reputations, no voter holds less
/// than nothing or more than all of it: a voter's share is a percentage,
/// and the total power can give up any voter's reputation.
pub proof fn lemma_share_is_a_percentage(s: LedgerState, id: AccountId)
    requires
        s.wf(),
        s.consistent(),
        s.balanced(),
        s.is_voter(id),
    ensures
        0 <= s.reputation(id) <= s.total_power,
        s.total_power != 0 ==> 0 <= share(s.reputation(id), s.total_power) <= 100,
{
    lemma_first_position_holds(s.mirror, id);
    let p = s.mirror_position(id);
    assert forall|i: int| 0 <= i < s.mirror.len() implies (#[trigger] s.mirror[i]).reputation
        >= 0 by {
        assert(s.voters[s.mirror[i].voter_id].in_range());
    }
    lemma_total_bounds(s.mirror, p);
    if s.total_power != 0 {
        lemma_share_bounds(s.reputation(id), s.total_power);
    }
}

} // verus!
