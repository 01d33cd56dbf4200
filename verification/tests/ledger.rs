use voting::account::AccountId;
use voting::types::{
    Error, NewVoter, PendingVote, RemoveVoter, Transfer, TypeVote, Vote, Voter, Votermirror,
};
use voting::voting::Voting;

fn id(n: u8) -> AccountId {
    AccountId::new([n; 32])
}

fn ledger_with(admin: AccountId, voters: &[AccountId]) -> Voting {
    let mut ledger = Voting::new(admin, 1_000);
    for v in voters {
        assert_eq!(ledger.add_voter(admin, *v), Ok(NewVoter { voter_id: *v }));
    }
    ledger
}

#[test]
fn new_ledger_is_empty() {
    let admin = id(9);
    let ledger = Voting::new(admin, 77);
    assert_eq!(ledger.admin().address, admin);
    assert_eq!(ledger.admin().modified_date, 77);
    assert_eq!(ledger.total_power(), 0);
    assert_eq!(ledger.total_votes(), 0);
    assert!(ledger.mirror_entries().is_empty());
    assert!(!ledger.is_voter(admin));
    assert_eq!(ledger.round().start_time, 77);
    assert_eq!(ledger.round().duration, 60000);
    assert!(!ledger.round_started());
    assert_eq!(ledger.get_balance(admin), Ok(0));
}

#[test]
fn add_voter_needs_the_admin() {
    let (admin, a, b) = (id(0), id(1), id(2));
    let mut ledger = Voting::new(admin, 0);
    assert_eq!(ledger.add_voter(a, b), Err(Error::NotIsAdmin));
    assert!(!ledger.is_voter(b));
    assert!(ledger.mirror_entries().is_empty());
    assert_eq!(ledger.add_voter(admin, b), Ok(NewVoter { voter_id: b }));
    assert!(ledger.is_voter(b));
    assert_eq!(ledger.voter(b), Some(Voter { upvotes: 0, downvotes: 0 }));
    assert_eq!(ledger.mirror_entries(), vec![Votermirror { voter_id: b, reputation: 0 }]);
}

#[test]
fn admin_may_be_a_voter() {
    let admin = id(0);
    let mut ledger = Voting::new(admin, 0);
    assert_eq!(ledger.add_voter(admin, admin), Ok(NewVoter { voter_id: admin }));
    assert!(ledger.is_voter(admin));
}

#[test]
fn adding_twice_is_refused() {
    let (admin, a) = (id(0), id(1));
    let mut ledger = Voting::new(admin, 0);
    assert_eq!(ledger.add_voter(admin, a), Ok(NewVoter { voter_id: a }));
    assert_eq!(ledger.add_voter(admin, a), Err(Error::VoterAlreadyExists));
    assert_eq!(ledger.mirror_entries().len(), 1);
}

#[test]
fn non_admin_is_refused_before_the_voter_is_looked_at() {
    let (admin, a) = (id(0), id(1));
    let mut ledger = ledger_with(admin, &[a]);
    assert_eq!(ledger.add_voter(a, a), Err(Error::NotIsAdmin));
    assert_eq!(ledger.remove_voter(a, id(5)), Err(Error::NotIsAdmin));
}

#[test]
fn removing_a_stranger_is_refused() {
    let (admin, a) = (id(0), id(1));
    let mut ledger = ledger_with(admin, &[a]);
    assert_eq!(ledger.remove_voter(admin, id(7)), Err(Error::VoterNotExist));
    assert_eq!(ledger.mirror_entries().len(), 1);
}

#[test]
fn admin_cannot_remove_itself() {
    let (admin, a) = (id(0), id(1));
    let mut ledger = ledger_with(admin, &[admin, a]);
    assert_eq!(ledger.remove_voter(admin, admin), Err(Error::NotVoteItSelf));
    assert!(ledger.is_voter(admin));
    assert_eq!(ledger.mirror_entries().len(), 2);
}

#[test]
fn remove_voter_takes_its_power_along() {
    let (admin, a, b, c) = (id(0), id(1), id(2), id(3));
    let mut ledger = ledger_with(admin, &[a, b, c]);
    assert!(ledger.vote(a, b, TypeVote::Like).is_ok());
    assert!(ledger.vote(b, c, TypeVote::Unlike).is_ok());
    // b has 2 of 2: share 100, weight 30
    assert_eq!(ledger.total_power(), 32);
    assert_eq!(
        ledger.remove_voter(admin, c),
        Ok(RemoveVoter { voter_id: c, total_power: 2 })
    );
    assert_eq!(ledger.total_power(), 2);
    assert!(!ledger.is_voter(c));
    assert_eq!(ledger.voter(c), None);
    assert_eq!(ledger.get_reputation_mirror(c), Err(Error::VoterNotExist));
    assert_eq!(
        ledger.mirror_entries(),
        vec![
            Votermirror { voter_id: a, reputation: 0 },
            Votermirror { voter_id: b, reputation: 2 },
        ]
    );
    assert_eq!(ledger.total_votes(), 2);
}

#[test]
fn removing_from_the_middle_shifts_positions() {
    let (admin, a, b, c) = (id(0), id(1), id(2), id(3));
    let mut ledger = ledger_with(admin, &[a, b, c]);
    assert_eq!(ledger.get_index(c), Some(2));
    assert!(ledger.remove_voter(admin, b).is_ok());
    assert_eq!(ledger.get_index(a), Some(0));
    assert_eq!(ledger.get_index(b), None);
    assert_eq!(ledger.get_index(c), Some(1));
}

#[test]
fn vote_needs_two_different_voters() {
    let (admin, a, b, x) = (id(0), id(1), id(2), id(8));
    let mut ledger = ledger_with(admin, &[a, b]);
    assert_eq!(ledger.vote(x, a, TypeVote::Like), Err(Error::NotIsVoter));
    assert_eq!(ledger.vote(x, x, TypeVote::Like), Err(Error::NotIsVoter));
    assert_eq!(ledger.vote(a, x, TypeVote::Like), Err(Error::VoterNotExist));
    assert_eq!(ledger.vote(a, a, TypeVote::Unlike), Err(Error::NotVoteItSelf));
    assert_eq!(ledger.total_votes(), 0);
    assert_eq!(ledger.total_power(), 0);
    assert_eq!(ledger.voter(a), Some(Voter { upvotes: 0, downvotes: 0 }));
}

#[test]
fn first_vote_has_weight_one() {
    let (admin, a, b) = (id(0), id(1), id(2));
    let mut like = ledger_with(admin, &[a, b]);
    assert_eq!(
        like.vote(a, b, TypeVote::Like),
        Ok(PendingVote { voter: a, votation: TypeVote::Like })
    );
    assert_eq!(like.voter(b), Some(Voter { upvotes: 2, downvotes: 0 }));
    assert_eq!(like.total_power(), 2);

    let mut unlike = ledger_with(admin, &[a, b]);
    assert!(unlike.vote(a, b, TypeVote::Unlike).is_ok());
    assert_eq!(unlike.voter(b), Some(Voter { upvotes: 0, downvotes: 1 }));
    assert_eq!(unlike.total_power(), 1);
    assert_eq!(unlike.get_reputation_mirror(b), Ok(1));
}

#[test]
fn admit_vote_scenario() {
    let (admin, a, b, c, stranger) = (id(0), id(1), id(2), id(3), id(4));
    let mut ledger = Voting::new(admin, 0);
    assert!(ledger.add_voter(admin, a).is_ok());
    assert!(ledger.add_voter(admin, b).is_ok());
    assert!(ledger.add_voter(admin, c).is_ok());
    assert_eq!(ledger.add_voter(stranger, stranger), Err(Error::NotIsAdmin));

    assert_eq!(ledger.total_power(), 0);
    let pending = ledger.vote(a, b, TypeVote::Like).unwrap();
    assert_eq!(pending.voter, a);
    assert_eq!(ledger.voter(b).unwrap().upvotes, 2);
    assert_eq!(ledger.total_power(), 2);
    assert_eq!(ledger.total_votes(), 1);
    assert_eq!(
        ledger.confirm_vote(pending, true),
        Ok(Vote { total_power: 2, total_votes: 1, votation: TypeVote::Like })
    );

    // the scenario's weight of 30 is that of a caller who holds all the power
    assert_eq!(ledger.get_reputation(b, b), Ok(2));
    assert_eq!(ledger.power_of_vote(2), 30);
    // c itself holds none of it: its vote weighs 1
    let pending = ledger.vote(c, b, TypeVote::Unlike).unwrap();
    assert_eq!(ledger.voter(b), Some(Voter { upvotes: 2, downvotes: 1 }));
    assert_eq!(ledger.total_power(), 3);
    assert_eq!(
        ledger.confirm_vote(pending, true),
        Ok(Vote { total_power: 3, total_votes: 2, votation: TypeVote::Unlike })
    );
}

#[test]
fn vote_of_the_holder_of_all_power_weighs_thirty() {
    let (admin, a, b, c) = (id(0), id(1), id(2), id(3));
    let mut ledger = ledger_with(admin, &[a, b, c]);
    assert!(ledger.vote(a, b, TypeVote::Like).is_ok());
    assert_eq!(ledger.total_power(), 2);
    // b's reputation is 2 of 2: share 100, weight 30
    assert!(ledger.vote(b, c, TypeVote::Unlike).is_ok());
    assert_eq!(ledger.voter(c), Some(Voter { upvotes: 0, downvotes: 30 }));
    assert_eq!(ledger.total_power(), 32);
    assert_eq!(ledger.total_votes(), 2);
    assert_eq!(ledger.get_reputation_mirror(c), Ok(30));
    // c has 30 of 32: share 93, weight 30, doubled for a like
    assert!(ledger.vote(c, b, TypeVote::Like).is_ok());
    assert_eq!(ledger.voter(b), Some(Voter { upvotes: 62, downvotes: 0 }));
    assert_eq!(ledger.total_power(), 92);
    // c has 30 of 92: share 32, weight 10
    assert!(ledger.vote(c, a, TypeVote::Unlike).is_ok());
    assert_eq!(ledger.voter(a), Some(Voter { upvotes: 0, downvotes: 10 }));
    assert_eq!(ledger.total_power(), 102);
    // b has 62 of 102: share 60, weight 20
    assert!(ledger.vote(b, a, TypeVote::Unlike).is_ok());
    assert_eq!(ledger.voter(a), Some(Voter { upvotes: 0, downvotes: 30 }));
    assert_eq!(ledger.total_power(), 122);
    assert_eq!(ledger.total_votes(), 5);
}

#[test]
fn store_and_mirror_agree_after_every_operation() {
    let (admin, a, b, c) = (id(0), id(1), id(2), id(3));
    let mut ledger = Voting::new(admin, 0);
    let agree = |ledger: &Voting| {
        for entry in ledger.mirror_entries() {
            let voter = ledger.voter(entry.voter_id).unwrap();
            assert_eq!(entry.reputation, voter.upvotes + voter.downvotes);
            assert_eq!(
                ledger.get_reputation(entry.voter_id, entry.voter_id),
                ledger.get_reputation_mirror(entry.voter_id)
            );
        }
    };
    for v in [a, b, c] {
        assert!(ledger.add_voter(admin, v).is_ok());
        agree(&ledger);
    }
    for (from, to, value) in [
        (a, b, TypeVote::Like),
        (b, c, TypeVote::Unlike),
        (c, a, TypeVote::Like),
        (a, c, TypeVote::Like),
        (b, a, TypeVote::Unlike),
    ] {
        assert!(ledger.vote(from, to, value).is_ok());
        agree(&ledger);
    }
    assert!(ledger.remove_voter(admin, b).is_ok());
    agree(&ledger);
    assert!(ledger.ranking().is_ok());
    agree(&ledger);
}

#[test]
fn total_power_is_what_was_awarded_less_what_was_removed() {
    let (admin, a, b, c) = (id(0), id(1), id(2), id(3));
    let mut ledger = ledger_with(admin, &[a, b, c]);
    let mut awarded = 0;
    for (from, to, value) in [
        (a, b, TypeVote::Like),
        (b, c, TypeVote::Unlike),
        (c, a, TypeVote::Like),
        (a, c, TypeVote::Unlike),
    ] {
        let reputation = ledger.get_reputation(from, from).unwrap();
        let power = ledger.power_of_vote(reputation);
        awarded += if value == TypeVote::Like { 2 * power } else { power };
        assert!(ledger.vote(from, to, value).is_ok());
        assert_eq!(ledger.total_power(), awarded);
    }
    let removed = ledger.get_reputation(c, c).unwrap();
    assert!(removed > 0);
    assert!(ledger.remove_voter(admin, c).is_ok());
    assert_eq!(ledger.total_power(), awarded - removed);
    assert_eq!(ledger.total_votes(), 4);
}

#[test]
fn confirm_vote_reports_a_failed_mint() {
    let (admin, a, b) = (id(0), id(1), id(2));
    let mut ledger = ledger_with(admin, &[a, b]);
    let pending = ledger.vote(a, b, TypeVote::Like).unwrap();
    assert_eq!(ledger.confirm_vote(pending, false), Err(Error::NftNotMint));
    // the vote stands
    assert_eq!(ledger.total_votes(), 1);
    assert_eq!(ledger.total_power(), 2);
    assert_eq!(ledger.voter(b), Some(Voter { upvotes: 2, downvotes: 0 }));
}

#[test]
fn get_reputation_is_for_the_voter_alone() {
    let (admin, a, b) = (id(0), id(1), id(2));
    let mut ledger = ledger_with(admin, &[a, b]);
    assert!(ledger.vote(a, b, TypeVote::Like).is_ok());
    assert_eq!(ledger.get_reputation(a, b), Err(Error::MustBeItSelf));
    assert_eq!(ledger.get_reputation(admin, b), Err(Error::MustBeItSelf));
    assert_eq!(ledger.get_reputation(id(7), id(7)), Err(Error::VoterNotExist));
    assert_eq!(ledger.get_reputation(b, b), Ok(2));
    assert_eq!(ledger.get_reputation(a, a), Ok(0));
}

#[test]
fn get_reputation_mirror_is_for_anyone() {
    let (admin, a, b) = (id(0), id(1), id(2));
    let mut ledger = ledger_with(admin, &[a, b]);
    assert!(ledger.vote(a, b, TypeVote::Like).is_ok());
    assert_eq!(ledger.get_reputation_mirror(b), Ok(2));
    assert_eq!(ledger.get_reputation_mirror(a), Ok(0));
    assert_eq!(ledger.get_reputation_mirror(id(7)), Err(Error::VoterNotExist));
    assert_eq!(ledger.helper_get_reputation_mapping(b), 2);
    assert_eq!(ledger.helper_get_reputation_mapping(id(7)), 0);
    assert_eq!(ledger.helper_get_reputation_vec(b), 2);
}

#[test]
fn get_balance_nft_is_for_the_voter_alone() {
    let (admin, a, b) = (id(0), id(1), id(2));
    let ledger = ledger_with(admin, &[a, b]);
    assert_eq!(ledger.get_balance_nft(a, b), Err(Error::MustBeItSelf));
    assert_eq!(ledger.get_balance_nft(b, a), Err(Error::MustBeItSelf));
    assert_eq!(ledger.get_balance_nft(id(7), id(7)), Err(Error::VoterNotExist));
    assert_eq!(ledger.get_balance_nft(admin, admin), Err(Error::VoterNotExist));
    assert_eq!(ledger.get_balance_nft(a, a), Ok(a));
}

#[test]
fn ranking_scenario() {
    let (admin, a, b, c, helper) = (id(0), id(1), id(2), id(3), id(4));
    let mut ledger = ledger_with(admin, &[a, b, c, helper]);
    // the helper never receives a vote: each of its votes weighs 1
    for _ in 0..5 {
        assert!(ledger.vote(helper, a, TypeVote::Unlike).is_ok());
    }
    for _ in 0..20 {
        assert!(ledger.vote(helper, b, TypeVote::Like).is_ok());
    }
    for _ in 0..6 {
        assert!(ledger.vote(helper, c, TypeVote::Like).is_ok());
    }
    assert!(ledger.remove_voter(admin, helper).is_ok());
    assert_eq!(
        ledger.mirror_entries(),
        vec![
            Votermirror { voter_id: a, reputation: 5 },
            Votermirror { voter_id: b, reputation: 40 },
            Votermirror { voter_id: c, reputation: 12 },
        ]
    );
    assert_eq!(ledger.ranking(), Ok(40));
    assert_eq!(
        ledger.mirror_entries(),
        vec![
            Votermirror { voter_id: b, reputation: 40 },
            Votermirror { voter_id: c, reputation: 12 },
            Votermirror { voter_id: a, reputation: 5 },
        ]
    );
    // the order stays, and positions with it
    assert_eq!(ledger.get_index(b), Some(0));
    assert_eq!(ledger.get_index(a), Some(2));
    assert_eq!(ledger.get_reputation_mirror(a), Ok(5));
    assert_eq!(ledger.get_reputation(a, a), Ok(5));
    assert_eq!(ledger.total_power(), 57);
}

#[test]
fn ranking_keeps_ties_in_order() {
    let (admin, a, b, c, d) = (id(0), id(1), id(2), id(3), id(4));
    let mut ledger = ledger_with(admin, &[a, b, c, d]);
    assert!(ledger.vote(a, c, TypeVote::Like).is_ok());
    assert_eq!(ledger.ranking(), Ok(2));
    assert_eq!(
        ledger.mirror_entries(),
        vec![
            Votermirror { voter_id: c, reputation: 2 },
            Votermirror { voter_id: a, reputation: 0 },
            Votermirror { voter_id: b, reputation: 0 },
            Votermirror { voter_id: d, reputation: 0 },
        ]
    );
}

#[test]
fn ranking_of_no_voters_is_an_error() {
    let mut ledger = Voting::new(id(0), 0);
    assert_eq!(ledger.ranking(), Err(Error::VoterNotExist));
}

#[test]
fn round_scenario() {
    let mut ledger = Voting::new(id(0), 5);
    assert_eq!(ledger.get_remaining_time(10), Err(Error::RoundNotStarted));
    assert_eq!(ledger.has_round_expired(10), Err(Error::RoundNotStarted));
    assert_eq!(ledger.init_round(100), Ok(()));
    assert!(ledger.round_started());
    assert_eq!(ledger.round().start_time, 100);
    assert_eq!(ledger.init_round(200), Err(Error::RoundStarted));
    assert_eq!(ledger.round().start_time, 100);
}

#[test]
fn round_runs_for_sixty_seconds() {
    let mut ledger = Voting::new(id(0), 0);
    assert_eq!(ledger.init_round(1_000), Ok(()));
    assert_eq!(ledger.get_remaining_time(1_000), Ok(60_000));
    assert_eq!(ledger.get_remaining_time(1_001), Ok(59_999));
    assert_eq!(ledger.get_remaining_time(60_999), Ok(1));
    assert_eq!(ledger.get_remaining_time(61_000), Ok(0));
    assert_eq!(ledger.get_remaining_time(99_000), Ok(0));
    assert_eq!(ledger.has_round_expired(60_999), Ok(false));
    assert_eq!(ledger.has_round_expired(61_000), Ok(true));
    assert_eq!(ledger.has_round_expired(61_001), Ok(true));
}

#[test]
fn round_does_not_gate_votes() {
    let (admin, a, b) = (id(0), id(1), id(2));
    let mut ledger = ledger_with(admin, &[a, b]);
    assert!(ledger.vote(a, b, TypeVote::Like).is_ok());
    assert_eq!(ledger.init_round(0), Ok(()));
    assert_eq!(ledger.has_round_expired(70_000), Ok(true));
    assert!(ledger.vote(a, b, TypeVote::Like).is_ok());
    assert_eq!(ledger.total_votes(), 2);
}

#[test]
fn get_balance_admin_is_for_the_admin() {
    let (admin, a) = (id(0), id(1));
    let ledger = ledger_with(admin, &[a]);
    assert_eq!(ledger.get_balance_admin(a, 500), Err(Error::NotIsAdmin));
    assert_eq!(ledger.get_balance_admin(admin, 500), Ok(500));
}

#[test]
fn transfer_admin_to_assigns_funds() {
    let (admin, a, b) = (id(0), id(1), id(2));
    let mut ledger = ledger_with(admin, &[a]);
    assert_eq!(ledger.get_balance(a), Ok(0));
    assert_eq!(
        ledger.transfer_admin_to(admin, 100, a, 40),
        Ok(Transfer { from: Some(admin), to: a, value: 40 })
    );
    assert_eq!(ledger.get_balance(a), Ok(40));
    assert_eq!(
        ledger.transfer_admin_to(admin, 100, a, 100),
        Ok(Transfer { from: Some(admin), to: a, value: 100 })
    );
    assert_eq!(ledger.get_balance(a), Ok(140));
    assert_eq!(ledger.helper_get_balance(a), 140);
    // an account need not be a voter to receive
    assert!(ledger.transfer_admin_to(admin, 1, b, 1).is_ok());
    assert_eq!(ledger.get_balance(b), Ok(1));
    assert_eq!(ledger.get_balance(admin), Ok(0));
}

#[test]
fn transfer_admin_to_refusals() {
    let (admin, a) = (id(0), id(1));
    let mut ledger = ledger_with(admin, &[a]);
    assert_eq!(ledger.transfer_admin_to(admin, 39, a, 40), Err(Error::FundsAreNotEnough));
    assert_eq!(ledger.transfer_admin_to(a, 100, a, 40), Err(Error::NotIsAdmin));
    assert_eq!(ledger.transfer_admin_to(a, 0, a, 40), Err(Error::NotIsAdmin));
    assert_eq!(ledger.get_balance(a), Ok(0));
    assert!(ledger.transfer_admin_to(admin, 40, a, 40).is_ok());
}

#[test]
fn vote_fits_until_a_counter_is_full() {
    let (admin, a, b) = (id(0), id(1), id(2));
    let ledger = ledger_with(admin, &[a, b]);
    assert!(ledger.vote_fits(a, b, TypeVote::Like));
    // what is refused fits
    assert!(ledger.vote_fits(a, a, TypeVote::Like));
    assert!(ledger.vote_fits(id(7), a, TypeVote::Like));
    assert!(ledger.vote_fits(a, id(7), TypeVote::Like));

    let mut parts = ledger.to_parts();
    parts.total_power = i32::MAX - 1;
    let full = Voting::from_parts(parts).unwrap();
    // a has nothing of the power: weight 1
    assert!(full.vote_fits(a, b, TypeVote::Unlike));
    assert!(!full.vote_fits(a, b, TypeVote::Like));

    let mut parts = ledger.to_parts();
    parts.total_votes = u32::MAX;
    let full = Voting::from_parts(parts).unwrap();
    assert!(!full.vote_fits(a, b, TypeVote::Unlike));
    assert!(full.vote_fits(a, a, TypeVote::Unlike));
}

#[test]
fn vote_fits_while_the_share_can_be_computed() {
    let (admin, a, b) = (id(0), id(1), id(2));
    let ledger = ledger_with(admin, &[a, b]);
    let mut parts = ledger.to_parts();
    parts.voters = vec![
        (a, Voter { upvotes: 21_474_836, downvotes: 0 }),
        (b, Voter { upvotes: 0, downvotes: 0 }),
    ];
    parts.mirror = vec![
        Votermirror { voter_id: a, reputation: 21_474_836 },
        Votermirror { voter_id: b, reputation: 0 },
    ];
    parts.total_power = 21_474_836;
    let mut edge = Voting::from_parts(parts).unwrap();
    assert!(edge.vote_fits(a, b, TypeVote::Like));
    assert!(edge.vote(a, b, TypeVote::Like).is_ok());
    assert_eq!(edge.voter(b), Some(Voter { upvotes: 60, downvotes: 0 }));

    let mut parts = ledger.to_parts();
    parts.voters = vec![
        (a, Voter { upvotes: 21_474_837, downvotes: 0 }),
        (b, Voter { upvotes: 0, downvotes: 0 }),
    ];
    parts.mirror = vec![
        Votermirror { voter_id: a, reputation: 21_474_837 },
        Votermirror { voter_id: b, reputation: 0 },
    ];
    parts.total_power = 21_474_837;
    let over = Voting::from_parts(parts).unwrap();
    assert!(!over.vote_fits(a, b, TypeVote::Like));
    // b's share is 0 whatever the total
    assert!(over.vote_fits(b, a, TypeVote::Like));
}

#[test]
fn removal_fits_while_the_total_can_give() {
    let (admin, a, b) = (id(0), id(1), id(2));
    let mut ledger = ledger_with(admin, &[a, b]);
    assert!(ledger.vote(a, b, TypeVote::Like).is_ok());
    assert!(ledger.removal_fits(admin, b));
    let mut parts = ledger.to_parts();
    parts.total_power = i32::MIN + 1;
    let low = Voting::from_parts(parts).unwrap();
    assert!(!low.removal_fits(admin, b));
    assert!(low.removal_fits(admin, a));
    assert!(low.removal_fits(a, b));
    assert!(low.removal_fits(admin, id(7)));
}

#[test]
fn removal_is_refused_where_the_reputations_differ() {
    let (admin, a, b) = (id(0), id(1), id(2));
    let mut ledger = ledger_with(admin, &[a, b]);
    assert!(ledger.vote(a, b, TypeVote::Like).is_ok());
    let mut parts = ledger.to_parts();
    parts.mirror[1].reputation = 3;
    let mut odd = Voting::from_parts(parts).unwrap();
    assert_eq!(odd.get_reputation(b, b), Ok(2));
    assert_eq!(odd.get_reputation_mirror(b), Ok(3));
    assert!(odd.removal_fits(admin, b));
    assert_eq!(odd.remove_voter(admin, b), Err(Error::NoEqualReputation));
    assert!(odd.is_voter(b));
    assert_eq!(odd.total_power(), 2);
    assert_eq!(odd.mirror_entries().len(), 2);
    // the other voter's reputations agree
    assert_eq!(odd.remove_voter(admin, a), Ok(RemoveVoter { voter_id: a, total_power: 2 }));
    // a vote writes both reputations anew
    assert!(odd.add_voter(admin, a).is_ok());
    assert!(odd.vote(a, b, TypeVote::Unlike).is_ok());
    assert_eq!(odd.get_reputation(b, b), Ok(3));
    assert_eq!(odd.get_reputation_mirror(b), Ok(3));
}

#[test]
fn transfer_fits_while_the_balance_can_take() {
    let (admin, a) = (id(0), id(1));
    let mut ledger = ledger_with(admin, &[a]);
    assert!(ledger.transfer_fits(admin, u128::MAX, a, u128::MAX));
    assert!(ledger.transfer_admin_to(admin, u128::MAX, a, u128::MAX).is_ok());
    assert_eq!(ledger.get_balance(a), Ok(u128::MAX));
    assert!(ledger.transfer_fits(admin, 1, a, 0));
    assert!(!ledger.transfer_fits(admin, 1, a, 1));
    // what is refused fits
    assert!(ledger.transfer_fits(admin, 0, a, 1));
    assert!(ledger.transfer_fits(a, 1, a, 1));
}

#[test]
fn round_fits_while_the_deadline_can_be_shown() {
    let mut ledger = Voting::new(id(0), 0);
    assert!(ledger.round_fits());
    assert_eq!(ledger.init_round(u64::MAX - 60_000), Ok(()));
    assert!(ledger.round_fits());
    assert_eq!(ledger.get_remaining_time(u64::MAX), Ok(0));
    let mut late = Voting::new(id(0), 0);
    assert_eq!(late.init_round(u64::MAX - 59_999), Ok(()));
    assert!(!late.round_fits());
}

#[test]
fn parts_round_trip() {
    let (admin, a, b, c) = (id(0), id(1), id(2), id(3));
    let mut ledger = ledger_with(admin, &[a, b, c]);
    assert!(ledger.vote(a, b, TypeVote::Like).is_ok());
    assert!(ledger.vote(b, c, TypeVote::Unlike).is_ok());
    assert!(ledger.transfer_admin_to(admin, 10, c, 7).is_ok());
    assert_eq!(ledger.init_round(123), Ok(()));
    assert_eq!(ledger.ranking(), Ok(30));
    let parts = ledger.to_parts();
    assert_eq!(parts.admin.address, admin);
    assert_eq!(parts.total_power, 32);
    assert_eq!(parts.total_votes, 2);
    assert!(parts.roundstarted);
    assert_eq!(parts.round.start_time, 123);
    assert_eq!(parts.balances, vec![(c, 7)]);
    assert_eq!(parts.voters.len(), 3);
    assert!(parts.voters.contains(&(b, Voter { upvotes: 2, downvotes: 0 })));
    assert!(parts.voters.contains(&(c, Voter { upvotes: 0, downvotes: 30 })));
    assert_eq!(parts.mirror, ledger.mirror_entries());
    let again = Voting::from_parts(parts).unwrap();
    assert_eq!(again.mirror_entries(), ledger.mirror_entries());
    for v in [a, b, c] {
        assert_eq!(again.voter(v), ledger.voter(v));
        assert_eq!(again.get_balance(v), ledger.get_balance(v));
    }
    assert_eq!(again.total_power(), 32);
    assert_eq!(again.total_votes(), 2);
    assert_eq!(again.admin(), ledger.admin());
    assert_eq!(again.round(), ledger.round());
    assert!(again.round_started());
}

#[test]
fn parts_out_of_step_make_no_ledger() {
    let (admin, a, b) = (id(0), id(1), id(2));
    let ledger = ledger_with(admin, &[a, b]);
    assert!(Voting::from_parts(ledger.to_parts()).is_some());

    // a voter twice in the lookup table
    let mut parts = ledger.to_parts();
    parts.voters.push((a, Voter { upvotes: 0, downvotes: 0 }));
    assert!(Voting::from_parts(parts).is_none());
    // a voter twice in the mirror list
    let mut parts = ledger.to_parts();
    parts.mirror.push(Votermirror { voter_id: b, reputation: 0 });
    assert!(Voting::from_parts(parts).is_none());
    // a voter in the mirror list alone
    let mut parts = ledger.to_parts();
    parts.mirror.push(Votermirror { voter_id: id(9), reputation: 0 });
    assert!(Voting::from_parts(parts).is_none());
    // a voter in the lookup table alone
    let mut parts = ledger.to_parts();
    parts.mirror.pop();
    assert!(Voting::from_parts(parts).is_none());
    // an account twice among the balances
    let mut parts = ledger.to_parts();
    parts.balances = vec![(a, 1), (b, 2), (a, 3)];
    assert!(Voting::from_parts(parts).is_none());
    // magnitudes out of range
    for voter in [
        Voter { upvotes: -1, downvotes: 0 },
        Voter { upvotes: 0, downvotes: -1 },
        Voter { upvotes: i32::MAX, downvotes: 1 },
        Voter { upvotes: 1, downvotes: i32::MAX },
    ] {
        let mut parts = ledger.to_parts();
        parts.voters[0].1 = voter;
        assert!(Voting::from_parts(parts).is_none());
    }
    let mut parts = ledger.to_parts();
    parts.voters[0].1 = Voter { upvotes: i32::MAX, downvotes: 0 };
    assert!(Voting::from_parts(parts).is_some());
}

#[test]
fn total_power_is_the_sum_of_the_reputations() {
    let (admin, a, b, c) = (id(0), id(1), id(2), id(3));
    let mut ledger = ledger_with(admin, &[a, b, c]);
    let sum = |ledger: &Voting| -> i32 {
        ledger.mirror_entries().iter().map(|e| e.reputation).sum()
    };
    assert_eq!(ledger.total_power(), sum(&ledger));
    for (from, to, value) in [
        (a, b, TypeVote::Like),
        (b, c, TypeVote::Unlike),
        (c, a, TypeVote::Like),
        (a, c, TypeVote::Like),
        (c, b, TypeVote::Unlike),
        (b, a, TypeVote::Like),
    ] {
        assert!(ledger.vote(from, to, value).is_ok());
        assert_eq!(ledger.total_power(), sum(&ledger));
    }
    assert!(ledger.remove_voter(admin, a).is_ok());
    assert_eq!(ledger.total_power(), sum(&ledger));
    assert!(ledger.add_voter(admin, a).is_ok());
    assert_eq!(ledger.total_power(), sum(&ledger));
    assert!(ledger.total_power() > 0);
    assert!(ledger.removal_fits(admin, b));
}
