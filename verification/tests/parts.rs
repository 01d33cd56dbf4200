use voting::account::AccountId;
use voting::account_map::AccountMap;
use voting::mirror::VoterMirror;
use voting::round::VotingRound;
use voting::store::VoterStore;
use voting::types::{Error, PendingVote, TypeVote, Voter, Votermirror};
use voting::voting::Voting;
use voting::votinground::Votinground;
use voting::votingtraits::Votingtraits;
use voting::weight::weight;

fn account(n: u8) -> AccountId {
    AccountId::new([n; 32])
}

#[test]
fn accounts_compare_by_their_bytes() {
    let mut bytes = [0u8; 32];
    let zero = AccountId::new(bytes);
    bytes[31] = 1;
    let last = AccountId::new(bytes);
    bytes[31] = 0;
    bytes[0] = 1;
    let first = AccountId::new(bytes);
    assert_eq!(zero, AccountId::new([0u8; 32]));
    assert_ne!(zero, last);
    assert_ne!(zero, first);
    assert_ne!(first, last);
    assert_eq!(first.bytes[0], 1);
}

#[test]
fn weight_tier_boundaries() {
    assert_eq!(weight(0, 100), 1);
    assert_eq!(weight(1, 100), 10);
    assert_eq!(weight(33, 100), 10);
    assert_eq!(weight(34, 100), 20);
    assert_eq!(weight(66, 100), 20);
    assert_eq!(weight(67, 100), 30);
    assert_eq!(weight(100, 100), 30);
    assert_eq!(weight(1000, 100), 30);
}

#[test]
fn weight_without_power_is_one() {
    assert_eq!(weight(0, 0), 1);
    assert_eq!(weight(5, 0), 1);
    assert_eq!(weight(-5, 0), 1);
    assert_eq!(weight(i32::MAX, 0), 1);
    assert_eq!(weight(i32::MIN, 0), 1);
}

#[test]
fn weight_of_a_negative_share_is_thirty() {
    assert_eq!(weight(-1, 100), 30);
    assert_eq!(weight(1, -100), 30);
    assert_eq!(weight(-50, 100), 30);
    assert_eq!(weight(50, -100), 30);
    // two negatives give a positive share
    assert_eq!(weight(-50, -100), 20);
    assert_eq!(weight(-1, -100), 10);
}

#[test]
fn weight_rounds_the_share_toward_zero() {
    assert_eq!(weight(1, 200), 1);
    assert_eq!(weight(1, 101), 1);
    assert_eq!(weight(-1, 200), 1);
    assert_eq!(weight(1, -200), 1);
    assert_eq!(weight(-3, 200), 30);
    assert_eq!(weight(2, 200), 10);
    assert_eq!(weight(67, 200), 10);
    assert_eq!(weight(68, 200), 20);
    assert_eq!(weight(133, 200), 20);
    assert_eq!(weight(134, 200), 30);
}

#[test]
fn weight_at_the_edge_of_the_range() {
    assert_eq!(weight(21_474_836, 1), 30);
    assert_eq!(weight(-21_474_836, 1), 30);
    assert_eq!(weight(21_474_836, i32::MAX), 1);
    assert_eq!(weight(21_474_836, i32::MIN), 1);
    assert_eq!(weight(21_474_836, -1), 30);
}

#[test]
fn account_map_sets_and_removes() {
    let mut map: AccountMap<u64> = AccountMap::new();
    assert!(!map.contains(account(1)));
    assert_eq!(map.get(account(1)), None);
    map.insert(account(1), 10);
    map.insert(account(2), 20);
    assert!(map.contains(account(1)));
    assert_eq!(map.get(account(1)), Some(10));
    assert_eq!(map.get(account(2)), Some(20));
    map.insert(account(1), 11);
    assert_eq!(map.get(account(1)), Some(11));
    assert_eq!(map.remove(account(1)), Some(11));
    assert_eq!(map.remove(account(1)), None);
    assert_eq!(map.get(account(1)), None);
    assert_eq!(map.get(account(2)), Some(20));
}

#[test]
fn store_registers_each_voter_once() {
    let mut store = VoterStore::new();
    assert_eq!(store.lookup(account(1)), None);
    assert_eq!(store.register(account(1)), Ok(()));
    assert!(store.contains(account(1)));
    assert_eq!(store.lookup(account(1)), Some(Voter { upvotes: 0, downvotes: 0 }));
    assert_eq!(store.register(account(1)), Err(Error::VoterAlreadyExists));
}

#[test]
fn store_updates_only_what_is_there() {
    let mut store = VoterStore::new();
    assert_eq!(store.register(account(1)), Ok(()));
    store.update(account(1), Voter { upvotes: 4, downvotes: 3 });
    assert_eq!(store.lookup(account(1)), Some(Voter { upvotes: 4, downvotes: 3 }));
    store.update(account(2), Voter { upvotes: 1, downvotes: 1 });
    assert!(!store.contains(account(2)));
    assert_eq!(store.lookup(account(2)), None);
}

#[test]
fn store_removes_what_is_there() {
    let mut store = VoterStore::new();
    assert_eq!(store.remove(account(1)), Err(Error::VoterNotExist));
    assert_eq!(store.register(account(1)), Ok(()));
    assert_eq!(store.register(account(2)), Ok(()));
    assert_eq!(store.remove(account(1)), Ok(()));
    assert!(!store.contains(account(1)));
    assert!(store.contains(account(2)));
    assert_eq!(store.remove(account(1)), Err(Error::VoterNotExist));
}

#[test]
fn mirror_appends_at_the_end() {
    let mut mirror = VoterMirror::new();
    assert_eq!(mirror.len(), 0);
    assert_eq!(mirror.index_of(account(1)), None);
    mirror.append(account(1));
    mirror.append(account(2));
    assert_eq!(mirror.len(), 2);
    assert_eq!(mirror.index_of(account(1)), Some(0));
    assert_eq!(mirror.index_of(account(2)), Some(1));
    assert_eq!(mirror.index_of(account(3)), None);
    assert_eq!(mirror.entry_at(1), Votermirror { voter_id: account(2), reputation: 0 });
}

#[test]
fn mirror_index_is_the_first_match() {
    let mut mirror = VoterMirror::new();
    mirror.append(account(1));
    mirror.append(account(2));
    mirror.append(account(2));
    assert_eq!(mirror.index_of(account(2)), Some(1));
}

#[test]
fn mirror_remove_shifts_left() {
    let mut mirror = VoterMirror::new();
    for n in 1..=4 {
        mirror.append(account(n));
    }
    mirror.update_reputation_at(3, 9);
    mirror.remove_at(1);
    assert_eq!(
        mirror.entries(),
        vec![
            Votermirror { voter_id: account(1), reputation: 0 },
            Votermirror { voter_id: account(3), reputation: 0 },
            Votermirror { voter_id: account(4), reputation: 9 },
        ]
    );
    assert_eq!(mirror.index_of(account(4)), Some(2));
    mirror.remove_at(2);
    mirror.remove_at(0);
    assert_eq!(mirror.entries(), vec![Votermirror { voter_id: account(3), reputation: 0 }]);
}

#[test]
fn mirror_update_changes_one_reputation() {
    let mut mirror = VoterMirror::new();
    mirror.append(account(1));
    mirror.append(account(2));
    mirror.update_reputation_at(1, -7);
    assert_eq!(
        mirror.entries(),
        vec![
            Votermirror { voter_id: account(1), reputation: 0 },
            Votermirror { voter_id: account(2), reputation: -7 },
        ]
    );
}

#[test]
fn mirror_sorts_descending() {
    let mut mirror = VoterMirror::new();
    let reputations = [5, 40, 12];
    for (i, r) in reputations.iter().enumerate() {
        mirror.append(account(i as u8 + 1));
        mirror.update_reputation_at(i, *r);
    }
    mirror.sort_descending_by_reputation();
    assert_eq!(
        mirror.entries(),
        vec![
            Votermirror { voter_id: account(2), reputation: 40 },
            Votermirror { voter_id: account(3), reputation: 12 },
            Votermirror { voter_id: account(1), reputation: 5 },
        ]
    );
}

#[test]
fn mirror_sort_is_stable() {
    let mut mirror = VoterMirror::new();
    let reputations = [3, -1, 7, 3, 7, -1, 3, 0, i32::MIN, i32::MAX, 7];
    for (i, r) in reputations.iter().enumerate() {
        mirror.append(account(i as u8));
        mirror.update_reputation_at(i, *r);
    }
    mirror.sort_descending_by_reputation();
    let order: Vec<(u8, i32)> =
        mirror.entries().iter().map(|e| (e.voter_id.bytes[0], e.reputation)).collect();
    assert_eq!(
        order,
        vec![
            (9, i32::MAX),
            (2, 7),
            (4, 7),
            (10, 7),
            (0, 3),
            (3, 3),
            (6, 3),
            (7, 0),
            (1, -1),
            (5, -1),
            (8, i32::MIN),
        ]
    );
    // sorting what is sorted changes nothing
    let before = mirror.entries();
    mirror.sort_descending_by_reputation();
    assert_eq!(mirror.entries(), before);
}

#[test]
fn mirror_sorts_short_lists() {
    let mut mirror = VoterMirror::new();
    mirror.sort_descending_by_reputation();
    assert!(mirror.entries().is_empty());
    mirror.append(account(1));
    mirror.sort_descending_by_reputation();
    assert_eq!(mirror.entries(), vec![Votermirror { voter_id: account(1), reputation: 0 }]);
}

#[test]
fn voting_round_counts_down() {
    let round = VotingRound::new(100, 50);
    assert_eq!(round.start_time, 100);
    assert_eq!(round.duration, 50);
    assert_eq!(round.get_remaining_time(100), 50);
    assert_eq!(round.get_remaining_time(120), 30);
    assert_eq!(round.get_remaining_time(149), 1);
    assert_eq!(round.get_remaining_time(150), 0);
    assert_eq!(round.get_remaining_time(1_000), 0);
    // a clock that reads before the start
    assert_eq!(round.get_remaining_time(90), 60);
}

#[test]
fn voting_round_expires_at_the_deadline() {
    let round = VotingRound::new(100, 50);
    assert!(!round.has_round_expired(0));
    assert!(!round.has_round_expired(149));
    assert!(round.has_round_expired(150));
    assert!(round.has_round_expired(151));
    let none = VotingRound::new(7, 0);
    assert!(none.has_round_expired(7));
    assert!(!none.has_round_expired(6));
    assert_eq!(none.get_remaining_time(7), 0);
    assert!(none.deadline_fits());
    let last = VotingRound::new(u64::MAX - 1, 1);
    assert!(last.deadline_fits());
    assert!(!VotingRound::new(u64::MAX, 1).deadline_fits());
    assert!(!VotingRound::new(1, u64::MAX).deadline_fits());
    assert!(VotingRound::new(0, u64::MAX).deadline_fits());
    assert!(!last.has_round_expired(u64::MAX - 1));
    assert!(last.has_round_expired(u64::MAX));
    assert_eq!(last.get_remaining_time(0), u64::MAX);
}

#[test]
fn votingtraits_vote_and_read() {
    let (admin, a, b) = (account(0), account(1), account(2));
    let mut ledger = Voting::new(admin, 0);
    assert!(ledger.add_voter(admin, a).is_ok());
    assert!(ledger.add_voter(admin, b).is_ok());
    assert_eq!(
        Votingtraits::vote(&mut ledger, a, b, TypeVote::Like),
        Ok(PendingVote { voter: a, votation: TypeVote::Like })
    );
    assert_eq!(Votingtraits::get_reputation(&ledger, b, b), Ok(2));
    assert_eq!(ledger.total_votes(), 1);
}

#[test]
fn votinground_starts_and_reads_the_round() {
    let mut ledger = Voting::new(account(0), 0);
    assert_eq!(Votinground::get_remaining_time(&mut ledger, 5), Err(Error::RoundNotStarted));
    assert_eq!(Votinground::has_round_expired(&mut ledger, 5), Err(Error::RoundNotStarted));
    assert_eq!(Votinground::init_round(&mut ledger, 10), Ok(()));
    assert_eq!(Votinground::get_remaining_time(&mut ledger, 15), Ok(59_995));
    assert_eq!(Votinground::has_round_expired(&mut ledger, 15), Ok(false));
    assert_eq!(Votinground::has_round_expired(&mut ledger, 60_010), Ok(true));
}
