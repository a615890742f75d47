use poker_engine::player::Player;
use poker_engine::pots::error::PotError;
use poker_engine::pots::no_limit_pot::NoLimitPot;
use poker_engine::pots::partial_pot::PartialPot;
use std::collections::{BTreeMap, BTreeSet, HashMap, HashSet};

fn seated(stacks: &[u64]) -> HashMap<usize, Player> {
    let mut players = HashMap::new();
    for (id, stack) in stacks.iter().enumerate() {
        players.insert(id, Player::new(id, format!("Player {}", id), *stack));
    }
    players
}

fn posted(stacks: &[u64]) -> NoLimitPot {
    let mut pot = NoLimitPot::new();
    assert_eq!(pot.reset_pot(&seated(stacks), 1, 2, 0, false), Ok(()));
    assert_eq!(pot.post_before_deal(&2), Ok(()));
    pot
}

fn stacks_of(pot: &NoLimitPot) -> Vec<u64> {
    pot.get_all_player_stacks_bets().values().map(|v| v.0).collect()
}

fn bets_of(pot: &NoLimitPot) -> Vec<u64> {
    pot.get_all_player_stacks_bets().values().map(|v| v.1).collect()
}

fn chips(pot: &NoLimitPot) -> u64 {
    pot.pots().iter().map(|p| p.amount).sum::<u64>() + stacks_of(pot).iter().sum::<u64>()
}

fn slice(amount: u64, seats: &[usize]) -> PartialPot {
    PartialPot {
        amount,
        elegible_players: seats.iter().copied().collect(),
    }
}

fn laid(stacks: &[u64], pots: Vec<PartialPot>) -> NoLimitPot {
    let table: BTreeMap<usize, (u64, u64)> = stacks
        .iter()
        .enumerate()
        .map(|(seat, stack)| (seat, (*stack, 0)))
        .collect();
    NoLimitPot::from_parts(pots, table, BTreeSet::new(), None, 0, 2, 1, 2, 0, false).unwrap()
}

#[test]
fn limp_around() {
    let mut pot = posted(&[200, 200, 200, 200]);
    assert_eq!(bets_of(&pot), vec![0, 1, 2, 0]);
    assert_eq!(pot.check_call(&3), Ok(2));
    assert_eq!(pot.check_call(&0), Ok(2));
    assert_eq!(pot.check_call(&1), Ok(2));
    assert_eq!(pot.check_call(&2), Ok(2));
    pot.collect_bets();
    assert_eq!(stacks_of(&pot), vec![198, 198, 198, 198]);
    assert_eq!(pot.pots(), &vec![slice(8, &[0, 1, 2, 3])]);
}

#[test]
fn open_raise() {
    let mut pot = posted(&[200, 200, 200, 200]);
    assert_eq!(pot.check_call(&3), Ok(2));
    assert_eq!(pot.bet_or_shove(&0, 5), Ok(5));
    assert_eq!(pot.check_call(&1), Ok(5));
    assert_eq!(pot.check_call(&2), Ok(5));
    assert_eq!(pot.check_call(&3), Ok(5));
    pot.collect_bets();
    assert_eq!(stacks_of(&pot), vec![195, 195, 195, 195]);
    assert_eq!(pot.pots(), &vec![slice(20, &[0, 1, 2, 3])]);
}

#[test]
fn three_bet_fold() {
    let mut pot = posted(&[200, 200, 200, 200]);
    assert_eq!(pot.check_call(&3), Ok(2));
    assert_eq!(pot.bet_or_shove(&0, 5), Ok(5));
    assert_eq!(pot.check_call(&1), Ok(5));
    assert_eq!(pot.bet_or_shove(&2, 20), Ok(20));
    assert_eq!(pot.fold(&3), Ok(()));
    assert_eq!(pot.check_call(&0), Ok(20));
    assert_eq!(pot.check_call(&1), Ok(20));
    pot.collect_bets();
    assert_eq!(stacks_of(&pot), vec![180, 180, 180, 198]);
    assert_eq!(pot.pots(), &vec![slice(62, &[0, 1, 2])]);
}

#[test]
fn split_main_side_created() {
    let mut pot = NoLimitPot::new();
    assert_eq!(pot.reset_pot(&seated(&[100, 50, 75, 60]), 1, 2, 0, false), Ok(()));
    for seat in 0..4 {
        assert_eq!(pot.set_bet_no_max(&seat, 50), Ok(()));
    }
    pot.collect_bets();
    assert_eq!(
        pot.pots(),
        &vec![slice(200, &[0, 1, 2, 3]), slice(0, &[0, 2, 3])]
    );
    assert_eq!(stacks_of(&pot), vec![50, 0, 25, 10]);
}

#[test]
fn side_pot_distribution_with_dead_seat() {
    let stacks = [0, 100, 400, 25];
    let mut players = seated(&stacks);
    let mut pot = laid(
        &stacks,
        vec![slice(412, &[0, 1, 3]), slice(50, &[1, 3]), slice(0, &[1])],
    );
    let rankings = HashMap::from([(0, 2000), (1, 300), (2, 40), (3, 1700)]);
    let pay = pot.distribute_pot(&mut players, &rankings, &0);
    assert_eq!(pay, HashMap::from([(0, 412), (3, 50)]));
    let after: Vec<u64> = (0..4).map(|seat| players[&seat].stack).collect();
    assert_eq!(after, vec![412, 100, 400, 75]);
}

#[test]
fn odd_chip_split() {
    let stacks = [50, 150, 400, 75];
    let mut players = seated(&stacks);
    let mut pot = laid(&stacks, vec![slice(263, &[0, 3])]);
    let rankings = HashMap::from([(0, 2000), (3, 2000)]);
    let pay = pot.distribute_pot(&mut players, &rankings, &0);
    assert_eq!(pay, HashMap::from([(0, 131), (3, 132)]));
}

#[test]
fn under_min_all_in_does_not_reopen() {
    let mut pot = posted(&[100, 100, 4, 100]);
    assert_eq!(pot.check_call(&3), Ok(2));
    assert_eq!(pot.bet_or_shove(&0, 6), Ok(6));
    assert_eq!(pot.bet_diff(), 4);
    assert_eq!(pot.get_largest_bet_idxes(), Some((0, 0)));
    assert_eq!(pot.check_call(&1), Ok(6));
    assert_eq!(pot.bet_or_shove(&2, 4), Ok(4));
    assert_eq!(pot.get_largest_bet_idxes(), Some((2, 0)));
    assert_eq!(pot.bet_diff(), 4);
    assert_eq!(pot.largest_bet(), 6);
    assert_eq!(pot.check_call(&3), Ok(6));
    assert_eq!(pot.get_largest_bet_idxes(), Some((2, 0)));
    for capped in 0..3 {
        assert!(!pot.can_pos_raise(&capped));
        assert_eq!(pot.bet_or_shove(&capped, 14), Err(PotError::CappedAction));
    }
    assert!(pot.can_pos_raise(&3));
}

#[test]
fn capped_seats_lie_between_last_raise_and_all_in() {
    let mut pot = posted(&[100, 100, 4, 100]);
    pot.check_call(&3).unwrap();
    pot.bet_or_shove(&0, 6).unwrap();
    pot.check_call(&1).unwrap();
    pot.bet_or_shove(&2, 4).unwrap();
    assert!(!pot.can_pos_raise(&0));
    assert!(!pot.can_pos_raise(&1));
    assert!(!pot.can_pos_raise(&2));
    assert!(pot.can_pos_raise(&3));
    assert_eq!(pot.bet_or_shove(&1, 50), Err(PotError::CappedAction));
    assert_eq!(pot.bet_or_shove(&3, 10), Ok(10));
    assert_eq!(pot.get_largest_bet_idxes(), Some((3, 3)));
    assert!(pot.can_pos_raise(&1));
}

#[test]
fn an_all_in_counts_for_what_it_commits() {
    let mut pot = posted(&[100, 100, 100, 8]);
    pot.bet_or_shove(&0, 6).unwrap();
    assert_eq!(pot.bet_or_shove(&3, 14), Ok(8));
    assert_eq!(pot.largest_bet(), 8);
    assert_eq!(pot.bet_diff(), 2);
    assert_eq!(pot.get_largest_bet_idxes(), Some((3, 3)));
    let mut short = posted(&[100, 100, 100, 8]);
    short.bet_or_shove(&0, 6).unwrap();
    assert_eq!(short.bet_or_shove(&3, 8), Ok(8));
    assert_eq!(short.largest_bet(), 8);
    assert_eq!(short.bet_diff(), 4);
    assert_eq!(short.get_largest_bet_idxes(), Some((3, 0)));
    let mut under = posted(&[100, 100, 100, 5]);
    under.bet_or_shove(&0, 6).unwrap();
    assert_eq!(under.bet_or_shove(&3, 1000), Ok(5));
    assert_eq!(under.largest_bet(), 6);
    assert_eq!(under.bet_diff(), 4);
    assert_eq!(under.get_largest_bet_idxes(), Some((3, 0)));
}

#[test]
fn round_closure_starts_a_fresh_round() {
    let mut pot = posted(&[200, 200, 200, 200]);
    pot.check_call(&3).unwrap();
    pot.bet_or_shove(&0, 9).unwrap();
    pot.check_call(&1).unwrap();
    pot.check_call(&2).unwrap();
    pot.check_call(&3).unwrap();
    assert!(pot.are_all_bets_good(0));
    pot.collect_bets();
    assert_eq!(pot.largest_bet(), 0);
    assert_eq!(pot.bet_diff(), 2);
    assert_eq!(pot.get_largest_bet_idxes(), None);
    assert!(!pot.are_all_bets_good(0));
    assert_eq!(pot.bet_sizes(), &BTreeSet::new());
    assert_eq!(pot.check_call(&1), Ok(0));
    assert_eq!(pot.bet_or_shove(&2, 1), Err(PotError::BetTooSmall { bet: 1, min_raise: 2 }));
    assert_eq!(pot.bet_or_shove(&2, 2), Ok(2));
}

#[test]
fn chips_are_conserved_through_a_hand() {
    let mut pot = NoLimitPot::new();
    let mut players = seated(&[100, 37, 250, 60]);
    pot.reset_pot(&players, 5, 10, 1, false).unwrap();
    assert_eq!(chips(&pot), 447);
    pot.post_before_deal(&1).unwrap();
    assert_eq!(chips(&pot), 447);
    pot.bet_or_shove(&2, 40).unwrap();
    pot.check_call(&3).unwrap();
    pot.fold(&0).unwrap();
    pot.check_call(&1).unwrap();
    assert_eq!(chips(&pot), 447);
    pot.collect_bets();
    assert_eq!(chips(&pot), 447);
    assert_eq!(bets_of(&pot), vec![0, 0, 0, 0]);
    let in_pots: u64 = pot.pots().iter().map(|p| p.amount).sum();
    let left: u64 = stacks_of(&pot).iter().sum();
    assert_eq!(in_pots, 447 - left);
    assert_eq!(
        pot.pots(),
        &vec![slice(117, &[1, 2, 3]), slice(8, &[2, 3])]
    );
    for (seat, entry) in pot.get_all_player_stacks_bets() {
        players.get_mut(seat).unwrap().stack = entry.0;
    }
    let rankings = HashMap::from([(1, 9), (2, 3), (3, 5)]);
    let pay = pot.distribute_pot(&mut players, &rankings, &0);
    assert_eq!(pay, HashMap::from([(1, 117), (3, 8)]));
    let total: u64 = players.values().map(|p| p.stack).sum();
    assert_eq!(total, 447);
    assert!(pot.pots().iter().all(|p| p.amount == 0));
}

#[test]
fn eligibility_only_shrinks_along_the_slices() {
    let mut pot = NoLimitPot::new();
    pot.reset_pot(&seated(&[100, 20, 75, 5, 300]), 1, 2, 0, false).unwrap();
    for seat in 0..5 {
        pot.set_bet_no_max(&seat, 90).unwrap();
    }
    pot.collect_bets();
    pot.fold(&2).unwrap();
    let pots = pot.pots();
    assert_eq!(pots.len(), 4);
    for later in 1..pots.len() {
        assert!(pots[later]
            .elegible_players
            .is_subset(&pots[later - 1].elegible_players));
    }
    assert!(pots.iter().all(|p| !p.elegible_players.contains(&2)));
}

#[test]
fn odd_chips_go_clockwise_from_the_left_of_the_button() {
    let stacks = [10, 10, 10, 10, 10];
    let rankings = HashMap::from([(0, 7), (1, 7), (3, 7), (4, 7), (2, 1)]);
    let mut pot = laid(&stacks, vec![slice(14, &[0, 1, 2, 3, 4])]);
    let pay = pot.distribute_pot(&mut seated(&stacks), &rankings, &1);
    assert_eq!(pay, HashMap::from([(3, 4), (4, 4), (0, 3), (1, 3)]));
    let mut pot = laid(&stacks, vec![slice(15, &[0, 1, 2, 3, 4])]);
    let pay = pot.distribute_pot(&mut seated(&stacks), &rankings, &3);
    assert_eq!(pay, HashMap::from([(4, 4), (0, 4), (1, 4), (3, 3)]));
    let mut pot = laid(&stacks, vec![slice(3, &[0, 1, 2, 3, 4])]);
    let pay = pot.distribute_pot(&mut seated(&stacks), &rankings, &4);
    assert_eq!(pay, HashMap::from([(0, 1), (1, 1), (3, 1), (4, 0)]));
}

#[test]
fn slices_without_a_ranked_seat_stay_in_the_pot() {
    let stacks = [10, 10, 10];
    let mut players = seated(&stacks);
    let mut pot = laid(&stacks, vec![slice(30, &[0, 1]), slice(8, &[1])]);
    let rankings = HashMap::from([(0, 5)]);
    let pay = pot.distribute_pot(&mut players, &rankings, &0);
    assert_eq!(pay, HashMap::from([(0, 30)]));
    assert_eq!(pot.pots(), &vec![slice(0, &[0, 1]), slice(8, &[1])]);
    assert_eq!(players[&0].stack, 40);
    assert_eq!(players[&1].stack, 10);
}

#[test]
fn reset_refuses_bad_stakes() {
    let players = seated(&[10, 10]);
    let mut pot = NoLimitPot::new();
    assert_eq!(pot.reset_pot(&players, 1, 2, 0, true), Err(PotError::BombPotWithoutAnte));
    assert_eq!(pot.reset_pot(&players, 0, 2, 0, false), Err(PotError::ZeroBlind));
    assert_eq!(pot.reset_pot(&players, 1, 0, 0, false), Err(PotError::ZeroBlind));
    assert_eq!(pot.reset_pot(&players, 3, 2, 0, false), Err(PotError::SmallBlindAboveBigBlind));
    let rich = seated(&[u64::MAX, 1]);
    assert_eq!(pot.reset_pot(&rich, 1, 2, 0, false), Err(PotError::TooManyChips));
    assert_eq!(pot, NoLimitPot::new());
    assert_eq!(pot.reset_pot(&seated(&[u64::MAX - 1, 1]), 1, 2, 0, false), Ok(()));
}

#[test]
fn reset_leaves_out_players_who_are_away() {
    let mut players = seated(&[10, 20, 30]);
    players.get_mut(&1).unwrap().is_away = true;
    let mut pot = laid(&[5, 5], vec![slice(9, &[0, 1])]);
    assert_eq!(pot.reset_pot(&players, 2, 4, 1, false), Ok(()));
    assert!(pot.pots().is_empty());
    assert_eq!(
        pot.get_all_player_stacks_bets(),
        &BTreeMap::from([(0, (10, 0)), (2, (30, 0))])
    );
    assert_eq!(pot.stakes(), (2, 4, 1));
    assert_eq!(pot.bet_diff(), 4);
    assert_eq!(pot.min_raise(), 4);
}

#[test]
fn blinds_need_entrants() {
    let mut pot = NoLimitPot::new();
    pot.reset_pot(&HashMap::new(), 1, 2, 0, false).unwrap();
    assert_eq!(pot.post_before_deal(&0), Err(PotError::NoEntrants));
    assert!(pot.pots().is_empty());
    assert_eq!(pot.post_blind_amt(&0, &1), Err(PotError::InvalidBlindPositions));
}

#[test]
fn blinds_are_capped_and_wrap_round_the_table() {
    let mut pot = NoLimitPot::new();
    let mut players = seated(&[200, 200, 200]);
    players.insert(7, Player::new(7, "Short".to_string(), 1));
    players.insert(9, Player::new(9, "Last".to_string(), 50));
    pot.reset_pot(&players, 3, 6, 0, false).unwrap();
    pot.post_before_deal(&5).unwrap();
    assert_eq!(bets_of(&pot), vec![0, 0, 3, 1, 0]);
    assert_eq!(pot.largest_bet(), 6);
    assert_eq!(pot.bet_sizes(), &BTreeSet::from([1, 3]));
    pot.reset_pot(&players, 3, 6, 0, false).unwrap();
    pot.post_before_deal(&10).unwrap();
    assert_eq!(bets_of(&pot), vec![6, 0, 0, 0, 3]);
}

#[test]
fn unknown_seats_are_refused() {
    let mut pot = posted(&[200, 200, 200, 200]);
    let before = posted(&[200, 200, 200, 200]);
    let unknown = PotError::UnknownSeat { position: 11 };
    assert_eq!(pot.check_call(&11), Err(unknown));
    assert_eq!(pot.bet_or_shove(&11, 50), Err(unknown));
    assert_eq!(pot.set_bet_no_max(&11, 50), Err(unknown));
    assert_eq!(pot.get_player_stack_bet(&11), Err(unknown));
    assert_eq!(pot.get_player_stack_bet(&2), Ok(&(200, 2)));
    assert_eq!(pot, before);
}

#[test]
fn small_bets_are_refused_with_the_reason() {
    let mut pot = posted(&[200, 200, 200, 3]);
    assert_eq!(pot.bet_or_shove(&3, 2), Err(PotError::MustShove { bet: 2 }));
    assert_eq!(pot.bet_or_shove(&0, 3), Err(PotError::BetTooSmall { bet: 3, min_raise: 4 }));
    assert_eq!(pot.bet_or_shove(&3, 3), Ok(3));
    assert_eq!(pot.largest_bet(), 3);
    assert_eq!(pot.bet_diff(), 2);
}

#[test]
fn errors_say_what_went_wrong() {
    assert_eq!(
        PotError::UnknownSeat { position: 40 }.message(),
        "Could not find player stack in position 40"
    );
    assert_eq!(
        PotError::MustShove { bet: 0 }.message(),
        "Bet of 0 is too small (must shove)"
    );
    assert_eq!(
        PotError::BetTooSmall { bet: 1907, min_raise: u64::MAX }.message(),
        "Bet of 1907 is too small (must be at least 18446744073709551615)"
    );
    assert_eq!(
        PotError::CappedAction.message(),
        "You already called the latest legal bet, so you are no longer allowed to raise"
    );
    assert_eq!(PotError::BombPotWithoutAnte.message(), "Ante must be non-zero for bomb pots");
    assert_eq!(PotError::ZeroBlind.message(), "Blinds must be a positive non-zero amount");
    assert_eq!(
        PotError::SmallBlindAboveBigBlind.message(),
        "Small blind cannot be larger than the big blind"
    );
    assert_eq!(PotError::InvalidBlindPositions.message(), "Positions are not valid positions");
}

#[test]
fn states_that_cannot_be_are_not_made() {
    let none = BTreeSet::new;
    let table = BTreeMap::from([(0, (10, 11))]);
    let sizes = BTreeSet::from([11]);
    assert_eq!(NoLimitPot::from_parts(Vec::new(), table, sizes, None, 0, 0, 0, 0, 0, false), None);
    let table = BTreeMap::from([(0, (10, 0))]);
    let pots = vec![slice(1, &[0]), slice(1, &[0, 1])];
    assert_eq!(
        NoLimitPot::from_parts(pots, table.clone(), none(), None, 0, 0, 0, 0, 0, false),
        None
    );
    let pots = vec![slice(u64::MAX, &[0])];
    assert_eq!(
        NoLimitPot::from_parts(pots, table.clone(), none(), None, 0, 0, 0, 0, 0, false),
        None
    );
    let pots = vec![slice(u64::MAX - 10, &[0, 1]), slice(0, &[0])];
    let pot =
        NoLimitPot::from_parts(pots, table, none(), Some((0, 1)), 0, 0, 0, 0, 0, false).unwrap();
    assert_eq!(pot.chips_in_slices(), u64::MAX - 10);
    assert_eq!(pot.bet_sizes(), &BTreeSet::new());
    let eligible: HashSet<usize> = [0].into_iter().collect();
    assert_eq!(pot.pots()[1].elegible_players, eligible);
}

#[test]
fn bet_sizes_that_no_bet_has_are_not_accepted() {
    let table = BTreeMap::from([(0, (10, 4)), (1, (10, 0)), (2, (10, 4)), (3, (10, 7))]);
    let made = |sizes: BTreeSet<u64>| {
        NoLimitPot::from_parts(Vec::new(), table.clone(), sizes, None, 7, 3, 1, 2, 0, false)
    };
    assert_eq!(made(BTreeSet::new()), None);
    assert_eq!(made(BTreeSet::from([4])), None);
    assert_eq!(made(BTreeSet::from([2, 4, 7])), None);
    assert_eq!(made(BTreeSet::from([0, 4, 7])), None);
    let pot = made(BTreeSet::from([4, 7])).unwrap();
    assert_eq!(pot.bet_sizes(), &BTreeSet::from([4, 7]));
}

#[test]
fn a_loser_without_a_player_does_not_stop_the_payout() {
    let mut players = seated(&[10]);
    let mut pot = laid(&[10, 10], vec![slice(10, &[0, 1])]);
    let rankings = HashMap::from([(0, 9), (1, 5)]);
    assert_eq!(
        pot.try_distribute_pot(&mut players, &rankings, &0),
        Some(HashMap::from([(0, 10)]))
    );
    assert_eq!(players[&0].stack, 20);
    let mut pot = laid(&[10, 10], vec![slice(0, &[0, 1])]);
    let rankings = HashMap::from([(0, 5), (1, 9)]);
    assert_eq!(
        pot.try_distribute_pot(&mut players, &rankings, &0),
        Some(HashMap::new())
    );
}

#[test]
fn a_player_filed_under_a_wrong_seat_stops_the_reset() {
    let mut players = seated(&[50, 60]);
    players.insert(2, Player::new(5, "Astray".to_string(), 70));
    let mut pot = NoLimitPot::new();
    assert_eq!(pot.reset_pot(&players, 1, 2, 0, false), Err(PotError::MisplacedPlayer));
    assert_eq!(pot, NoLimitPot::new());
    assert_eq!(pot.reset_pot(&players, 0, 2, 0, false), Err(PotError::ZeroBlind));
    players.get_mut(&2).unwrap().is_away = true;
    assert_eq!(pot.reset_pot(&players, 1, 2, 0, false), Ok(()));
    assert_eq!(stacks_of(&pot), vec![50, 60]);
    assert_eq!(
        PotError::MisplacedPlayer.message(),
        "A player is not at the seat it is filed under"
    );
}

#[test]
fn bet_sizes_are_the_bets_that_stand() {
    let mut pot = posted(&[200, 200, 200, 200]);
    pot.check_call(&1).unwrap();
    assert_eq!(pot.bet_sizes(), &BTreeSet::from([2]));
    pot.bet_or_shove(&3, 30).unwrap();
    pot.set_bet_no_max(&3, 0).unwrap();
    assert_eq!(pot.bet_sizes(), &BTreeSet::from([2]));
    assert!(!pot.is_bomb_pot());
}

#[test]
fn bomb_pot_takes_the_ante_and_no_blinds() {
    let mut pot = NoLimitPot::new();
    pot.reset_pot(&seated(&[50, 300, 120]), 1, 2, 100, true).unwrap();
    assert!(pot.is_bomb_pot());
    pot.post_before_deal(&0).unwrap();
    assert_eq!(pot.largest_bet(), 0);
    assert_eq!(bets_of(&pot), vec![0, 0, 0]);
    assert_eq!(stacks_of(&pot), vec![0, 200, 20]);
    assert_eq!(
        pot.pots(),
        &vec![slice(150, &[0, 1, 2]), slice(100, &[1, 2])]
    );
}

#[test]
fn the_best_hand_wins_where_every_contender_has_a_player() {
    let mut players = seated(&[10]);
    let mut pot = laid(&[10, 10], vec![slice(10, &[0, 1])]);
    let rankings = HashMap::from([(0, 5), (1, 9)]);
    assert_eq!(pot.try_distribute_pot(&mut players, &rankings, &0), None);
    assert_eq!(players[&0].stack, 10);
    assert_eq!(pot.pots(), &vec![slice(10, &[0, 1])]);
    players.insert(1, Player::new(1, "Late".to_string(), 10));
    assert_eq!(
        pot.try_distribute_pot(&mut players, &rankings, &0),
        Some(HashMap::from([(1, 10)]))
    );
    assert_eq!((players[&0].stack, players[&1].stack), (10, 20));
    assert_eq!(pot.pots(), &vec![slice(0, &[0, 1])]);
    assert_eq!(
        pot.try_distribute_pot(&mut players, &rankings, &0),
        Some(HashMap::new())
    );
}

#[test]
fn nothing_is_paid_where_the_chips_would_not_fit() {
    let mut players = seated(&[u64::MAX - 5, 1]);
    let mut pot = laid(&[3, 1], vec![slice(10, &[0, 1])]);
    let rankings = HashMap::from([(0, 5), (1, 9)]);
    assert_eq!(pot.try_distribute_pot(&mut players, &rankings, &0), None);
    assert_eq!(players[&0].stack, u64::MAX - 5);
    assert_eq!(pot.pots(), &vec![slice(10, &[0, 1])]);
    players.get_mut(&0).unwrap().stack = u64::MAX - 11;
    assert_eq!(
        pot.try_distribute_pot(&mut players, &rankings, &0),
        Some(HashMap::from([(1, 10)]))
    );
    players.get_mut(&0).unwrap().stack = u64::MAX;
    assert_eq!(pot.try_distribute_pot(&mut players, &rankings, &0), None);
}
