use poker_engine::player::Player;
use poker_engine::pot::{BetNotHighEnough, Pot as RoundPot};
use poker_engine::pots::error::PotError;
use poker_engine::pots::no_limit_pot::NoLimitPot;
use poker_engine::pots::pot::Pot;
use poker_engine::pots::pot_limit_pot::PotLimitPot;
use std::collections::HashMap;

fn play<P: Pot>(pot: &mut P) -> HashMap<usize, u64> {
    let mut players = HashMap::new();
    for (id, stack) in [30u64, 40, 50].into_iter().enumerate() {
        players.insert(id, Player::new(id, format!("Player {}", id), stack));
    }
    assert_eq!(pot.reset_pot(&players, 1, 2, 0, false), Ok(()));
    assert_eq!(pot.post_before_deal(&1), Ok(()));
    assert!(!pot.is_bomb_pot());
    assert_eq!(pot.get_largest_bet_idxes(), None);
    assert_eq!(pot.bet_or_shove(&2, 8), Ok(8));
    assert_eq!(pot.check_call(&0), Ok(8));
    assert_eq!(pot.fold(&1), Ok(()));
    assert!(pot.are_all_bets_good(2));
    assert!(!pot.are_all_bets_good(0));
    assert_eq!(pot.get_player_stack_bet(&1), Ok(&(40, 2)));
    assert_eq!(pot.check_call(&5), Err(PotError::UnknownSeat { position: 5 }));
    pot.collect_bets();
    assert_eq!(pot.get_all_player_stacks_bets().len(), 3);
    for (seat, entry) in pot.get_all_player_stacks_bets() {
        players.get_mut(seat).unwrap().stack = entry.0;
    }
    let rankings = HashMap::from([(0, 4), (2, 4)]);
    pot.distribute_pot(&mut players, &rankings, &2)
}

#[test]
fn a_no_limit_pot_is_a_pot() {
    let mut pot = NoLimitPot::new();
    assert_eq!(play(&mut pot), HashMap::from([(0, 9), (2, 9)]));
}

#[test]
fn the_highest_bet_must_be_raised_by_the_last_raise() {
    let mut pot = RoundPot::new();
    assert!(pot.are_all_bets_good(0));
    assert_eq!(pot.set_highest_bet(3, 10), Ok(()));
    assert!(pot.are_all_bets_good(3));
    assert!(!pot.are_all_bets_good(0));
    assert_eq!(pot.set_highest_bet(4, 19), Err(BetNotHighEnough {}));
    assert!(pot.are_all_bets_good(3));
    assert_eq!(pot.set_highest_bet(4, 20), Ok(()));
    assert_eq!(pot.set_highest_bet(5, 29), Err(BetNotHighEnough {}));
    assert_eq!(pot.set_highest_bet(5, 45), Ok(()));
    assert_eq!(pot.set_highest_bet(6, 69), Err(BetNotHighEnough {}));
    assert_eq!(pot.set_highest_bet(6, u64::MAX), Ok(()));
    assert_eq!(pot.set_highest_bet(7, u64::MAX), Err(BetNotHighEnough {}));
    assert!(pot.are_all_bets_good(6));
}

#[test]
fn a_pot_limit_pot_can_be_made() {
    let _pot: PotLimitPot = PotLimitPot::new();
}
