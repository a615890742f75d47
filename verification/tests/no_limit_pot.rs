use poker_engine::player::Player;
use poker_engine::pots::no_limit_pot::NoLimitPot;
use poker_engine::pots::partial_pot::PartialPot;
use rand::Rng;
use std::collections::{BTreeMap, BTreeSet, HashMap, HashSet};

fn with_pots(pot: &NoLimitPot, pots: Vec<PartialPot>) -> NoLimitPot {
    let (sb, bb, ante) = pot.stakes();
    NoLimitPot::from_parts(
        pots,
        pot.get_all_player_stacks_bets().clone(),
        pot.bet_sizes().clone(),
        pot.get_largest_bet_idxes(),
        pot.largest_bet(),
        pot.bet_diff(),
        sb,
        bb,
        ante,
        pot.is_bomb_pot(),
    )
    .unwrap()
}

fn with_idxes(pot: &NoLimitPot, idxes: Option<(usize, usize)>) -> NoLimitPot {
    let (sb, bb, ante) = pot.stakes();
    NoLimitPot::from_parts(
        Vec::new(),
        pot.get_all_player_stacks_bets().clone(),
        pot.bet_sizes().clone(),
        idxes,
        pot.largest_bet(),
        pot.bet_diff(),
        sb,
        bb,
        ante,
        pot.is_bomb_pot(),
    )
    .unwrap()
}


#[test]
fn basic_reset() {
    let mut players = HashMap::<usize, Player>::new();
    let mut pot = NoLimitPot::new();

    let starting_stacks = [500, 400, 750, 220];

    for id in 0..4 {
        players.insert(id, Player::new(id, format!("Player {}", id), starting_stacks[id]));
    }

    let sb = 10;
    let bb = 20;
    let ante = 2;
    let is_bomb = false;

    assert_eq!(pot.reset_pot(&players, sb, bb, ante, is_bomb), Ok(()));

    let expected_pot = NoLimitPot::from_parts(
        Vec::new(),
        BTreeMap::from([
            (0, (500, 0)),
            (1, (400, 0)),
            (2, (750, 0)),
            (3, (220, 0)),
        ]),
        BTreeSet::new(),
        None,
        0,
        bb,
        sb,
        bb,
        ante,
        is_bomb,
    )
    .unwrap();

    assert_eq!(&BTreeSet::new(), pot.bet_sizes());
    assert_eq!(expected_pot, pot);
}

#[test]
fn basic_post_blinds() {
    let mut players = HashMap::<usize, Player>::new();
    let mut pot = NoLimitPot::new();

    let starting_stacks = [200, 200, 200, 200];

    for id in 0..4 {
        players.insert(id, Player::new(id, format!("Player {}", id), starting_stacks[id]));
    }

    let sb = 1;
    let bb = 2;
    let ante = 0;
    let is_bomb = false;

    assert_eq!(pot.reset_pot(&players, sb, bb, ante, is_bomb), Ok(()));

    let bb_idx = 2;
    assert_eq!(pot.post_before_deal(&bb_idx), Ok(()));

    let expected_pot = NoLimitPot::from_parts(
        vec![
            PartialPot {
                amount: 0,
                elegible_players: HashSet::from([0, 1, 2, 3]),
            },
        ],
        BTreeMap::from([
            (0, (200, 0)),
            (1, (200, 1)),
            (2, (200, 2)),
            (3, (200, 0)),
        ]),
        BTreeSet::from([1, 2]),
        None,
        bb,
        bb,
        sb,
        bb,
        ante,
        is_bomb,
    )
    .unwrap();

    assert_eq!(&BTreeSet::from([1, 2]), pot.bet_sizes());
    assert_eq!(expected_pot, pot);
}

#[test]
fn post_blinds_with_ante() {
    let mut players = HashMap::<usize, Player>::new();
    let mut pot = NoLimitPot::new();

    let starting_stacks = [2000, 2000, 2000, 2000];

    for id in 0..4 {
        players.insert(id, Player::new(id, format!("Player {}", id), starting_stacks[id]));
    }

    let sb = 10;
    let bb = 20;
    let ante = 2;
    let is_bomb = false;

    assert_eq!(pot.reset_pot(&players, sb, bb, ante, is_bomb), Ok(()));

    let bb_idx = 2;
    assert_eq!(pot.post_before_deal(&bb_idx), Ok(()));

    let expected_pot = NoLimitPot::from_parts(
        vec![
            PartialPot {
                amount: 8,
                elegible_players: HashSet::from([0, 1, 2, 3]),
            },
        ],
        BTreeMap::from([
            (0, (1998, 0)),
            (1, (1998, 10)),
            (2, (1998, 20)),
            (3, (1998, 0)),
        ]),
        BTreeSet::from([10, 20]),
        None,
        bb,
        bb,
        sb,
        bb,
        ante,
        is_bomb,
    )
    .unwrap();

    assert_eq!(&BTreeSet::from([10, 20]), pot.bet_sizes());
    assert_eq!(expected_pot, pot);
}

#[test]
fn post_bomb_pot_ante() {
    let mut players = HashMap::<usize, Player>::new();
    let mut pot = NoLimitPot::new();

    let starting_stacks = [2000, 2000, 2000, 2000];

    for id in 0..4 {
        players.insert(id, Player::new(id, format!("Player {}", id), starting_stacks[id]));
    }

    let sb = 10;
    let bb = 20;
    let ante = 100;
    let is_bomb = true;

    assert_eq!(pot.reset_pot(&players, sb, bb, ante, is_bomb), Ok(()));

    let bb_idx = 2;
    assert_eq!(pot.post_before_deal(&bb_idx), Ok(()));

    let expected_pot = NoLimitPot::from_parts(
        vec![
            PartialPot {
                amount: 400,
                elegible_players: HashSet::from([0, 1, 2, 3]),
            },
        ],
        BTreeMap::from([
            (0, (1900, 0)),
            (1, (1900, 0)),
            (2, (1900, 0)),
            (3, (1900, 0)),
        ]),
        BTreeSet::new(),
        None,
        0,
        bb,
        sb,
        bb,
        ante,
        is_bomb,
    )
    .unwrap();

    assert_eq!(&BTreeSet::new(), pot.bet_sizes());
    assert_eq!(expected_pot, pot);
}

#[test]
fn advanced_post_blinds() {
    let mut players = HashMap::<usize, Player>::new();
    let mut pot = NoLimitPot::new();

    let starting_stacks = [200, 200, 200, 200];

    for id in 0..4 {
        players.insert(id, Player::new(id, format!("Player {}", id), starting_stacks[id]));
    }

    let sb = 1;
    let bb = 2;
    let ante = 0;
    let is_bomb = false;

    assert_eq!(pot.reset_pot(&players, sb, bb, ante, is_bomb), Ok(()));

    let bb_idx = 0;
    assert_eq!(pot.post_before_deal(&bb_idx), Ok(()));

    let expected_pot = NoLimitPot::from_parts(
        vec![
            PartialPot {
                amount: 0,
                elegible_players: HashSet::from([0, 1, 2, 3]),
            },
        ],
        BTreeMap::from([
            (0, (200, 2)),
            (1, (200, 0)),
            (2, (200, 0)),
            (3, (200, 1)),
        ]),
        BTreeSet::from([1, 2]),
        None,
        bb,
        bb,
        sb,
        bb,
        ante,
        is_bomb,
    )
    .unwrap();

    assert_eq!(&BTreeSet::from([1, 2]), pot.bet_sizes());
    assert_eq!(expected_pot, pot);
}

#[test]
fn basic_call_preflop() {
    let mut players = HashMap::<usize, Player>::new();
    let mut pot = NoLimitPot::new();

    let starting_stacks = [200, 200, 200, 200];

    for id in 0..4 {
        players.insert(id, Player::new(id, format!("Player {}", id), starting_stacks[id]));
    }

    let sb = 1;
    let bb = 2;
    let ante = 0;
    let is_bomb = false;

    assert_eq!(pot.reset_pot(&players, sb, bb, ante, is_bomb), Ok(()));

    let bb_idx = 2;
    assert_eq!(pot.post_before_deal(&bb_idx), Ok(()));

    assert_eq!(pot.check_call(&3), Ok(2));
    assert_eq!(pot.check_call(&0), Ok(2));
    assert_eq!(pot.check_call(&1), Ok(2));
    assert_eq!(pot.check_call(&2), Ok(2));

    pot.collect_bets();

    let expected_pot = NoLimitPot::from_parts(
        vec![
            PartialPot {
                amount: 8,
                elegible_players: HashSet::from([0, 1, 2, 3]),
            },
        ],
        BTreeMap::from([
            (0, (198, 0)),
            (1, (198, 0)),
            (2, (198, 0)),
            (3, (198, 0)),
        ]),
        BTreeSet::new(),
        None,
        0,
        bb,
        sb,
        bb,
        ante,
        is_bomb,
    )
    .unwrap();

    assert_eq!(&BTreeSet::new(), pot.bet_sizes());
    assert_eq!(expected_pot, pot);
}

#[test]
fn basic_raise_preflop() {
    let mut players = HashMap::<usize, Player>::new();
    let mut pot = NoLimitPot::new();

    let starting_stacks = [200, 200, 200, 200];

    for id in 0..4 {
        players.insert(id, Player::new(id, format!("Player {}", id), starting_stacks[id]));
    }

    let sb = 1;
    let bb = 2;
    let ante = 0;
    let is_bomb = false;

    assert_eq!(pot.reset_pot(&players, sb, bb, ante, is_bomb), Ok(()));

    let bb_idx = 2;
    assert_eq!(pot.post_before_deal(&bb_idx), Ok(()));

    assert_eq!(pot.check_call(&3), Ok(2));
    assert_eq!(pot.bet_or_shove(&0, 5), Ok(5));
    assert_eq!(pot.check_call(&1), Ok(5));
    assert_eq!(pot.check_call(&2), Ok(5));
    assert_eq!(pot.check_call(&3), Ok(5));

    pot.collect_bets();

    let expected_pot = NoLimitPot::from_parts(
        vec![
            PartialPot {
                amount: 20,
                elegible_players: HashSet::from([0, 1, 2, 3]),
            },
        ],
        BTreeMap::from([
            (0, (195, 0)),
            (1, (195, 0)),
            (2, (195, 0)),
            (3, (195, 0)),
        ]),
        BTreeSet::new(),
        None,
        0,
        bb,
        sb,
        bb,
        ante,
        is_bomb,
    )
    .unwrap();

    assert_eq!(&BTreeSet::new(), pot.bet_sizes());
    assert_eq!(expected_pot, pot);
}

#[test]
fn basic_3bet_preflop() {
    let mut players = HashMap::<usize, Player>::new();
    let mut pot = NoLimitPot::new();

    let starting_stacks = [200, 200, 200, 200];

    for id in 0..4 {
        players.insert(id, Player::new(id, format!("Player {}", id), starting_stacks[id]));
    }

    let sb = 1;
    let bb = 2;
    let ante = 0;
    let is_bomb = false;

    assert_eq!(pot.reset_pot(&players, sb, bb, ante, is_bomb), Ok(()));

    let bb_idx = 2;
    assert_eq!(pot.post_before_deal(&bb_idx), Ok(()));

    assert_eq!(pot.check_call(&3), Ok(2));
    assert_eq!(pot.bet_or_shove(&0, 5), Ok(5));
    assert_eq!(pot.check_call(&1), Ok(5));
    assert_eq!(pot.bet_or_shove(&2, 20), Ok(20));
    assert_eq!(pot.fold(&3), Ok(()));
    assert_eq!(pot.check_call(&0), Ok(20));
    assert_eq!(pot.check_call(&1), Ok(20));

    pot.collect_bets();

    let expected_pot = NoLimitPot::from_parts(
        vec![
            PartialPot {
                amount: 62,
                elegible_players: HashSet::from([0, 1, 2]),
            },
        ],
        BTreeMap::from([
            (0, (180, 0)),
            (1, (180, 0)),
            (2, (180, 0)),
            (3, (198, 0)),
        ]),
        BTreeSet::new(),
        None,
        0,
        bb,
        sb,
        bb,
        ante,
        is_bomb,
    )
    .unwrap();

    assert_eq!(&BTreeSet::new(), pot.bet_sizes());
    assert_eq!(expected_pot, pot);
}

#[test]
fn basic_single_fold() {
    let mut players = HashMap::<usize, Player>::new();
    let mut pot = NoLimitPot::new();

    let starting_stacks = [200, 200, 200, 200];

    for id in 0..4 {
        players.insert(id, Player::new(id, format!("Player {}", id), starting_stacks[id]));
    }

    let sb = 1;
    let bb = 2;
    let ante = 0;
    let is_bomb = false;

    assert_eq!(pot.reset_pot(&players, sb, bb, ante, is_bomb), Ok(()));

    let bb_idx = 2;
    assert_eq!(pot.post_before_deal(&bb_idx), Ok(()));

    assert_eq!(pot.fold(&3), Ok(()));

    let expected_pot = NoLimitPot::from_parts(
        vec![
            PartialPot {
                amount: 0,
                elegible_players: HashSet::from([0, 1, 2]),
            },
        ],
        BTreeMap::from([
            (0, (200, 0)),
            (1, (200, 1)),
            (2, (200, 2)),
            (3, (200, 0)),
        ]),
        BTreeSet::from([1, 2]),
        Some((3, 3)),
        bb,
        bb,
        sb,
        bb,
        ante,
        is_bomb,
    )
    .unwrap();

    assert_eq!(&BTreeSet::from([1, 2]), pot.bet_sizes());
    assert_eq!(expected_pot, pot);
}

#[test]
fn basic_single_call() {
    let mut players = HashMap::<usize, Player>::new();
    let mut pot = NoLimitPot::new();

    let starting_stacks = [200, 200, 200, 200];

    for id in 0..4 {
        players.insert(id, Player::new(id, format!("Player {}", id), starting_stacks[id]));
    }

    let sb = 1;
    let bb = 2;
    let ante = 0;
    let is_bomb = false;

    assert_eq!(pot.reset_pot(&players, sb, bb, ante, is_bomb), Ok(()));

    let bb_idx = 2;
    assert_eq!(pot.post_before_deal(&bb_idx), Ok(()));

    assert_eq!(pot.check_call(&3), Ok(2));

    let expected_pot = NoLimitPot::from_parts(
        vec![
            PartialPot {
                amount: 0,
                elegible_players: HashSet::from([0, 1, 2, 3]),
            },
        ],
        BTreeMap::from([
            (0, (200, 0)),
            (1, (200, 1)),
            (2, (200, 2)),
            (3, (200, 2)),
        ]),
        BTreeSet::from([1, 2]),
        Some((3, 3)),
        bb,
        bb,
        sb,
        bb,
        ante,
        is_bomb,
    )
    .unwrap();

    assert_eq!(&BTreeSet::from([1, 2]), pot.bet_sizes());
    assert_eq!(expected_pot, pot);
}

#[test]
fn basic_single_raise() {
    let mut players = HashMap::<usize, Player>::new();
    let mut pot = NoLimitPot::new();

    let starting_stacks = [200, 200, 200, 200];

    for id in 0..4 {
        players.insert(id, Player::new(id, format!("Player {}", id), starting_stacks[id]));
    }

    let sb = 1;
    let bb = 2;
    let ante = 0;
    let is_bomb = false;

    assert_eq!(pot.reset_pot(&players, sb, bb, ante, is_bomb), Ok(()));

    let bb_idx = 2;
    assert_eq!(pot.post_before_deal(&bb_idx), Ok(()));

    let raise_amt = 6;
    assert_eq!(pot.bet_or_shove(&3, raise_amt), Ok(raise_amt));

    let expected_pot = NoLimitPot::from_parts(
        vec![
            PartialPot {
                amount: 0,
                elegible_players: HashSet::from([0, 1, 2, 3]),
            },
        ],
        BTreeMap::from([
            (0, (200, 0)),
            (1, (200, 1)),
            (2, (200, 2)),
            (3, (200, 6)),
        ]),
        BTreeSet::from([sb, bb, raise_amt]),
        Some((3, 3)),
        raise_amt,
        raise_amt - bb,
        sb,
        bb,
        ante,
        is_bomb,
    )
    .unwrap();

    assert_eq!(&BTreeSet::from([sb, bb, raise_amt]), pot.bet_sizes());
    assert_eq!(expected_pot, pot);
}

#[test]
fn single_fold_then_call() {
    let mut players = HashMap::<usize, Player>::new();
    let mut pot = NoLimitPot::new();

    let starting_stacks = [200, 200, 200, 200];

    for id in 0..4 {
        players.insert(id, Player::new(id, format!("Player {}", id), starting_stacks[id]));
    }

    let sb = 1;
    let bb = 2;
    let ante = 0;
    let is_bomb = false;

    assert_eq!(pot.reset_pot(&players, sb, bb, ante, is_bomb), Ok(()));

    let bb_idx = 2;
    assert_eq!(pot.post_before_deal(&bb_idx), Ok(()));

    assert_eq!(pot.fold(&3), Ok(()));
    assert_eq!(pot.check_call(&0), Ok(bb));

    let expected_pot = NoLimitPot::from_parts(
        vec![
            PartialPot {
                amount: 0,
                elegible_players: HashSet::from([0, 1, 2]),
            },
        ],
        BTreeMap::from([
            (0, (200, 2)),
            (1, (200, 1)),
            (2, (200, 2)),
            (3, (200, 0)),
        ]),
        BTreeSet::from([sb, bb]),
        Some((3, 3)),
        bb,
        bb,
        sb,
        bb,
        ante,
        is_bomb,
    )
    .unwrap();

    assert_eq!(&BTreeSet::from([sb, bb]), pot.bet_sizes());
    assert_eq!(expected_pot, pot);
}

#[test]
fn single_fold_then_raise() {
    let mut players = HashMap::<usize, Player>::new();
    let mut pot = NoLimitPot::new();

    let starting_stacks = [200, 200, 200, 200];

    for id in 0..4 {
        players.insert(id, Player::new(id, format!("Player {}", id), starting_stacks[id]));
    }

    let sb = 1;
    let bb = 2;
    let ante = 0;
    let is_bomb = false;

    assert_eq!(pot.reset_pot(&players, sb, bb, ante, is_bomb), Ok(()));

    let bb_idx = 2;
    assert_eq!(pot.post_before_deal(&bb_idx), Ok(()));

    let raise_amt = 8;

    assert_eq!(pot.fold(&3), Ok(()));
    assert_eq!(pot.bet_or_shove(&0, raise_amt), Ok(raise_amt));

    let expected_pot = NoLimitPot::from_parts(
        vec![
            PartialPot {
                amount: 0,
                elegible_players: HashSet::from([0, 1, 2]),
            },
        ],
        BTreeMap::from([
            (0, (200, 8)),
            (1, (200, 1)),
            (2, (200, 2)),
            (3, (200, 0)),
        ]),
        BTreeSet::from([sb, bb, raise_amt]),
        Some((0, 0)),
        raise_amt,
        raise_amt - bb,
        sb,
        bb,
        ante,
        is_bomb,
    )
    .unwrap();

    assert_eq!(&BTreeSet::from([sb, bb, raise_amt]), pot.bet_sizes());
    assert_eq!(expected_pot, pot);
}

#[test]
fn attempt_illegal_raise_nonshove() {
    let mut players = HashMap::<usize, Player>::new();
    let mut pot = NoLimitPot::new();

    let starting_stacks = [200, 200, 200, 200];

    for id in 0..4 {
        players.insert(id, Player::new(id, format!("Player {}", id), starting_stacks[id]));
    }

    let sb = 1;
    let bb = 2;
    let ante = 0;
    let is_bomb = false;

    assert_eq!(pot.reset_pot(&players, sb, bb, ante, is_bomb), Ok(()));

    let bb_idx = 2;
    assert_eq!(pot.post_before_deal(&bb_idx), Ok(()));

    assert_eq!(
        pot.bet_or_shove(&3, 3).map_err(|e| e.message()),
        Err(format!("Bet of {} is too small (must be at least {})", 3, 4))
    );
}

#[test]
fn collect_basic_bets() {
    let mut players = HashMap::<usize, Player>::new();
    let mut pot = NoLimitPot::new();

    let starting_stacks = [100, 50, 75, 60];

    for id in 0..4 {
        players.insert(id, Player::new(id, format!("Player {}", id), starting_stacks[id]));
    }

    assert_eq!(pot.reset_pot(&players, 1, 2, 0, false), Ok(()));

    let bet = 20;

    for (id, _) in &players {
        assert_eq!(pot.set_bet_no_max(id, bet), Ok(()));
    }

    pot.collect_bets();

    let expected_pot = vec![
        PartialPot {
            amount: 80,
            elegible_players: HashSet::from([0,1,2,3]),
        },
    ];

    let expected_player_stack_bets = BTreeMap::from([
        (0, (80, 0)),
        (1, (30, 0)),
        (2, (55, 0)),
        (3, (40, 0)),
    ]);

    assert_eq!(&expected_pot, pot.pots());
    assert_eq!(&BTreeSet::new(), pot.bet_sizes());
    assert_eq!(&expected_player_stack_bets, pot.get_all_player_stacks_bets());
}

#[test]
fn collect_all_in_bet() {
    let mut players = HashMap::<usize, Player>::new();
    let mut pot = NoLimitPot::new();

    let starting_stacks = [100, 50, 75, 60];

    for id in 0..4 {
        players.insert(id, Player::new(id, format!("Player {}", id), starting_stacks[id]));
    }

    assert_eq!(pot.reset_pot(&players, 1, 2, 0, false), Ok(()));

    let bet = 50;

    for (id, _) in &players {
        assert_eq!(pot.set_bet_no_max(id, bet), Ok(()));
    }

    pot.collect_bets();

    let expected_pot = vec![
        PartialPot {
            amount: 200,
            elegible_players: HashSet::from([0,1,2,3]),
        },
        PartialPot {
            amount: 0,
            elegible_players: HashSet::from([0,2,3]),
        }
    ];

    let expected_player_stack_bets = BTreeMap::from([
        (0, (50, 0)),
        (1, (0, 0)),
        (2, (25, 0)),
        (3, (10, 0)),
    ]);

    assert_eq!(&expected_pot, pot.pots());
    assert_eq!(&BTreeSet::new(), pot.bet_sizes());
    assert_eq!(&expected_player_stack_bets, pot.get_all_player_stacks_bets());
}

#[test]
fn collect_advanced_betting() {
    let mut players = HashMap::<usize, Player>::new();
    let mut pot = NoLimitPot::new();

    let starting_stacks = [100, 20, 75, 5];

    for id in 0..4 {
        players.insert(id, Player::new(id, format!("Player {}", id), starting_stacks[id]));
    }

    assert_eq!(pot.reset_pot(&players, 1, 2, 0, false), Ok(()));

    let bet = 25;

    for (id, _) in &players {
        assert_eq!(pot.set_bet_no_max(id, bet), Ok(()));
    }

    pot.collect_bets();

    let expected_pot = vec![
        PartialPot {
            amount: 20,
            elegible_players: HashSet::from([0,1,2,3]),
        },
        PartialPot {
            amount: 45,
            elegible_players: HashSet::from([0,1,2]),
        },
        PartialPot {
            amount: 10,
            elegible_players: HashSet::from([0,2]),
        }
    ];

    let expected_player_stack_bets = BTreeMap::from([
        (0, (75, 0)),
        (1, (0, 0)),
        (2, (50, 0)),
        (3, (0, 0)),
    ]);

    assert_eq!(&expected_pot, pot.pots());
    assert_eq!(&BTreeSet::new(), pot.bet_sizes());
    assert_eq!(&expected_player_stack_bets, pot.get_all_player_stacks_bets());
}

#[test]
fn collect_nonzero_pot() {
    let mut players = HashMap::<usize, Player>::new();
    let mut pot = NoLimitPot::new();

    let starting_stacks = [100, 20, 75, 5];

    for id in 0..4 {
        players.insert(id, Player::new(id, format!("Player {}", id), starting_stacks[id]));
    }

    assert_eq!(pot.reset_pot(&players, 1, 2, 0, false), Ok(()));

    // artificially making the pot big for testing
    let pot_in = vec![PartialPot {
        amount: 20,
        elegible_players: HashSet::from([0, 1, 2, 3]),
    }];
    let mut pot = with_pots(&pot, pot_in);

    let bet = 50;

    for (id, _) in &players {
        assert_eq!(pot.set_bet_no_max(id, bet), Ok(()));
    }

    pot.collect_bets();

    let expected_pot = vec![
        PartialPot {
            amount: 40,
            elegible_players: HashSet::from([0,1,2,3]),
        },
        PartialPot {
            amount: 45,
            elegible_players: HashSet::from([0,1,2]),
        },
        PartialPot {
            amount: 60,
            elegible_players: HashSet::from([0,2]),
        }
    ];

    let expected_player_stack_bets = BTreeMap::from([
        (0, (50, 0)),
        (1, (0, 0)),
        (2, (25, 0)),
        (3, (0, 0)),
    ]);

    assert_eq!(&expected_pot, pot.pots());
    assert_eq!(&BTreeSet::new(), pot.bet_sizes());
    assert_eq!(&expected_player_stack_bets, pot.get_all_player_stacks_bets());
}

#[test]
fn collect_nonzero_pot_two_callers() {
    let mut players = HashMap::<usize, Player>::new();
    let mut pot = NoLimitPot::new();

    let starting_stacks = [100, 20, 75, 5];

    for id in 0..4 {
        players.insert(id, Player::new(id, format!("Player {}", id), starting_stacks[id]));
    }

    assert_eq!(pot.reset_pot(&players, 1, 2, 0, false), Ok(()));

    // artificially making the pot big for testing
    let pot_in = vec![PartialPot {
        amount: 20,
        elegible_players: HashSet::from([0, 1, 2, 3]),
    }];
    let mut pot = with_pots(&pot, pot_in);

    let bet = 25;

    assert_eq!(pot.set_bet_no_max(&0, bet), Ok(()));
    assert_eq!(pot.set_bet_no_max(&2, bet), Ok(()));

    pot.collect_bets();

    let expected_pot = vec![
        PartialPot {
            amount: 70,
            elegible_players: HashSet::from([0,2]),
        },
    ];

    let expected_player_stack_bets = BTreeMap::from([
       (0, (75, 0)),
       (1, (20, 0)),
       (2, (50, 0)),
       (3, (5, 0)),
    ]);

    assert_eq!(&expected_pot, pot.pots());
    assert_eq!(&BTreeSet::new(), pot.bet_sizes());
    assert_eq!(&expected_player_stack_bets, pot.get_all_player_stacks_bets());
}

fn check_normal(pot: &NoLimitPot) {
    assert_ne!(None, pot.get_largest_bet_idxes());

    if let Some((lb, llb)) = pot.get_largest_bet_idxes() {
        for i in 0..lb+1 {
            assert!(!pot.can_pos_raise(&i), "Position {} was incorrect", i);
        }

        for i in lb+1..llb {
            assert!(pot.can_pos_raise(&i), "Position {} was incorrect", i);
        }

        for i in llb..10 {
            assert!(!pot.can_pos_raise(&i), "Position {} was incorrect", i);
        }
    }
}

fn check_flipped(pot: &NoLimitPot) {
    assert_ne!(None, pot.get_largest_bet_idxes());

    if let Some((lb, llb)) = pot.get_largest_bet_idxes() {
        for i in 0..llb {
            assert!(pot.can_pos_raise(&i), "Position {} was incorrect", i);
        }

        for i in llb..lb+1 {
            assert!(!pot.can_pos_raise(&i), "Position {} was incorrect", i);
        }

        for i in lb+1..10 {
            assert!(pot.can_pos_raise(&i), "Position {} was incorrect", i);
        }
    }
}

#[test]
fn can_raise_action() {
    let pot = NoLimitPot::new();

    let pot = with_idxes(&pot, Some((3, 9)));

    check_normal(&pot);
}

#[test]
fn can_raise_action_flipped() {
    let pot = NoLimitPot::new();

    let pot = with_idxes(&pot, Some((8, 2)));

    check_flipped(&pot);
}

#[test]
fn can_raise_action_close() {
    let pot = NoLimitPot::new();

    let pot = with_idxes(&pot, Some((5, 6)));

    check_normal(&pot);
}

#[test]
fn can_raise_action_flipped_close() {
    let pot = NoLimitPot::new();

    let pot = with_idxes(&pot, Some((3, 2)));

    check_flipped(&pot);
}

#[test]
fn can_raise_action_same_idx() {
    let pot = NoLimitPot::new();

    let mut rng = rand::thread_rng();
    let rand_idx: usize = rng.gen_range(0..=9);
    let pot = with_idxes(&pot, Some((rand_idx, rand_idx)));

    check_flipped(&pot);
}

#[test]
fn basic_distribute_pot() {
    let mut players = HashMap::<usize, Player>::new();
    let mut pot = NoLimitPot::new();

    let starting_stacks = [50, 150, 400, 75];

    for id in 0..4 {
        players.insert(id, Player::new(id, format!("Player {}", id), starting_stacks[id]));
    }

    let sb = 1;
    let bb = 2;
    let ante = 0;
    let is_bomb = false;

    assert_eq!(pot.reset_pot(&players, sb, bb, ante, is_bomb), Ok(()));

    let btn_idx = 0;

    let pots = vec![
        PartialPot {
            amount: 262,
            elegible_players: HashSet::from([0, 3]),
        },
    ];
    let mut pot = with_pots(&pot, pots);

    let rankings: HashMap<usize, u64> = HashMap::from([
        (0, 1700),
        (1, 300),
        (2, 40),
        (3, 2000),
    ]);

    let expected_output: HashMap<usize, u64> = HashMap::from([
        (3, 262),
    ]);
    assert_eq!(expected_output, pot.distribute_pot(&mut players, &rankings, &btn_idx));

    let expected_stacks = vec![50, 150, 400, 337];

    for (pos, player) in &players {
        assert_eq!(expected_stacks[*pos], player.stack);
    }
}

#[test]
fn split_distribute_pot() {
    let mut players = HashMap::<usize, Player>::new();
    let mut pot = NoLimitPot::new();

    let starting_stacks = [50, 150, 400, 75];

    for id in 0..4 {
        players.insert(id, Player::new(id, format!("Player {}", id), starting_stacks[id]));
    }

    let sb = 1;
    let bb = 2;
    let ante = 0;
    let is_bomb = false;

    assert_eq!(pot.reset_pot(&players, sb, bb, ante, is_bomb), Ok(()));

    let btn_idx = 0;

    let pots = vec![
        PartialPot {
            amount: 262,
            elegible_players: HashSet::from([0, 3]),
        },
    ];
    let mut pot = with_pots(&pot, pots);

    let rankings: HashMap<usize, u64> = HashMap::from([
        (0, 2000),
        (1, 300),
        (2, 40),
        (3, 2000),
    ]);

    let expected_output: HashMap<usize, u64> = HashMap::from([
        (0, 131),
        (3, 131),
    ]);
    assert_eq!(expected_output, pot.distribute_pot(&mut players, &rankings, &btn_idx));

    let expected_stacks = vec![181, 150, 400, 206];

    for (pos, player) in &players {
        assert_eq!(expected_stacks[*pos], player.stack);
    }
}

#[test]
fn split_distribute_pot_odd_chip() {
    let mut players = HashMap::<usize, Player>::new();
    let mut pot = NoLimitPot::new();

    let starting_stacks = [50, 150, 400, 75];

    for id in 0..4 {
        players.insert(id, Player::new(id, format!("Player {}", id), starting_stacks[id]));
    }

    let sb = 1;
    let bb = 2;
    let ante = 0;
    let is_bomb = false;

    assert_eq!(pot.reset_pot(&players, sb, bb, ante, is_bomb), Ok(()));

    let btn_idx = 0;

    let pots = vec![
        PartialPot {
            amount: 263,
            elegible_players: HashSet::from([0, 3]),
        },
    ];
    let mut pot = with_pots(&pot, pots);

    let rankings: HashMap<usize, u64> = HashMap::from([
        (0, 2000),
        (1, 300),
        (2, 40),
        (3, 2000),
    ]);

    let expected_output: HashMap<usize, u64> = HashMap::from([
        (0, 131),
        (3, 132),
    ]);
    assert_eq!(expected_output, pot.distribute_pot(&mut players, &rankings, &btn_idx));

    let expected_stacks = vec![181, 150, 400, 207];

    for (pos, player) in &players {
        assert_eq!(expected_stacks[*pos], player.stack);
    }
}

#[test]
fn split_distribute_pot_odd_chip_3_players() {
    let mut players = HashMap::<usize, Player>::new();
    let mut pot = NoLimitPot::new();

    let starting_stacks = [50, 150, 400, 75];

    for id in 0..4 {
        players.insert(id, Player::new(id, format!("Player {}", id), starting_stacks[id]));
    }

    let sb = 1;
    let bb = 2;
    let ante = 0;
    let is_bomb = false;

    assert_eq!(pot.reset_pot(&players, sb, bb, ante, is_bomb), Ok(()));

    let btn_idx = 0;

    let pots = vec![
        PartialPot {
            amount: 263,
            elegible_players: HashSet::from([0, 1, 3]),
        },
    ];
    let mut pot = with_pots(&pot, pots);

    let rankings: HashMap<usize, u64> = HashMap::from([
        (0, 2000),
        (1, 2000),
        (2, 40),
        (3, 2000),
    ]);

    let expected_output: HashMap<usize, u64> = HashMap::from([
        (0, 87),
        (1, 88),
        (3, 88),
    ]);
    assert_eq!(expected_output, pot.distribute_pot(&mut players, &rankings, &btn_idx));

    let expected_stacks = vec![137, 238, 400, 163];

    for (pos, player) in &players {
        assert_eq!(expected_stacks[*pos], player.stack);
    }
}

#[test]
fn distribute_multiple_pots() {
    let mut players = HashMap::<usize, Player>::new();
    let mut pot = NoLimitPot::new();

    let starting_stacks = [0, 100, 400, 25];

    for id in 0..4 {
        players.insert(id, Player::new(id, format!("Player {}", id), starting_stacks[id]));
    }

    let sb = 1;
    let bb = 2;
    let ante = 0;
    let is_bomb = false;

    assert_eq!(pot.reset_pot(&players, sb, bb, ante, is_bomb), Ok(()));

    let btn_idx = 0;

    let pots = vec![
        PartialPot {
            amount: 412,
            elegible_players: HashSet::from([0, 1, 3]),
        },
        PartialPot {
            amount: 50,
            elegible_players: HashSet::from([1, 3]),
        },
        PartialPot {
            amount: 0,
            elegible_players: HashSet::from([1]),
        }
    ];
    let mut pot = with_pots(&pot, pots);

    let rankings: HashMap<usize, u64> = HashMap::from([
        (0, 2000),
        (1, 300),
        (2, 40),
        (3, 1700),
    ]);

    let expected_output: HashMap<usize, u64> = HashMap::from([
        (0, 412),
        (3, 50),
    ]);
    assert_eq!(expected_output, pot.distribute_pot(&mut players, &rankings, &btn_idx));

    let expected_stacks = vec![412, 100, 400, 75];

    for (pos, player) in &players {
        assert_eq!(expected_stacks[*pos], player.stack);
    }
}

#[test]
fn distribute_multiple_pots_split_main() {
    let mut players = HashMap::<usize, Player>::new();
    let mut pot = NoLimitPot::new();

    let starting_stacks = [0, 100, 400, 25];

    for id in 0..4 {
        players.insert(id, Player::new(id, format!("Player {}", id), starting_stacks[id]));
    }

    let sb = 1;
    let bb = 2;
    let ante = 0;
    let is_bomb = false;

    assert_eq!(pot.reset_pot(&players, sb, bb, ante, is_bomb), Ok(()));

    let btn_idx = 0;

    let pots = vec![
        PartialPot {
            amount: 412,
            elegible_players: HashSet::from([0, 1, 3]),
        },
        PartialPot {
            amount: 50,
            elegible_players: HashSet::from([1, 3]),
        },
        PartialPot {
            amount: 0,
            elegible_players: HashSet::from([1]),
        }
    ];
    let mut pot = with_pots(&pot, pots);

    let rankings: HashMap<usize, u64> = HashMap::from([
        (0, 2000),
        (1, 300),
        (2, 40),
        (3, 2000),
    ]);

    let expected_output: HashMap<usize, u64> = HashMap::from([
        (0, 206),
        (3, 256),
    ]);
    assert_eq!(expected_output, pot.distribute_pot(&mut players, &rankings, &btn_idx));

    let expected_stacks = vec![206, 100, 400, 281];

    for (pos, player) in &players {
        assert_eq!(expected_stacks[*pos], player.stack);
    }
}


