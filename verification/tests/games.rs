use poker_engine::cards::Card;
use poker_engine::games::gamevariation::GameVariation;
use poker_engine::games::five_card_draw::{
    card_texts, read_cards, FiveCardDraw, GameError, HAND_SIZE, MAX_PLAYER_COUNT, MIN_PLAYER_COUNT,
};
use poker_engine::player::Player;
use std::collections::{HashMap, HashSet};

fn seated(count: usize) -> HashMap<usize, Player> {
    let mut players = HashMap::new();
    for id in 0..count {
        players.insert(id, Player::new(id, format!("Player {}", id), 100));
    }
    players
}

fn cards(text: &str) -> Vec<Card> {
    text.as_bytes()
        .chunks(2)
        .map(|pair| Card::from_text(std::str::from_utf8(pair).unwrap()).unwrap())
        .collect()
}

#[test]
fn player_counts_are_checked() {
    assert_eq!((MIN_PLAYER_COUNT, MAX_PLAYER_COUNT), (2, 6));
    for count in 0..10 {
        assert_eq!(
            FiveCardDraw::check_player_condition(count),
            (2..=6).contains(&count)
        );
    }
    let mut game = FiveCardDraw::new();
    for count in [0, 1, 7] {
        let mut players = seated(count);
        assert_eq!(game.start_normal(&mut players, 0), Err(GameError::PlayerCount));
        assert!(players.values().all(|p| p.hand.is_empty()));
    }
    let mut players = seated(7);
    players.get_mut(&3).unwrap().is_away = true;
    assert_eq!(game.start_normal(&mut players, 0), Ok(()));
}

#[test]
fn every_entrant_gets_five_cards_of_one_deck() {
    let mut game = FiveCardDraw::new();
    let mut players = seated(6);
    players.get_mut(&4).unwrap().is_away = true;
    assert_eq!(game.start_normal(&mut players, 2), Ok(()));
    let mut seen = HashSet::new();
    for (seat, player) in &players {
        if *seat == 4 {
            assert!(player.hand.is_empty());
            continue;
        }
        assert_eq!(player.hand.len(), HAND_SIZE);
        for card in &player.hand {
            assert!(seen.insert(*card));
        }
        assert_eq!(player.stack, 100);
        assert_eq!(player.table_position, *seat);
    }
    assert_eq!(seen.len(), 25);
}

#[test]
fn a_draw_exchanges_the_cards_given_up() {
    let mut game = FiveCardDraw::new();
    let mut players = seated(2);
    game.start_normal(&mut players, 0).unwrap();
    let mut player = players.remove(&0).unwrap();
    let held = player.hand.clone();
    let discards = vec![held[3], held[0]];
    let drawn = game.draw(&mut player, &discards).unwrap();
    assert_eq!(drawn.len(), 2);
    assert_eq!(player.hand, vec![held[1], held[2], held[4], drawn[0], drawn[1]]);
    assert!(drawn.iter().all(|card| !held.contains(card)));
    assert!(drawn.iter().all(|card| !players[&1].hand.contains(card)));
    let kept = player.hand.clone();
    assert_eq!(game.draw(&mut player, &discards), Err(GameError::CardNotHeld));
    assert_eq!(game.draw(&mut player, &vec![kept[0], kept[0]]), Err(GameError::CardNotHeld));
    assert_eq!(player.hand, kept);
    assert_eq!(game.draw(&mut player, &Vec::new()), Ok(Vec::new()));
    assert_eq!(player.hand, kept);
}

#[test]
fn discards_come_back_when_the_deck_runs_out() {
    let mut game = FiveCardDraw::new();
    let mut players = seated(6);
    game.start_normal(&mut players, 0).unwrap();
    let mut player = players.remove(&0).unwrap();
    for _ in 0..12 {
        let all = player.hand.clone();
        let drawn = game.draw(&mut player, &all).unwrap();
        assert_eq!(drawn.len(), 5);
        assert_eq!(player.hand, drawn);
        let unique: HashSet<Card> = drawn.iter().copied().collect();
        assert_eq!(unique.len(), 5);
    }
}

#[test]
fn an_exchange_that_deck_and_pile_cannot_serve_is_turned_down() {
    let mut game = FiveCardDraw::new();
    let mut players = seated(6);
    game.start_normal(&mut players, 0).unwrap();
    let mut player = players.remove(&0).unwrap();
    let own = player.hand.clone();
    let mut many: Vec<Card> = Vec::new();
    for other in players.values() {
        many.extend(other.hand.iter().copied());
    }
    assert_eq!(many.len(), 25);
    many.truncate(23);
    player.hand = many.clone();
    assert_eq!(game.draw(&mut player, &many), Err(GameError::DeckExhausted));
    assert_eq!(player.hand, many);
    player.hand = own.clone();
    for round in 0..4 {
        let all = player.hand.clone();
        let drawn = game.draw(&mut player, &all).unwrap();
        assert_eq!(drawn.len(), 5, "round {}", round);
    }
    let all = player.hand.clone();
    let mut held = all.clone();
    held.extend(own.iter().copied());
    held.extend(many.iter().take(13).copied());
    player.hand = held.clone();
    assert_eq!(held.len(), 23);
    assert_eq!(game.draw(&mut player, &held), Err(GameError::DeckExhausted));
    player.hand = all.clone();
    let drawn = game.draw(&mut player, &all).unwrap();
    assert_eq!(drawn.len(), 5);
    assert!(drawn.iter().all(|card| !all.contains(card)));
}

#[test]
fn a_game_without_a_deck_cannot_exchange() {
    let mut game = FiveCardDraw::new();
    let mut player = Player::new(0, "Early".to_string(), 10);
    assert_eq!(game.draw(&mut player, &Vec::new()), Err(GameError::DeckUnavailable));
}

#[test]
fn better_hands_rank_higher() {
    let royal = FiveCardDraw::rank_hand(&cards("AsKsQsJsTs")).unwrap();
    let quads = FiveCardDraw::rank_hand(&cards("9s9h9d9c2s")).unwrap();
    let pair = FiveCardDraw::rank_hand(&cards("9s9h3d4c2s")).unwrap();
    let high = FiveCardDraw::rank_hand(&cards("7s5h3d4c2s")).unwrap();
    assert_eq!(royal, 7462);
    assert_eq!(high, 1);
    assert!(royal > quads && quads > pair && pair > high);
    assert_eq!(
        FiveCardDraw::rank_hand(&cards("AsKsQsJsTs")),
        FiveCardDraw::rank_hand(&cards("TsJsQsKsAs"))
    );
    assert_eq!(FiveCardDraw::rank_hand(&cards("AsKs")), None);
    assert_eq!(FiveCardDraw::rank_hand(&cards("AsAsKsQsJs")), None);
}

#[test]
fn the_showdown_ranks_the_hands_in_play() {
    let game = FiveCardDraw::new();
    let mut players = seated(4);
    players.get_mut(&0).unwrap().set_new_hand(cards("AsKsQsJsTs"));
    players.get_mut(&1).unwrap().set_new_hand(cards("9s9h3d4c2s"));
    players.get_mut(&2).unwrap().set_new_hand(cards("7s5h3d4c2s"));
    players.get_mut(&2).unwrap().is_in_hand = false;
    players.get_mut(&3).unwrap().set_new_hand(cards("7s5h"));
    let ranks = game.rank_showdown(&players);
    assert_eq!(ranks.len(), 2);
    assert_eq!(ranks[&0], 7462);
    assert_eq!(Some(ranks[&1]), FiveCardDraw::rank_hand(&players[&1].hand));
}

#[test]
fn cards_cross_the_boundary_as_text() {
    let hand = cards("AsTd2c");
    assert_eq!(card_texts(&hand), vec!["As", "Td", "2c"]);
    assert_eq!(read_cards(&card_texts(&hand)), Some(hand));
    assert_eq!(read_cards(&vec!["As".to_string(), "as".to_string()]), None);
    assert_eq!(read_cards(&Vec::new()), Some(Vec::new()));
}

#[test]
fn a_new_hand_replaces_the_cards_only() {
    let mut player = Player::new(4, "Dana".to_string(), 77);
    assert_eq!(player.table_position, 4);
    assert_eq!(player.name, "Dana");
    assert_eq!((player.stack, player.bet), (77, 0));
    assert!(player.is_in_hand && !player.is_away && player.play_in_bomb_pots);
    assert!(player.hand.is_empty());
    player.set_new_hand(cards("AsKs"));
    assert_eq!(player.hand, cards("AsKs"));
    assert_eq!((player.stack, player.table_position), (77, 4));
}

fn deal_and_rank<G: GameVariation>(game: &mut G) -> usize {
    let mut players = seated(3);
    assert_eq!(game.start_normal(&mut players, 0), Ok(()));
    assert!(players.values().all(|p| p.hand.len() == 5));
    players.get_mut(&1).unwrap().is_in_hand = false;
    let mut alone = seated(1);
    assert_eq!(game.start_normal(&mut alone, 0), Err(GameError::PlayerCount));
    game.evaluate_all_hands(&players).len()
}

#[test]
fn five_card_draw_is_a_game_variation() {
    assert_eq!(deal_and_rank(&mut FiveCardDraw::new()), 2);
}
