use poker_engine::action::{ActionType, SessionId};
use poker_engine::game_actions::game_action::{
    Broadcast, GameAction, GameResponse, Multicast, PotAction, SingleResponse,
};
use poker_engine::game_actions::requests::{BetAction, DrawAction};
use poker_engine::game_actions::responses::{
    PersonalBetRaiseResponse, PersonalCheckCallResponse, PersonalFoldResponse, PublicBetRaiseResponse,
    PublicCheckCallResponse, PublicDrawResponse, PublicFoldResponse, StatusCode,
};
use poker_engine::games::five_card_draw::GameError;
use poker_engine::pots::error::PotError;
use poker_engine::table::state::{HandError, JoinError, Phase, Refusal, SeatError, TimedOut};
use poker_engine::table::Table;
use std::collections::HashMap;

fn session(id: u128) -> SessionId {
    SessionId { id }
}

fn table_of(stacks: &[u64]) -> Table {
    let mut table = Table::new();
    for (seat, stack) in stacks.iter().enumerate() {
        assert_eq!(
            table.join(session(100 + seat as u128), seat, format!("Player {}", seat), *stack),
            Ok(())
        );
    }
    table.set_stakes(1, 2, 0, false);
    table.set_positions(0, 2);
    table
}

fn started(stacks: &[u64]) -> Table {
    let mut table = table_of(stacks);
    table.control(ActionType::StartGame);
    assert_eq!(table.begin_hand(), Ok(()));
    table
}

fn bet(amount: u64) -> PotAction {
    PotAction::BetRaise(BetAction { amount })
}

fn refusal(status: StatusCode, min_bet: u64) -> Refusal {
    Refusal { status, min_bet, reason: None }
}

fn refused(status: StatusCode, min_bet: u64, reason: PotError) -> Refusal {
    Refusal { status, min_bet, reason: Some(reason) }
}

fn stacks(table: &Table) -> Vec<u64> {
    let mut seats: Vec<_> = table.players().iter().collect();
    seats.sort_by_key(|(seat, _)| **seat);
    seats.into_iter().map(|(_, player)| player.stack).collect()
}

#[test]
fn a_new_table_is_idle() {
    let table = Table::new();
    assert_eq!(table.phase(), Phase::Idle);
    assert!(table.players().is_empty());
    assert!(!table.start_next_hand() && !table.is_paused());
    assert_eq!(table.total_chips(), 0);
    assert!(table.have_all_players_folded());
    assert!(!table.check_all_bets_good());
}

#[test]
fn players_take_seats() {
    let mut table = table_of(&[200, 300]);
    assert_eq!(table.total_chips(), 500);
    assert_eq!(table.seat_of(session(101)), Some(1));
    assert_eq!(table.seat_of(session(7)), None);
    assert_eq!(table.join(session(101), 5, "Again".to_string(), 1), Err(JoinError::AlreadySeated));
    assert_eq!(
        table.join(session(7), 1, "Late".to_string(), 1),
        Err(JoinError::Seat(SeatError::SeatTaken))
    );
    assert_eq!(
        table.join(session(7), 5, "Rich".to_string(), u64::MAX),
        Err(JoinError::Seat(SeatError::TooManyChips))
    );
    assert_eq!(table.seat_player(1, "Late".to_string(), 1), Err(SeatError::SeatTaken));
    assert_eq!(table.seat_player(9, "Nine".to_string(), 50), Ok(()));
    assert_eq!(table.total_chips(), 550);
    assert_eq!(table.players().len(), 3);
    assert_eq!(table.seat_of(session(7)), None);
    let mut listed = table.seated_sessions();
    listed.sort_by_key(|(_, seat)| *seat);
    assert_eq!(listed, vec![(session(100), 0), (session(101), 1)]);
}

#[test]
fn sessions_come_and_go() {
    let mut table = table_of(&[200, 300, 400]);
    assert!(table.disconnect(session(101)));
    assert!(table.players()[&1].is_away);
    assert!(!table.disconnect(session(55)));
    assert!(table.connect(session(101)));
    assert!(!table.players()[&1].is_away);
    assert!(table.set_away(2, true));
    assert!(!table.set_away(8, true));
}

#[test]
fn instructions_set_the_flags() {
    let mut table = table_of(&[200, 300]);
    table.control(ActionType::PauseGame);
    assert!(table.is_paused());
    table.control(ActionType::ResumeGame);
    assert!(!table.is_paused());
    table.control(ActionType::Fold);
    assert_eq!(table.phase(), Phase::Idle);
    table.control(ActionType::StartGame);
    assert!(table.start_next_hand());
    assert_eq!(table.phase(), Phase::PreHand);
    table.control(ActionType::StopGame);
    assert!(!table.start_next_hand());
    assert_eq!(table.phase(), Phase::PreHand);
}

#[test]
fn a_hand_needs_the_right_phase_players_and_stakes() {
    let mut table = table_of(&[200, 300]);
    assert_eq!(table.begin_hand(), Err(HandError::WrongPhase));
    assert_eq!(table.phase(), Phase::Idle);
    table.disconnect(session(101));
    table.control(ActionType::StartGame);
    assert_eq!(table.begin_hand(), Err(HandError::PlayerCount));
    assert_eq!(table.phase(), Phase::Idle);
    table.connect(session(101));
    table.set_stakes(3, 2, 0, false);
    table.control(ActionType::StartGame);
    assert_eq!(
        table.begin_hand(),
        Err(HandError::Pot(PotError::SmallBlindAboveBigBlind))
    );
    assert_eq!(table.phase(), Phase::Idle);
    assert_eq!(stacks(&table), vec![200, 300]);
    assert!(table.pot().get_all_player_stacks_bets().is_empty());
    let failed: Result<(), HandError> = Err(HandError::Game(GameError::DeckExhausted));
    assert!(failed.is_err());
}

#[test]
fn a_hand_starts_left_of_the_big_blind() {
    let table = started(&[200, 200, 200, 200]);
    assert_eq!(table.phase(), Phase::Street(0));
    assert_eq!(table.action_idx(), 3);
    assert_eq!(table.pot().largest_bet(), 2);
    assert_eq!(table.pot().get_player_stack_bet(&2), Ok(&(200, 2)));
    assert_eq!(table.pot().get_player_stack_bet(&1), Ok(&(200, 1)));
    assert!(table.players().values().all(|p| p.is_in_hand && p.hand.len() == 5));
    assert_eq!(table.total_chips(), 800);
    assert!(!table.have_all_players_folded());
}

#[test]
fn players_who_are_away_sit_the_hand_out() {
    let mut table = table_of(&[200, 200, 200, 200]);
    table.set_away(3, true);
    table.control(ActionType::StartGame);
    table.begin_hand().unwrap();
    assert_eq!(table.action_idx(), 0);
    assert!(!table.players()[&3].is_in_hand);
    assert!(table.players()[&3].hand.is_empty());
    assert_eq!(table.pot().get_all_player_stacks_bets().len(), 3);
    assert_eq!(table.seat_player(6, "Late".to_string(), 40), Ok(()));
    assert!(!table.players()[&6].is_in_hand);
    assert_eq!(table.total_chips(), 840);
}

#[test]
fn moves_are_taken_in_turn() {
    let mut table = started(&[200, 200, 200, 200]);
    assert_eq!(
        table.act(0, PotAction::CheckCall),
        Err(refusal(StatusCode::NotYourTurn, 0))
    );
    table.control(ActionType::PauseGame);
    assert_eq!(table.act(3, PotAction::CheckCall), Err(refusal(StatusCode::Paused, 0)));
    table.control(ActionType::ResumeGame);
    let small = PotError::BetTooSmall { bet: 3, min_raise: 4 };
    assert_eq!(table.act(3, bet(3)), Err(refused(StatusCode::InvalidBet, 4, small)));
    assert_eq!(
        table.act(3, bet(3)).unwrap_err().message(),
        Some("Bet of 3 is too small (must be at least 4)".to_string())
    );
    assert_eq!(refusal(StatusCode::Paused, 0).message(), None);
    assert_eq!(table.action_idx(), 3);
    assert_eq!(table.act(3, PotAction::CheckCall), Ok(2));
    assert_eq!(table.action_idx(), 0);
    assert_eq!(table.act(0, bet(6)), Ok(6));
    assert_eq!(table.act(1, PotAction::Fold), Ok(0));
    assert!(!table.players()[&1].is_in_hand);
    assert_eq!(table.action_idx(), 2);
    assert!(!table.check_all_bets_good());
    assert_eq!(table.act(2, PotAction::CheckCall), Ok(6));
    assert_eq!(table.phase(), Phase::Street(0));
    assert_eq!(table.action_idx(), 3);
    assert_eq!(table.act(3, PotAction::CheckCall), Ok(6));
    assert_eq!(table.phase(), Phase::Street(1));
    assert_eq!(table.action_idx(), 2);
    assert_eq!(table.pot().pots()[0].amount, 19);
    assert_eq!(table.pot().largest_bet(), 0);
    assert_eq!(table.total_chips(), 800);
}

#[test]
fn a_short_all_in_caps_the_action_at_the_table() {
    let mut table = started(&[100, 100, 4, 100]);
    assert_eq!(table.act(3, PotAction::CheckCall), Ok(2));
    assert_eq!(table.act(0, bet(6)), Ok(6));
    assert_eq!(table.act(1, PotAction::CheckCall), Ok(6));
    assert_eq!(table.act(2, bet(4)), Ok(4));
    assert_eq!(table.act(3, PotAction::CheckCall), Ok(6));
    assert_eq!(table.phase(), Phase::Street(0));
    assert_eq!(table.action_idx(), 0);
    assert_eq!(
        table.act(0, bet(20)),
        Err(refused(StatusCode::CappedAction, 0, PotError::CappedAction))
    );
    assert_eq!(table.act(0, PotAction::CheckCall), Ok(6));
    assert_eq!(table.act(1, PotAction::CheckCall), Ok(6));
    assert_eq!(table.phase(), Phase::Street(1));
}

#[test]
fn the_last_player_standing_takes_the_pot() {
    let mut table = started(&[200, 200, 200, 200]);
    assert_eq!(table.act(3, bet(10)), Ok(10));
    assert_eq!(table.act(0, PotAction::Fold), Ok(0));
    assert_eq!(table.act(1, PotAction::Fold), Ok(0));
    assert_eq!(table.phase(), Phase::Street(0));
    assert_eq!(table.act(2, PotAction::Fold), Ok(0));
    assert_eq!(table.phase(), Phase::Settle);
    assert!(!table.showdown());
    assert_eq!(table.settle(), Some(HashMap::from([(3, 13)])));
    assert_eq!(stacks(&table), vec![200, 199, 198, 203]);
    assert_eq!(table.total_chips(), 800);
    assert_eq!(table.phase(), Phase::PreHand);
    assert_eq!((table.btn_idx(), table.big_blind_idx()), (1, 3));
    assert_eq!(table.settle(), None);
    assert_eq!(table.begin_hand(), Ok(()));
    assert_eq!(table.action_idx(), 0);
    assert_eq!(table.total_chips(), 800);
}

#[test]
fn a_hand_runs_to_the_showdown() {
    let mut table = started(&[200, 200, 200]);
    assert_eq!(table.action_idx(), 0);
    assert_eq!(table.act(0, PotAction::CheckCall), Ok(2));
    assert_eq!(table.act(1, PotAction::CheckCall), Ok(2));
    assert_eq!(table.act(2, PotAction::CheckCall), Ok(2));
    assert_eq!(table.phase(), Phase::Street(1));
    assert_eq!(table.action_idx(), 1);
    assert_eq!(
        table.act(1, PotAction::CheckCall),
        Err(refusal(StatusCode::NotYourTurn, 0))
    );
    assert_eq!(table.draw(2, &Vec::new()), Err(refusal(StatusCode::NotYourTurn, 0)));
    let held = table.players()[&1].hand.clone();
    let drawn = table.draw(1, &vec![held[4]]).unwrap();
    assert_eq!(
        table.players()[&1].hand,
        vec![held[0], held[1], held[2], held[3], drawn[0]]
    );
    let other = table.players()[&1].hand[0];
    assert_eq!(table.draw(2, &vec![other]), Err(refusal(StatusCode::InvalidBet, 0)));
    assert_eq!(table.draw(2, &Vec::new()), Ok(Vec::new()));
    assert_eq!(table.act(0, PotAction::Fold), Ok(0));
    assert_eq!(table.phase(), Phase::Street(2));
    assert_eq!(table.action_idx(), 1);
    assert_eq!(table.draw(1, &Vec::new()), Err(refusal(StatusCode::NotYourTurn, 0)));
    assert_eq!(table.act(1, bet(50)), Ok(50));
    assert_eq!(table.act(2, PotAction::CheckCall), Ok(50));
    assert_eq!(table.phase(), Phase::Showdown);
    assert_eq!(table.act(1, PotAction::CheckCall), Err(refusal(StatusCode::NotYourTurn, 0)));
    assert_eq!(table.settle(), None);
    table.control(ActionType::StopGame);
    assert!(table.showdown());
    assert_eq!(table.phase(), Phase::Settle);
    let pay = table.settle().unwrap();
    assert_eq!(pay.values().sum::<u64>(), 106);
    assert!(!pay.contains_key(&0));
    assert_eq!(table.phase(), Phase::Idle);
    let after = stacks(&table);
    assert_eq!(after[0], 198);
    assert_eq!(after.iter().sum::<u64>(), 600);
    assert_eq!(table.total_chips(), 600);
    for seat in [1, 2] {
        assert_eq!(after[seat], 148 + pay.get(&seat).copied().unwrap_or(0));
    }
}

#[test]
fn sessions_are_told_of_moves() {
    let mut table = started(&[200, 200, 200, 200]);
    let me = session(103);
    assert_eq!(
        table.handle(GameAction::Pot(session(9), PotAction::Fold)),
        vec![GameResponse::SingleResponse(
            session(9),
            SingleResponse::FoldResponse(PersonalFoldResponse {
                req_id: session(9),
                status: StatusCode::NotYourTurn,
            })
        )]
    );
    assert_eq!(
        table.handle(GameAction::Pot(me, bet(3))),
        vec![GameResponse::SingleResponse(
            me,
            SingleResponse::BetRaiseResponse(PersonalBetRaiseResponse {
                msg_id: me,
                status: StatusCode::InvalidBet,
                bet_amount: 4,
                error: Some(PotError::BetTooSmall { bet: 3, min_raise: 4 }),
            })
        )]
    );
    assert_eq!(
        table.handle(GameAction::Pot(me, bet(9))),
        vec![
            GameResponse::Multicast(
                me,
                Multicast::BetRaiseResponse(PublicBetRaiseResponse { position: 3, bet_amount: 9 })
            ),
            GameResponse::SingleResponse(
                me,
                SingleResponse::BetRaiseResponse(PersonalBetRaiseResponse {
                    msg_id: me,
                    status: StatusCode::OK,
                    bet_amount: 9,
                    error: None,
                })
            ),
        ]
    );
    let you = session(100);
    assert_eq!(
        table.handle(GameAction::Pot(you, PotAction::CheckCall)),
        vec![
            GameResponse::Multicast(
                you,
                Multicast::CheckCallResponse(PublicCheckCallResponse { position: 0 })
            ),
            GameResponse::SingleResponse(
                you,
                SingleResponse::CheckCallResponse(PersonalCheckCallResponse {
                    req_id: you,
                    status: StatusCode::OK,
                })
            ),
        ]
    );
    let next = session(101);
    assert_eq!(
        table.handle(GameAction::Pot(next, PotAction::Fold)),
        vec![
            GameResponse::Multicast(next, Multicast::FoldResponse(PublicFoldResponse { position: 1 })),
            GameResponse::SingleResponse(
                next,
                SingleResponse::FoldResponse(PersonalFoldResponse {
                    req_id: next,
                    status: StatusCode::OK,
                })
            ),
        ]
    );
    assert_eq!(table.action_idx(), 2);
}

#[test]
fn sessions_are_told_of_exchanges() {
    let mut table = started(&[200, 200]);
    assert_eq!(table.action_idx(), 1);
    table.act(1, PotAction::CheckCall).unwrap();
    table.act(0, PotAction::CheckCall).unwrap();
    assert_eq!(table.phase(), Phase::Street(1));
    let seat = table.action_idx();
    let me = session(100 + seat as u128);
    let held = table.players()[&seat].hand.clone();
    let action = DrawAction { cards_to_discard: vec![held[0], held[1]] };
    let responses = table.handle(GameAction::Draw(me, action));
    assert_eq!(responses.len(), 2);
    assert_eq!(
        responses[0],
        GameResponse::Multicast(
            me,
            Multicast::DrawResponse(PublicDrawResponse {
                position: seat,
                discard_count: 2,
                cards_recieved: 2,
            })
        )
    );
    match &responses[1] {
        GameResponse::SingleResponse(to, SingleResponse::DrawResponse(personal)) => {
            assert_eq!(*to, me);
            assert_eq!(personal.status, StatusCode::OK);
            assert_eq!(personal.new_cards.len(), 2);
            assert_eq!(table.players()[&seat].hand[3..], personal.new_cards[..]);
        }
        other => panic!("{:?}", other),
    }
    let responses = table.handle(GameAction::Draw(me, DrawAction { cards_to_discard: Vec::new() }));
    assert_eq!(responses.len(), 1);
    match &responses[0] {
        GameResponse::SingleResponse(_, SingleResponse::DrawResponse(personal)) => {
            assert_eq!(personal.status, StatusCode::NotYourTurn);
            assert!(personal.new_cards.is_empty());
        }
        other => panic!("{:?}", other),
    }
}

#[test]
fn a_snapshot_shows_the_table() {
    let mut table = started(&[200, 200, 200, 200]);
    table.act(3, bet(10)).unwrap();
    table.control(ActionType::PauseGame);
    let state = table.snapshot();
    assert_eq!(state.action_idx, 0);
    assert_eq!((state.btn_idx, state.big_blind_idx), (0, 2));
    assert!(state.is_paused);
    assert_eq!(state.largest_bet, 10);
    assert_eq!(state.pot_amounts, vec![0]);
    assert_eq!(
        state.stacks_bets,
        vec![(0, 200, 0), (1, 200, 1), (2, 200, 2), (3, 200, 10)]
    );
}

#[test]
fn a_seat_that_runs_out_of_time_folds_or_checks() {
    let mut table = table_of(&[200, 200, 200, 200]);
    assert_eq!(table.on_timeout(), Err(refusal(StatusCode::NotYourTurn, 0)));
    table.control(ActionType::StartGame);
    table.begin_hand().unwrap();
    table.control(ActionType::PauseGame);
    assert_eq!(table.on_timeout(), Err(refusal(StatusCode::Paused, 0)));
    assert_eq!(table.action_idx(), 3);
    table.control(ActionType::ResumeGame);
    assert_eq!(table.on_timeout(), Ok((3, TimedOut::Folded)));
    assert!(!table.players()[&3].is_in_hand);
    assert_eq!(table.act(0, PotAction::CheckCall), Ok(2));
    assert_eq!(table.on_timeout(), Ok((1, TimedOut::Folded)));
    assert_eq!(table.on_timeout(), Ok((2, TimedOut::Checked)));
    assert_eq!(table.phase(), Phase::Street(1));
    assert_eq!(table.action_idx(), 2);
    let held = table.players()[&2].hand.clone();
    assert_eq!(table.on_timeout(), Ok((2, TimedOut::StoodPat)));
    assert_eq!(table.players()[&2].hand, held);
    assert_eq!(table.on_timeout(), Ok((0, TimedOut::StoodPat)));
    assert_eq!(table.phase(), Phase::Street(2));
    assert_eq!(table.on_timeout(), Ok((2, TimedOut::Checked)));
    assert_eq!(table.on_timeout(), Ok((0, TimedOut::Checked)));
    assert_eq!(table.phase(), Phase::Showdown);
    assert_eq!(table.total_chips(), 800);
}

#[test]
fn a_seat_that_is_all_in_is_not_folded() {
    let mut table = started(&[200, 200, 200, 5]);
    assert_eq!(table.act(3, bet(5)), Ok(5));
    assert_eq!(table.act(0, bet(20)), Ok(20));
    assert_eq!(table.act(1, PotAction::Fold), Ok(0));
    assert_eq!(table.act(2, PotAction::CheckCall), Ok(20));
    assert_eq!(table.phase(), Phase::Street(0));
    assert_eq!(table.on_timeout(), Ok((3, TimedOut::Checked)));
    assert!(table.players()[&3].is_in_hand);
    assert_eq!(table.phase(), Phase::Street(1));
}

#[test]
fn sessions_are_received_at_the_first_free_seat() {
    let mut table = Table::new();
    assert_eq!(table.free_seat(0), None);
    assert_eq!(table.free_seat(3), Some(0));
    assert_eq!(table.welcome(session(1), "Ann".to_string(), 50, 3), Ok(0));
    assert_eq!(table.seat_player(1, "Bob".to_string(), 50), Ok(()));
    assert_eq!(table.free_seat(3), Some(2));
    assert_eq!(table.welcome(session(2), "Cy".to_string(), 70, 3), Ok(2));
    assert_eq!(table.players()[&2].name, "Cy");
    assert_eq!(table.players()[&2].stack, 70);
    assert_eq!(table.seat_of(session(2)), Some(2));
    assert_eq!(table.total_chips(), 170);
    assert_eq!(table.free_seat(3), None);
    assert_eq!(table.welcome(session(3), "Di".to_string(), 70, 3), Err(JoinError::TableFull));
    assert_eq!(
        table.welcome(session(3), "Di".to_string(), u64::MAX, 4),
        Err(JoinError::Seat(SeatError::TooManyChips))
    );
    assert_eq!(table.players().len(), 3);
    table.disconnect(session(2));
    assert!(table.players()[&2].is_away);
    assert_eq!(table.welcome(session(2), "Other".to_string(), 1, 3), Ok(2));
    assert!(!table.players()[&2].is_away);
    assert_eq!(table.players()[&2].name, "Cy");
    assert_eq!(table.total_chips(), 170);
}

#[test]
fn players_in_the_hand_are_told_their_cards() {
    let mut table = table_of(&[200, 200, 200]);
    table.seat_player(5, "Nobody".to_string(), 10).unwrap();
    table.set_away(1, true);
    assert!(Table::new().starting_hands().is_empty());
    table.control(ActionType::StartGame);
    table.begin_hand().unwrap();
    let mut told = table.starting_hands();
    assert_eq!(told.len(), 2);
    told.sort_by_key(|response| match response {
        GameResponse::SingleResponse(to, _) => to.id,
        _ => 0,
    });
    for (response, seat) in told.iter().zip([0usize, 2]) {
        match response {
            GameResponse::SingleResponse(to, SingleResponse::StartingHandResponse(dealt)) => {
                assert_eq!(*to, session(100 + seat as u128));
                assert_eq!(dealt.hand, table.players()[&seat].hand);
                assert_eq!(dealt.hand.len(), 5);
            }
            other => panic!("{:?}", other),
        }
    }
}

#[test]
fn the_table_takes_the_steps_between_moves() {
    let mut table = table_of(&[200, 200, 200]);
    assert!(!table.on_the_clock());
    assert!(table.run_script().is_empty());
    assert_eq!(table.phase(), Phase::Idle);
    table.control(ActionType::StartGame);
    let told = table.run_script();
    assert_eq!(table.phase(), Phase::Street(0));
    assert!(table.on_the_clock());
    assert_eq!(told.len(), 3);
    for seat in 0..3 {
        let to = session(100 + seat as u128);
        let hand = &table.players()[&seat].hand;
        assert_eq!(hand.len(), 5);
        assert!(told.iter().any(|response| match response {
            GameResponse::SingleResponse(who, SingleResponse::StartingHandResponse(dealt)) =>
                *who == to && dealt.hand == *hand,
            _ => false,
        }));
    }
    assert!(table.run_script().is_empty());
    assert_eq!(table.phase(), Phase::Street(0));
    table.control(ActionType::PauseGame);
    assert!(!table.on_the_clock());
    table.control(ActionType::ResumeGame);
    let mut moves = 0;
    while table.on_the_clock() {
        assert_eq!(table.handle_timeout().len(), 1);
        moves += 1;
    }
    assert_eq!(moves, 2);
    assert_eq!(table.phase(), Phase::Settle);
    let told = table.run_script();
    assert_eq!(table.phase(), Phase::Street(0));
    assert_eq!(told.len(), 4);
    match &told[0] {
        GameResponse::Broadcast(Broadcast::State(state)) => {
            assert_eq!(state.pot_amounts, vec![0]);
            assert_eq!(state.largest_bet, 0);
            assert_eq!(state.stacks_bets.len(), 3);
            assert!(state.stacks_bets.iter().all(|entry| entry.2 == 0));
            assert_eq!((state.btn_idx, state.big_blind_idx), (1, 0));
        }
        other => panic!("{:?}", other),
    }
    assert!(told[1..].iter().all(|response| matches!(
        response,
        GameResponse::SingleResponse(_, SingleResponse::StartingHandResponse(_))
    )));
    assert_eq!(table.total_chips(), 600);
}

#[test]
fn the_script_stops_where_no_hand_can_start() {
    let mut table = table_of(&[200]);
    table.control(ActionType::StartGame);
    assert_eq!(table.phase(), Phase::PreHand);
    assert!(table.run_script().is_empty());
    assert_eq!(table.phase(), Phase::Idle);
    let mut table = Table::new();
    table.join(session(1), 0, "One".to_string(), 50).unwrap();
    table.join(session(2), 1, "Two".to_string(), 50).unwrap();
    table.control(ActionType::StartGame);
    assert!(table.run_script().is_empty());
    assert_eq!(table.phase(), Phase::Idle);
    assert_eq!(stacks(&table), vec![50, 50]);
}

#[test]
fn a_move_made_for_a_seat_is_made_known_to_the_others() {
    let mut table = Table::new();
    table.seat_player(0, "Nobody".to_string(), 200).unwrap();
    for seat in 1..4 {
        table.join(session(100 + seat as u128), seat, format!("Player {}", seat), 200).unwrap();
    }
    table.set_stakes(1, 2, 0, false);
    table.set_positions(0, 2);
    assert!(table.handle_timeout().is_empty());
    table.control(ActionType::StartGame);
    table.begin_hand().unwrap();
    table.control(ActionType::PauseGame);
    assert!(table.handle_timeout().is_empty());
    assert_eq!(table.action_idx(), 3);
    table.control(ActionType::ResumeGame);
    assert_eq!(
        table.handle_timeout(),
        vec![GameResponse::Multicast(
            session(103),
            Multicast::FoldResponse(PublicFoldResponse { position: 3 })
        )]
    );
    assert!(!table.players()[&3].is_in_hand);
    assert_eq!(table.session_at(1), Some(session(101)));
    assert_eq!(table.session_at(0), None);
    assert_eq!(table.action_idx(), 0);
    assert!(table.handle_timeout().is_empty());
    assert!(!table.players()[&0].is_in_hand);
    assert_eq!(table.phase(), Phase::Street(0));
    table.act(1, PotAction::CheckCall).unwrap();
    assert_eq!(
        table.handle_timeout(),
        vec![GameResponse::Multicast(
            session(102),
            Multicast::CheckCallResponse(PublicCheckCallResponse { position: 2 })
        )]
    );
    assert_eq!(table.phase(), Phase::Street(1));
    let seat = table.action_idx();
    assert_eq!(
        table.handle_timeout(),
        vec![GameResponse::Multicast(
            session(100 + seat as u128),
            Multicast::DrawResponse(PublicDrawResponse {
                position: seat,
                discard_count: 0,
                cards_recieved: 0,
            })
        )]
    );
}

#[test]
fn an_exchange_goes_through_while_the_deck_holds_cards_enough() {
    let mut table = started(&[200, 200, 200, 200, 200, 200]);
    for _ in 0..6 {
        let seat = table.action_idx();
        table.act(seat, PotAction::CheckCall).unwrap();
    }
    assert_eq!(table.phase(), Phase::Street(1));
    for turn in 0..4 {
        let seat = table.action_idx();
        let held = table.players()[&seat].hand.clone();
        let drawn = table.draw(seat, &held).expect("the deck holds cards enough");
        assert_eq!(drawn.len(), 5, "turn {}", turn);
        assert_eq!(table.players()[&seat].hand, drawn);
        assert!(drawn.iter().all(|card| !held.contains(card)));
    }
    let mut seen: Vec<_> = Vec::new();
    for player in table.players().values() {
        for card in &player.hand {
            assert!(!seen.contains(card));
            seen.push(*card);
        }
    }
    assert_eq!(seen.len(), 30);
}

#[test]
fn a_new_table_has_no_stakes_and_every_seat_at_nought() {
    let table = Table::new();
    assert_eq!((table.action_idx(), table.btn_idx(), table.big_blind_idx()), (0, 0, 0));
    assert_eq!(table.stakes(), (0, 0, 0));
    assert_eq!(table.total_chips(), 0);
    assert!(!table.is_paused() && !table.start_next_hand() && !table.is_next_hand_bomb());
    assert_eq!(table.phase(), Phase::Idle);
    assert!(table.players().is_empty());
    assert!(table.seated_sessions().is_empty());
}
