//! The mathematical model of a table and of the steps of a hand.

use crate::action::ActionType;
use crate::action::SessionId;
use crate::cards::Card;
use crate::cards::texts_of;
use crate::chips::sum_all;
use crate::game_actions::game_action::GameResponse;
use crate::game_actions::game_action::Multicast;
use crate::game_actions::game_action::PotAction;
use crate::game_actions::game_action::SingleResponse;
use crate::game_actions::responses::PersonalBetRaiseResponse;
use crate::game_actions::responses::PersonalCheckCallResponse;
use crate::game_actions::responses::PersonalFoldResponse;
use crate::game_actions::responses::PublicBetRaiseResponse;
use crate::game_actions::responses::PublicCheckCallResponse;
use crate::game_actions::responses::PublicDrawResponse;
use crate::game_actions::responses::PublicFoldResponse;
use crate::game_actions::responses::StatusCode;
use crate::games::five_card_draw::GameError;
use crate::games::five_card_draw::exchanged;
use crate::games::five_card_draw::player_count_ok;
use crate::games::five_card_draw::without_all;
use crate::player::Player;
use crate::player::all_in_place;
use crate::player::entrants;
use crate::player::player_stack_of;
use crate::player::seats_of_those;
use crate::pots::error::PotError;
use crate::pots::error::error_text;
use crate::pots::model::PotState;
use crate::pots::model::big_blind_seat;
use crate::pots::model::pots_total;
use crate::pots::model::reset_result;
use crate::pots::showdown::credited;
use crate::pots::showdown::paid_out;
use crate::pots::showdown::payouts;
use crate::table::seats::next_seat;
use crate::table::seats::passes;
use vstd::multiset::Multiset;
use vstd::prelude::*;

verus! {

/// Where a table stands in the course of its hands.
#[derive(Debug, Clone, Copy, PartialEq, Eq, Structural)]
pub enum Phase {
    /// No hand is being played and none is due.
    Idle,
    /// A hand is about to start.
    PreHand,
    /// The street with the given number is being played.
    Street(usize),
    /// The last street is over and the hands are to be ranked.
    Showdown,
    /// The pot is to be paid out.
    Settle,
}

/// Why a hand could not be started.
#[derive(Debug, Clone, Copy, PartialEq, Eq, Structural)]
pub enum HandError {
    /// The table is not about to start a hand.
    WrongPhase,
    /// Fewer or more players have entered than the game is played with.
    PlayerCount,
    /// The pot refused the stakes or the stacks.
    Pot(PotError),
    /// The cards could not be dealt.
    Game(GameError),
}

/// Why a player could not be seated.
#[derive(Debug, Clone, Copy, PartialEq, Eq, Structural)]
pub enum SeatError {
    /// Somebody sits there already.
    SeatTaken,
    /// The table would hold more chips than a chip count can express.
    TooManyChips,
}

/// A request that the table turned down: the status for the player, for a bet
/// that was too small the least amount that would have been taken, and the
/// pot's reason where the pot refused.
#[derive(Debug, Clone, Copy, PartialEq, Eq, Structural)]
pub struct Refusal {
    pub status: StatusCode,
    pub min_bet: u64,
    /// Why the pot refused, where it was the pot that did.
    pub reason: Option<PotError>,
}

/// What a refusal says in words, where the pot gave a reason: for a bet that
/// is too small, the least bet that would be taken, or that only an all-in
/// is open.
pub open spec fn refusal_text(refusal: Refusal) -> Option<Seq<char>> {
    match refusal.reason {
        Some(e) => Some(error_text(e)),
        None => None,
    }
}

impl Refusal {
    /// What the refusal says in words, where the pot gave a reason.
    pub fn message(&self) -> (text: Option<String>)
        ensures
            match text {
                Some(words) => refusal_text(*self) == Some(words@),
                None => refusal_text(*self) is None,
            },
    {
        match self.reason {
            Some(e) => Some(e.message()),
            None => None,
        }
    }
}

/// What a seat is taken to have done when its time ran out.
#[derive(Debug, Clone, Copy, PartialEq, Eq, Structural)]
pub enum TimedOut {
    /// It owed chips and gave up its hand.
    Folded,
    /// It owed nothing and stays in.
    Checked,
    /// It keeps its cards.
    StoodPat,
}

/// The number of streets of a hand: a betting round, an exchange of cards and
/// a second betting round.
pub const STREET_COUNT: usize = 3;

/// Whether cards are exchanged on a street, rather than bets made.
pub open spec fn is_draw_street(street: usize) -> bool {
    street == 1
}

/// The stack of each player who has not entered the hand, zero elsewhere.
pub open spec fn bench_of(players: Map<usize, Player>, entered: Map<usize, (u64, u64)>) -> spec_fn(
    int,
) -> int {
    |k: int|
        if 0 <= k <= usize::MAX && players.contains_key(k as usize) && !entered.contains_key(
            k as usize,
        ) {
            players[k as usize].stack as int
        } else {
            0
        }
}

/// The players with the flag that says who contests the hand set for those
/// who are present, and cleared for the others.
pub open spec fn marked(players: Map<usize, Player>) -> Map<usize, Player> {
    Map::new(
        |k: usize| players.contains_key(k),
        |k: usize| Player { is_in_hand: !players[k].is_away, ..players[k] },
    )
}

/// The players with the stacks that the pot holds for those who entered the
/// hand.
pub open spec fn synced(players: Map<usize, Player>, table: Map<usize, (u64, u64)>) -> Map<
    usize,
    Player,
> {
    Map::new(
        |k: usize| players.contains_key(k),
        |k: usize|
            if table.contains_key(k) {
                players[k].with_stack(table[k].0)
            } else {
                players[k]
            },
    )
}

/// The least bet that the pot would take as a raise, as far as a chip count
/// can express it.
pub open spec fn least_raise(pot: PotState) -> u64 {
    if pot.min_raise() <= u64::MAX {
        pot.min_raise() as u64
    } else {
        u64::MAX
    }
}

/// Why a session could not take a seat.
#[derive(Debug, Clone, Copy, PartialEq, Eq, Structural)]
pub enum JoinError {
    /// The session has a seat already.
    AlreadySeated,
    /// Somebody sits at every seat of the table.
    TableFull,
    /// The seat could not be taken.
    Seat(SeatError),
}

/// What the sessions are told about a move that concerns the pot. The one who
/// moved learns how the move fared; if it was taken, the others learn of it.
pub open spec fn pot_responses(
    session: SessionId,
    seat: usize,
    action: PotAction,
    outcome: Result<u64, Refusal>,
) -> Seq<GameResponse> {
    let status = match outcome {
        Ok(_) => StatusCode::OK,
        Err(refusal) => refusal.status,
    };
    let personal = match action {
        PotAction::Fold => SingleResponse::FoldResponse(
            PersonalFoldResponse { req_id: session, status },
        ),
        PotAction::CheckCall => SingleResponse::CheckCallResponse(
            PersonalCheckCallResponse { req_id: session, status },
        ),
        PotAction::BetRaise(_) => SingleResponse::BetRaiseResponse(
            PersonalBetRaiseResponse {
                msg_id: session,
                status,
                bet_amount: match outcome {
                    Ok(committed) => committed,
                    Err(refusal) => refusal.min_bet,
                },
                error: match outcome {
                    Ok(_) => None,
                    Err(refusal) => refusal.reason,
                },
            },
        ),
    };
    match outcome {
        Ok(committed) => {
            let public = match action {
                PotAction::Fold => Multicast::FoldResponse(PublicFoldResponse { position: seat }),
                PotAction::CheckCall => Multicast::CheckCallResponse(
                    PublicCheckCallResponse { position: seat },
                ),
                PotAction::BetRaise(_) => Multicast::BetRaiseResponse(
                    PublicBetRaiseResponse { position: seat, bet_amount: committed },
                ),
            };
            seq![
                GameResponse::Multicast(session, public),
                GameResponse::SingleResponse(session, personal),
            ]
        },
        Err(_) => seq![GameResponse::SingleResponse(session, personal)],
    }
}

/// The response tells the other sessions that `seat` has exchanged `count`
/// cards.
pub open spec fn is_draw_notice(
    response: GameResponse,
    session: SessionId,
    seat: usize,
    count: nat,
) -> bool {
    response == GameResponse::Multicast(
        session,
        Multicast::DrawResponse(
            PublicDrawResponse {
                position: seat,
                discard_count: count as usize,
                cards_recieved: count as usize,
            },
        ),
    )
}

/// The response tells `session` how its exchange fared, and the cards that it
/// got.
pub open spec fn is_draw_reply(
    response: GameResponse,
    session: SessionId,
    status: StatusCode,
    cards: Seq<Card>,
) -> bool {
    response matches GameResponse::SingleResponse(to, SingleResponse::DrawResponse(personal))
        && to == session && personal.req_id == session && personal.status == status
        && personal.new_cards@ == cards
}

/// The response tells `session` the cards that it starts the hand with.
pub open spec fn is_starting_hand(response: GameResponse, session: SessionId, hand: Seq<Card>) -> bool {
    response matches GameResponse::SingleResponse(to, SingleResponse::StartingHandResponse(dealt))
        && to == session && dealt.hand@ == hand
}

/// The session that a response is for, where it is for one alone.
pub open spec fn recipient(response: GameResponse) -> Option<SessionId> {
    match response {
        GameResponse::SingleResponse(to, _) => Some(to),
        _ => None,
    }
}

/// `seat` is the first seat below `capacity` at which nobody sits.
pub open spec fn is_first_free(players: Map<usize, Player>, capacity: usize, seat: usize) -> bool {
    &&& seat < capacity
    &&& !players.contains_key(seat)
    &&& forall|t: usize| t < seat ==> players.contains_key(t)
}

/// Somebody sits at every seat below `capacity`.
pub open spec fn is_full(players: Map<usize, Player>, capacity: usize) -> bool {
    forall|t: usize| t < capacity ==> players.contains_key(t)
}

/// The answer to a session that has no seat: it is never its turn.
pub open spec fn no_seat() -> Refusal {
    Refusal { status: StatusCode::NotYourTurn, min_bet: 0, reason: None }
}

/// The state of a table.
pub struct TableState {
    pub players: Map<usize, Player>,
    pub pot: PotState,
    pub phase: Phase,
    /// The seat to act.
    pub action_idx: usize,
    pub btn_idx: usize,
    pub big_blind_idx: usize,
    /// Whether another hand is to follow.
    pub start_next_hand: bool,
    pub is_paused: bool,
    pub is_next_hand_bomb: bool,
    /// The seat that acted first on a street on which cards are exchanged.
    pub draw_opener: usize,
    /// The ranks by which the pot is to be paid out.
    pub rankings: Map<usize, u64>,
    pub sb_amt: u64,
    pub bb_amt: u64,
    pub ante_amt: u64,
    /// All chips at the table.
    pub total_chips: u64,
    /// The seat of each session that has one.
    pub sessions: Map<u128, usize>,
    /// Whether the game holds a deck.
    pub has_deck: bool,
    /// The cards on the board.
    pub board: Seq<Card>,
    /// The cards in the deck, by their encodings.
    pub deck: Multiset<Seq<char>>,
    /// The cards on the discard pile, by their encodings.
    pub pile: Multiset<Seq<char>>,
}

impl TableState {
    /// A table without players, stakes or a hand in play: idle, with the
    /// button and the turn at seat nought, and a game without a deck.
    pub open spec fn fresh() -> TableState {
        TableState {
            players: Map::empty(),
            pot: PotState::empty(),
            phase: Phase::Idle,
            action_idx: 0,
            btn_idx: 0,
            big_blind_idx: 0,
            start_next_hand: false,
            is_paused: false,
            is_next_hand_bomb: false,
            draw_opener: 0,
            rankings: Map::empty(),
            sb_amt: 0,
            bb_amt: 0,
            ante_amt: 0,
            total_chips: 0,
            sessions: Map::empty(),
            has_deck: false,
            board: Seq::empty(),
            deck: Multiset::empty(),
            pile: Multiset::empty(),
        }
    }

    /// A hand is being played or settled.
    pub open spec fn live(self) -> bool {
        self.phase is Street || self.phase is Showdown || self.phase is Settle
    }

    /// All chips at the table. During a hand the chips of those who entered
    /// it are in the pot's keeping; between hands every player holds its own,
    /// and the slices hold what nobody won.
    pub open spec fn chips(self) -> int {
        if self.live() {
            sum_all(bench_of(self.players, self.pot.stacks_bets)) + self.pot.chips()
        } else {
            sum_all(player_stack_of(self.players)) + pots_total(self.pot.pots)
        }
    }

    /// The seats that still contest the hand.
    pub open spec fn in_hand(self) -> Set<usize> {
        seats_of_those(self.players, true)
    }

    /// What every step of the table keeps true.
    pub open spec fn wf(self) -> bool {
        &&& self.pot.wf()
        &&& self.total_chips == self.chips()
        &&& self.live() ==> self.pot.stacks_bets.dom().subset_of(self.players.dom())
        &&& self.live() ==> self.in_hand().subset_of(self.pot.stacks_bets.dom())
        &&& self.phase is Street ==> self.in_hand().contains(self.action_idx)
        &&& self.phase is Settle ==> self.rankings.dom().subset_of(self.players.dom())
        &&& self.live() ==> self.has_deck
        &&& all_in_place(self.players)
    }

    /// The state after an instruction to the table.
    pub open spec fn after_control(self, kind: ActionType) -> TableState {
        match kind {
            ActionType::StartGame => TableState {
                start_next_hand: true,
                phase: if self.phase is Idle {
                    Phase::PreHand
                } else {
                    self.phase
                },
                ..self
            },
            ActionType::StopGame => TableState { start_next_hand: false, ..self },
            ActionType::PauseGame => TableState { is_paused: true, ..self },
            ActionType::ResumeGame => TableState { is_paused: false, ..self },
            _ => self,
        }
    }

    /// What `seat_player` answers.
    pub open spec fn seat_result(self, position: usize, stack: u64) -> Result<(), SeatError> {
        if self.players.contains_key(position) {
            Err(SeatError::SeatTaken)
        } else if self.total_chips + stack > u64::MAX {
            Err(SeatError::TooManyChips)
        } else {
            Ok(())
        }
    }

    /// Whether a hand can start, as far as the table decides it.
    pub open spec fn begin_check(self) -> Result<(), HandError> {
        if !(self.phase is PreHand) {
            Err(HandError::WrongPhase)
        } else if !player_count_ok(entrants(self.players).dom().len() as int) {
            Err(HandError::PlayerCount)
        } else {
            match reset_result(
                self.players,
                self.sb_amt,
                self.bb_amt,
                self.ante_amt,
                self.is_next_hand_bomb,
            ) {
                Err(e) => Err(HandError::Pot(e)),
                Ok(_) => Ok(()),
            }
        }
    }

    /// The pot of a new hand after the forced bets.
    pub open spec fn opening_pot(self) -> PotState {
        PotState::fresh(
            entrants(self.players),
            self.sb_amt,
            self.bb_amt,
            self.ante_amt,
            self.is_next_hand_bomb,
        ).after_post_before_deal(self.big_blind_idx)
    }

    /// The seat that acts first in a new hand: the one after the big blind,
    /// or, in a bomb pot, the one after the button.
    pub open spec fn first_to_act(self) -> Option<usize> {
        let seats = entrants(self.players).dom();
        if self.is_next_hand_bomb {
            next_seat(seats, self.btn_idx)
        } else {
            match big_blind_seat(seats, self.big_blind_idx) {
                Some(bb) => next_seat(seats, bb as usize),
                None => None,
            }
        }
    }

    /// Why a move is turned down before the pot is asked, if it is.
    pub open spec fn turned_down(self, seat: usize) -> Option<Refusal> {
        if !(self.phase is Street) {
            Some(Refusal { status: StatusCode::NotYourTurn, min_bet: 0, reason: None })
        } else if self.is_paused {
            Some(Refusal { status: StatusCode::Paused, min_bet: 0, reason: None })
        } else if seat != self.action_idx {
            Some(Refusal { status: StatusCode::NotYourTurn, min_bet: 0, reason: None })
        } else {
            None
        }
    }

    /// What the pot answers to a move.
    pub open spec fn pot_answer(self, seat: usize, action: PotAction) -> Result<u64, PotError> {
        match action {
            PotAction::Fold => Ok(0),
            PotAction::CheckCall => self.pot.check_call_result(seat),
            PotAction::BetRaise(bet) => self.pot.bet_or_shove_result(seat, bet.amount),
        }
    }

    /// What `act` answers.
    pub open spec fn act_result(self, seat: usize, action: PotAction) -> Result<u64, Refusal> {
        match self.turned_down(seat) {
            Some(refusal) => Err(refusal),
            None => if is_draw_street(self.phase->Street_0) && !(action is Fold) {
                Err(Refusal { status: StatusCode::NotYourTurn, min_bet: 0, reason: None })
            } else {
                match self.pot_answer(seat, action) {
                    Ok(committed) => Ok(committed),
                    Err(PotError::CappedAction) => Err(
                        Refusal {
                            status: StatusCode::CappedAction,
                            min_bet: 0,
                            reason: Some(PotError::CappedAction),
                        },
                    ),
                    Err(e) => Err(
                        Refusal {
                            status: StatusCode::InvalidBet,
                            min_bet: least_raise(self.pot),
                            reason: Some(e),
                        },
                    ),
                }
            },
        }
    }

    /// The state once the pot and the players have taken a move, before the
    /// action moves on.
    pub open spec fn moved(self, seat: usize, action: PotAction) -> TableState {
        match action {
            PotAction::Fold => TableState {
                pot: self.pot.after_fold(seat),
                players: self.players.insert(
                    seat,
                    Player { is_in_hand: false, ..self.players[seat] },
                ),
                ..self
            },
            PotAction::CheckCall => TableState { pot: self.pot.after_check_call(seat), ..self },
            PotAction::BetRaise(bet) => TableState {
                pot: self.pot.after_bet_or_shove(seat, bet.amount),
                ..self
            },
        }
    }

    /// Whether the round is over once `seat` has acted and `next` would be
    /// the next to act: on a betting street, the action has passed the last
    /// seat that bet; on a street of exchanges, the seat that began it.
    pub open spec fn round_closed(self, seat: usize, next: usize) -> bool {
        if is_draw_street(self.phase->Street_0) {
            passes(seat, next, self.draw_opener)
        } else {
            match self.pot.largest_bet_idxes {
                Some((lb, _)) => passes(seat, next, lb),
                None => false,
            }
        }
    }

    /// The state after the end of a street: the bets are collected, and the
    /// next street begins with the seat after the button, or, after the last
    /// street, the showdown is due.
    pub open spec fn next_street(self, next: usize) -> TableState {
        let street = self.phase->Street_0;
        if street + 1 >= STREET_COUNT {
            TableState { phase: Phase::Showdown, pot: self.pot.after_collect(), ..self }
        } else {
            let opener = match next_seat(self.in_hand(), self.btn_idx) {
                Some(p) => p,
                None => next,
            };
            TableState {
                phase: Phase::Street((street + 1) as usize),
                pot: self.pot.after_collect(),
                action_idx: opener,
                draw_opener: opener,
                ..self
            }
        }
    }

    /// The state once the action has moved on from `seat`. Where nobody or
    /// only one seat still contests the hand, the bets are collected and the
    /// pot is to be settled, with that seat as the only one ranked. Where the
    /// round is over the next street begins. Otherwise the next seat is to
    /// act.
    pub open spec fn advanced(self, seat: usize) -> TableState {
        match next_seat(self.in_hand(), seat) {
            None => TableState {
                phase: Phase::Settle,
                pot: self.pot.after_collect(),
                rankings: Map::empty(),
                ..self
            },
            Some(next) => if next_seat(self.in_hand(), next) == Some(next) {
                TableState {
                    phase: Phase::Settle,
                    pot: self.pot.after_collect(),
                    rankings: Map::<usize, u64>::empty().insert(next, 0),
                    action_idx: next,
                    ..self
                }
            } else if self.round_closed(seat, next) {
                self.next_street(next)
            } else {
                TableState { action_idx: next, ..self }
            },
        }
    }

    /// The state after `act`.
    pub open spec fn after_act(self, seat: usize, action: PotAction) -> TableState {
        if self.act_result(seat, action) is Ok {
            self.moved(seat, action).advanced(seat)
        } else {
            self
        }
    }

    /// What every step of the table keeps true, but for the seat to act,
    /// which is open while a move is being taken.
    pub open spec fn wf_mid(self) -> bool {
        &&& self.pot.wf()
        &&& self.total_chips == self.chips()
        &&& self.live() ==> self.pot.stacks_bets.dom().subset_of(self.players.dom())
        &&& self.live() ==> self.in_hand().subset_of(self.pot.stacks_bets.dom())
        &&& self.phase is Settle ==> self.rankings.dom().subset_of(self.players.dom())
        &&& self.live() ==> self.has_deck
        &&& all_in_place(self.players)
    }

    /// The state once the player at `seat` holds `hand`, and the deck and the
    /// pile hold what is given.
    pub open spec fn with_exchange(
        self,
        seat: usize,
        hand: Vec<Card>,
        deck: Multiset<Seq<char>>,
        pile: Multiset<Seq<char>>,
    ) -> TableState {
        TableState {
            players: self.players.insert(seat, Player { hand, ..self.players[seat] }),
            deck,
            pile,
            ..self
        }
    }

    /// It is the turn of the player at `seat` to exchange cards, and the
    /// exchange cannot be made: the player does not hold the cards, or the deck
    /// and the discard pile together hold too few.
    pub open spec fn draw_barred(self, seat: usize, discards: Seq<Card>) -> bool {
        &&& self.may_draw(seat)
        &&& without_all(self.players[seat].hand@, discards) is None || discards.len()
            > self.deck.len() + self.pile.len()
    }

    /// The player at `seat` may exchange the given cards now, and the exchange
    /// cannot fail: it is the seat's turn to exchange, it holds the cards, and
    /// the deck holds as many.
    pub open spec fn draw_owed(self, seat: usize, discards: Seq<Card>) -> bool {
        &&& self.may_draw(seat)
        &&& without_all(self.players[seat].hand@, discards) is Some
        &&& discards.len() <= self.deck.len()
    }

    /// Whether the player at `seat` may exchange cards now.
    pub open spec fn may_draw(self, seat: usize) -> bool {
        self.turned_down(seat) is None && is_draw_street(self.phase->Street_0)
    }

    /// An exchange of cards that was turned down: nothing has changed, and
    /// the refusal says why. It is not the seat's turn, or the table is
    /// paused, or no cards are being exchanged; any other failure is answered
    /// as an invalid request.
    pub open spec fn draw_refused(self, after: TableState, seat: usize, refusal: Refusal) -> bool {
        &&& after == self
        &&& match self.turned_down(seat) {
            Some(reason) => refusal == reason,
            None => refusal == (Refusal {
                status: if self.may_draw(seat) {
                    StatusCode::InvalidBet
                } else {
                    StatusCode::NotYourTurn
                },
                min_bet: 0,
                reason: None,
            }),
        }
    }

    /// An exchange of cards that went through: the seat held the cards that it
    /// gave up, has as many new ones behind those it kept, the new cards have
    /// left the deck and the old ones lie on the pile, and the action has moved
    /// on.
    pub open spec fn draw_done(
        self,
        after: TableState,
        seat: usize,
        discards: Seq<Card>,
        drawn: Seq<Card>,
    ) -> bool {
        &&& self.may_draw(seat)
        &&& without_all(self.players[seat].hand@, discards) is Some
        &&& drawn.len() == discards.len()
        &&& after.players[seat].hand@ == without_all(self.players[seat].hand@, discards)->0 + drawn
        &&& exchanged(
            self.deck,
            self.pile,
            after.deck,
            after.pile,
            texts_of(discards),
            texts_of(drawn),
        )
        &&& after == self.with_exchange(
            seat,
            after.players[seat].hand,
            after.deck,
            after.pile,
        ).advanced(seat)
    }

    /// What the seat to act is taken to do when its time runs out: where cards
    /// are being exchanged it keeps its cards; where it owes chips to the bet
    /// and has chips left it folds; else it checks.
    pub open spec fn timed_out_move(self) -> TimedOut {
        let entry = self.pot.stacks_bets[self.action_idx];
        if is_draw_street(self.phase->Street_0) {
            TimedOut::StoodPat
        } else if entry.1 < self.pot.largest_bet && entry.1 < entry.0 {
            TimedOut::Folded
        } else {
            TimedOut::Checked
        }
    }

    /// The state after the time of the seat to act has run out.
    pub open spec fn after_timeout(self) -> TableState {
        if self.turned_down(self.action_idx) is Some {
            self
        } else {
            match self.timed_out_move() {
                TimedOut::StoodPat => self.advanced(self.action_idx),
                TimedOut::Folded => self.after_act(self.action_idx, PotAction::Fold),
                TimedOut::Checked => self.after_act(self.action_idx, PotAction::CheckCall),
            }
        }
    }

    /// What the sessions are told about an exchange of cards, and what has
    /// become of the table. A session without a seat is told that it is not
    /// its turn. An exchange that is turned down changes nothing, and the one
    /// who asked learns why. An exchange that goes through is made known to
    /// the others by its size and to the one who asked with its new cards. An
    /// exchange of cards that the seat does not hold, or of more cards than
    /// the deck and the pile hold, is turned down; one that is the seat's to
    /// make goes through where the deck holds cards enough.
    pub open spec fn draw_told(
        self,
        after: TableState,
        session: SessionId,
        discards: Seq<Card>,
        told: Seq<GameResponse>,
    ) -> bool {
        let seat = self.sessions[session.id];
        &&& told.len() == 1 || told.len() == 2
        &&& !self.sessions.contains_key(session.id) ==> told.len() == 1 && after == self
            && is_draw_reply(told[0], session, StatusCode::NotYourTurn, Seq::empty())
        &&& self.sessions.contains_key(session.id) && told.len() == 1 ==> exists|refusal: Refusal|
            self.draw_refused(after, seat, refusal) && is_draw_reply(
                told[0],
                session,
                refusal.status,
                Seq::empty(),
            )
        &&& told.len() == 2 ==> self.sessions.contains_key(session.id) && exists|drawn: Seq<Card>|
            self.draw_done(after, seat, discards, drawn) && is_draw_notice(
                told[0],
                session,
                seat,
                drawn.len(),
            ) && is_draw_reply(told[1], session, StatusCode::OK, drawn)
        &&& self.sessions.contains_key(session.id) && self.draw_barred(seat, discards)
            ==> told.len() == 1
        &&& self.sessions.contains_key(session.id) && self.draw_owed(seat, discards)
            ==> told.len() == 2
    }

    /// A new session has been given the first free seat below `capacity`,
    /// with a player who is present and holds `stack` chips; during a hand the
    /// player waits for the next one.
    pub open spec fn newly_seated(
        self,
        after: TableState,
        session: SessionId,
        seat: usize,
        capacity: usize,
        stack: u64,
    ) -> bool {
        &&& is_first_free(self.players, capacity, seat)
        &&& after == (TableState {
            players: self.players.insert(seat, after.players[seat]),
            total_chips: (self.total_chips + stack) as u64,
            sessions: self.sessions.insert(session.id, seat),
            ..self
        })
        &&& after.players[seat].stack == stack
        &&& after.players[seat].table_position == seat
        &&& !after.players[seat].is_away
        &&& after.players[seat].is_in_hand == !self.live()
    }

    /// The response tells a session whose player is in the hand the cards of
    /// that player.
    pub open spec fn tells_own_hand(self, response: GameResponse) -> bool {
        response matches GameResponse::SingleResponse(to, SingleResponse::StartingHandResponse(dealt))
            && self.sessions.contains_key(to.id) && self.players.contains_key(self.sessions[to.id])
            && self.players[self.sessions[to.id]].is_in_hand && dealt.hand@
            == self.players[self.sessions[to.id]].hand@
    }

    /// What the showdown pays, by seat.
    pub open spec fn showdown_pay(self) -> Map<usize, u64> {
        payouts(self.pot.pots, self.rankings, self.btn_idx)
    }

    /// The state after the pot has been settled: the players have the stacks
    /// that the pot kept for them and their winnings, the slices that were won
    /// are empty, the button and the big blind have moved on to the next
    /// player who is present, and another hand is due if one is wanted and the
    /// players are enough for it.
    pub open spec fn after_settle(self) -> TableState {
        let present = entrants(self.players).dom();
        TableState {
            players: credited(synced(self.players, self.pot.stacks_bets), self.showdown_pay()),
            pot: PotState {
                pots: paid_out(self.pot.pots, self.rankings),
                ..self.pot
            },
            btn_idx: match next_seat(present, self.btn_idx) {
                Some(p) => p,
                None => self.btn_idx,
            },
            big_blind_idx: match next_seat(present, self.big_blind_idx) {
                Some(p) => p,
                None => self.big_blind_idx,
            },
            phase: if self.start_next_hand && player_count_ok(present.len() as int) {
                Phase::PreHand
            } else {
                Phase::Idle
            },
            ..self
        }
    }
}

} // verus!
