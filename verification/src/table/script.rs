//! The steps of a hand that need no move from a player, and what the
//! sessions are told of them.

use crate::action::SessionId;
use crate::game_actions::game_action::Broadcast;
use crate::game_actions::game_action::GameResponse;
use crate::game_actions::game_action::Multicast;
use crate::game_actions::responses::GameState;
use crate::game_actions::responses::PublicCheckCallResponse;
use crate::game_actions::responses::PublicDrawResponse;
use crate::game_actions::responses::PublicFoldResponse;
use crate::games::five_card_draw::GameError;
use crate::games::five_card_draw::HAND_SIZE;
use crate::games::five_card_draw::only_hands_differ;
use crate::games::five_card_draw::showdown_ranks;
use crate::games::five_card_draw::times_held;
use crate::player::entrants;
use crate::pots::model::PotState;
use crate::pots::model::pots_total;
use crate::table::state::HandError;
use crate::table::state::Phase;
use crate::table::state::TableState;
use crate::table::state::TimedOut;
use crate::table::state::is_starting_hand;
use crate::table::state::marked;
use crate::table::state::recipient;
use vstd::multiset::Multiset;
use vstd::prelude::*;

verus! {

/// What all sessions but that of the seat are told when the table has moved
/// for a seat whose time ran out.
pub open spec fn timeout_notice(seat: usize, taken: TimedOut) -> Multicast {
    match taken {
        TimedOut::Folded => Multicast::FoldResponse(PublicFoldResponse { position: seat }),
        TimedOut::Checked => Multicast::CheckCallResponse(
            PublicCheckCallResponse { position: seat },
        ),
        TimedOut::StoodPat => Multicast::DrawResponse(
            PublicDrawResponse { position: seat, discard_count: 0, cards_recieved: 0 },
        ),
    }
}

impl TableState {
    /// A seat is to act and the table is not paused: the time of that seat is
    /// running.
    pub open spec fn on_the_clock(self) -> bool {
        self.phase is Street && !self.is_paused
    }

    /// The snapshot shows the table: the seats of the button, of the big blind
    /// and of the turn, whether the table is paused, the largest bet, the chips
    /// of each slice, oldest first, and the stack and the bet of every entrant,
    /// in increasing order of seat.
    pub open spec fn is_shown_by(self, state: GameState) -> bool {
        &&& state.action_idx == self.action_idx
        &&& state.btn_idx == self.btn_idx
        &&& state.big_blind_idx == self.big_blind_idx
        &&& state.is_paused == self.is_paused
        &&& state.largest_bet == self.pot.largest_bet
        &&& state.pot_amounts@.len() == self.pot.pots.len()
        &&& forall|i: int|
            0 <= i < state.pot_amounts@.len() ==> #[trigger] state.pot_amounts@[i]
                == self.pot.pots[i].amount
        &&& state.stacks_bets@.len() == self.pot.stacks_bets.dom().len()
        &&& forall|i: int|
            0 <= i < state.stacks_bets@.len() ==> self.pot.stacks_bets.contains_key(
                (#[trigger] state.stacks_bets@[i]).0,
            ) && self.pot.stacks_bets[state.stacks_bets@[i].0] == (
                state.stacks_bets@[i].1,
                state.stacks_bets@[i].2,
            )
        &&& forall|i: int, j: int|
            0 <= i < j < state.stacks_bets@.len() ==> (#[trigger] state.stacks_bets@[i]).0 < (
            #[trigger] state.stacks_bets@[j]).0
    }

    /// The response shows the table to every session.
    pub open spec fn is_state_notice(self, response: GameResponse) -> bool {
        match response {
            GameResponse::Broadcast(Broadcast::State(state)) => self.is_shown_by(state),
            _ => false,
        }
    }

    /// The responses tell the starting hands: each tells a session whose
    /// player is in the hand the cards of that player, no session is told
    /// twice, and every such session is told.
    pub open spec fn are_starting_hands(self, told: Seq<GameResponse>) -> bool {
        &&& forall|i: int| 0 <= i < told.len() ==> self.tells_own_hand(#[trigger] told[i])
        &&& forall|i: int, j: int|
            0 <= i < j < told.len() ==> recipient(#[trigger] told[i]) != recipient(
                #[trigger] told[j],
            )
        &&& forall|id: u128|
            self.sessions.contains_key(id) && self.players.contains_key(self.sessions[id])
                && self.players[self.sessions[id]].is_in_hand ==> exists|i: int|
                0 <= i < told.len() && is_starting_hand(
                    #[trigger] told[i],
                    SessionId { id },
                    self.players[self.sessions[id]].hand@,
                )
    }

    /// What the start of a hand does to the table, and what it answers.
    ///
    /// Where the table turns the hand down, only the phase changes: the table
    /// goes idle, unless no hand was due. Else the hand starts, or is called
    /// off because the deck cannot be shuffled. A hand that starts has the
    /// forced bets taken, a fresh deck, an empty board and an empty discard
    /// pile; every entrant holds five cards, no card is in two places, and the
    /// deck holds the rest. A hand that is called off leaves an empty pot and
    /// an idle table, and the players with the cards they had. Either way the
    /// chips that nobody won in the hand before leave the table with the old
    /// slices.
    pub open spec fn hand_begun(self, after: TableState, res: Result<(), HandError>) -> bool {
        match self.begin_check() {
            Err(e) => res == Err::<(), HandError>(e) && after == (TableState {
                phase: if e is WrongPhase {
                    self.phase
                } else {
                    Phase::Idle
                },
                ..self
            }),
            Ok(_) => {
                &&& res is Ok || res == Err::<(), HandError>(
                    HandError::Game(GameError::DeckUnavailable),
                )
                &&& only_hands_differ(marked(self.players), after.players)
                &&& res is Ok ==> self.dealt_into(after)
                &&& res is Err ==> after == (TableState {
                    phase: Phase::Idle,
                    pot: PotState::empty(),
                    players: marked(self.players),
                    total_chips: (self.total_chips - pots_total(self.pot.pots)) as u64,
                    ..self
                })
            },
        }
    }

    /// The table `after` is this one with a hand dealt: the first street has
    /// begun with the forced bets taken, every entrant holds five cards, the
    /// deck holds the other cards of the fifty-two, and no card is in two
    /// places.
    pub open spec fn dealt_into(self, after: TableState) -> bool {
        &&& self.first_to_act() is Some
        &&& after == (TableState {
            phase: Phase::Street(0),
            pot: self.opening_pot(),
            players: after.players,
            action_idx: self.first_to_act()->0,
            total_chips: (self.total_chips - pots_total(self.pot.pots)) as u64,
            has_deck: true,
            board: Seq::empty(),
            deck: after.deck,
            pile: Multiset::empty(),
            ..self
        })
        &&& forall|k: usize|
            entrants(self.players).contains_key(k) ==> (#[trigger] after.players[k]).hand@.len()
                == HAND_SIZE
        &&& forall|text: Seq<char>|
            times_held(after.players, text) + after.deck.count(text) <= 1
        &&& after.deck.len() == 52 - HAND_SIZE * entrants(self.players).dom().len()
    }

    /// What the start of a hand answered, told from the table after it.
    pub open spec fn begin_answer(self, after: TableState) -> Result<(), HandError> {
        match self.begin_check() {
            Err(e) => Err(e),
            Ok(_) => if after.phase is Street {
                Ok(())
            } else {
                Err(HandError::Game(GameError::DeckUnavailable))
            },
        }
    }

    /// The state once the hands have been ranked, where that was due.
    pub open spec fn ranked(self) -> TableState {
        if self.phase is Showdown {
            TableState {
                phase: Phase::Settle,
                rankings: showdown_ranks(self.players),
                ..self
            }
        } else {
            self
        }
    }

    /// The state once the pot has been paid out, where that was due.
    pub open spec fn paid(self) -> TableState {
        if self.phase is Settle {
            self.after_settle()
        } else {
            self
        }
    }

    /// What the steps that need no player do to the table, and what the
    /// sessions are told.
    ///
    /// Where the hands are to be ranked they are ranked, and where the pot is
    /// then to be paid out it is paid out, and the table is shown to all.
    /// Where a hand is then due it is started, and each session whose player
    /// is in it is told its cards. A table at which a seat is to act, or at
    /// which nothing is due, is left as it is, and nothing is told.
    pub open spec fn script_run(self, after: TableState, told: Seq<GameResponse>) -> bool {
        let settled = self.ranked().paid();
        let shown: nat = if self.ranked().phase is Settle {
            1
        } else {
            0
        };
        &&& told.len() >= shown
        &&& shown == 1 ==> settled.is_state_notice(told[0])
        &&& if settled.phase is PreHand {
            &&& settled.hand_begun(after, settled.begin_answer(after))
            &&& if after.phase is Street {
                after.are_starting_hands(told.skip(shown as int))
            } else {
                told.len() == shown
            }
        } else {
            after == settled && told.len() == shown
        }
    }

    /// What the sessions are told where the time of the seat to act has run
    /// out. Nothing where the table did not move for it, or where no session
    /// sits at the seat; else all sessions but one that sits at the seat are
    /// told what the table did for it.
    pub open spec fn timeout_told(self, told: Seq<GameResponse>) -> bool {
        let seat = self.action_idx;
        if self.turned_down(seat) is Some || !self.has_session_at(seat) {
            told.len() == 0
        } else {
            told.len() == 1 && match told[0] {
                GameResponse::Multicast(session, notice) => self.sessions.contains_key(session.id)
                    && self.sessions[session.id] == seat && notice == timeout_notice(
                    seat,
                    self.timed_out_move(),
                ),
                _ => false,
            }
        }
    }

    /// A session sits at `seat`.
    pub open spec fn has_session_at(self, seat: usize) -> bool {
        exists|id: u128| #[trigger] self.sessions.contains_key(id) && self.sessions[id] == seat
    }
}

} // verus!
