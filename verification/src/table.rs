//! The table: its players, its pot, and the course of a hand.

pub mod laws;
pub mod script;
pub mod seats;
pub mod state;

use crate::action::ActionType;
use crate::action::SessionId;
use crate::cards::Card;
use crate::chips::lemma_sum_below_add;
use crate::chips::lemma_sum_below_agree;
use crate::chips::lemma_sum_below_update;
use crate::chips::lemma_sum_below_zero;
use crate::chips::seat_limit;
use crate::chips::sum_all;
use crate::game_actions::game_action::Broadcast;
use crate::game_actions::game_action::GameAction;
use crate::game_actions::game_action::GameResponse;
use crate::game_actions::game_action::Multicast;
use crate::game_actions::game_action::PotAction;
use crate::game_actions::game_action::SingleResponse;
use crate::game_actions::requests::DrawAction;
use crate::game_actions::responses::GameState;
use crate::game_actions::responses::PersonalBetRaiseResponse;
use crate::game_actions::responses::PersonalCheckCallResponse;
use crate::game_actions::responses::PersonalDrawResponse;
use crate::game_actions::responses::PersonalFoldResponse;
use crate::game_actions::responses::PublicBetRaiseResponse;
use crate::game_actions::responses::PublicCheckCallResponse;
use crate::game_actions::responses::PublicDrawResponse;
use crate::game_actions::responses::PublicFoldResponse;
use crate::game_actions::responses::StartingHandResponse;
use crate::game_actions::responses::StatusCode;
use crate::games::five_card_draw::FiveCardDraw;
use crate::games::five_card_draw::copy_cards;
use crate::games::five_card_draw::showdown_ranks;
use crate::ordered::among_first;
use crate::ordered::seat_keys;
use crate::ordered::seats_of;
use crate::player::Player;
use crate::player::entrant_seats;
use crate::player::entrants;
use crate::player::list_seats;
use crate::player::player_stack_of;
use crate::pots::error::PotError;
use crate::pots::laws::law_entrants_stay;
use crate::pots::laws::lemma_blind_seats;
use crate::pots::model::big_blind_seat;
use crate::pots::model::pots_total;
use crate::pots::model::small_blind_seat;
use crate::pots::model::stack_of;
use crate::pots::model::total_stacks;
use crate::pots::no_limit_pot::NoLimitPot;
use crate::pots::no_limit_pot::lemma_pots_nonneg;
use crate::pots::no_limit_pot::lemma_sum_below_nonneg_all;
use crate::pots::partial_pot::slices_of;
use crate::table::seats::first_from;
use crate::table::seats::next_after;
use crate::table::seats::passes_mark;
use crate::table::state::HandError;
use crate::table::state::JoinError;
use crate::table::state::Phase;
use crate::table::state::Refusal;
use crate::table::state::STREET_COUNT;
use crate::table::state::SeatError;
use crate::table::state::TableState;
use crate::table::state::TimedOut;
use crate::table::state::bench_of;
use crate::table::state::is_draw_reply;
use crate::table::state::is_first_free;
use crate::table::state::is_full;
use crate::table::state::is_starting_hand;
use crate::table::state::marked;
use crate::table::state::no_seat;
use crate::table::state::pot_responses;
use crate::table::state::recipient;
use crate::table::state::synced;
use std::collections::BTreeMap;
use std::collections::HashMap;
use vstd::prelude::*;
use vstd::std_specs::iter::IteratorSpec;

verus! {

/// A poker table.
pub struct Table {
    players: HashMap<usize, Player>,
    game: FiveCardDraw,
    action_idx: usize,
    big_blind_idx: usize,
    btn_idx: usize,
    pot: NoLimitPot,
    start_next_hand: bool,
    is_paused: bool,
    is_next_hand_bomb: bool,
    phase: Phase,
    draw_opener: usize,
    rankings: HashMap<usize, u64>,
    sb_amt: u64,
    bb_amt: u64,
    ante_amt: u64,
    total_chips: u64,
    sessions: HashMap<u128, usize>,
}

impl View for Table {
    type V = TableState;

    closed spec fn view(&self) -> TableState {
        TableState {
            players: self.players@,
            pot: self.pot@,
            phase: self.phase,
            action_idx: self.action_idx,
            btn_idx: self.btn_idx,
            big_blind_idx: self.big_blind_idx,
            start_next_hand: self.start_next_hand,
            is_paused: self.is_paused,
            is_next_hand_bomb: self.is_next_hand_bomb,
            draw_opener: self.draw_opener,
            rankings: self.rankings@,
            sb_amt: self.sb_amt,
            bb_amt: self.bb_amt,
            ante_amt: self.ante_amt,
            total_chips: self.total_chips,
            sessions: self.sessions@,
            has_deck: self.game.has_deck(),
            board: self.game.on_board(),
            deck: self.game.in_deck(),
            pile: self.game.on_pile(),
        }
    }
}

/// Sets the flag that says who contests the hand for the players who are
/// present, and clears it for the others.
fn mark_entrants(players: &mut HashMap<usize, Player>)
    ensures
        final(players)@ == marked(old(players)@),
{
    let keys = seat_keys(players);
    let mut i: usize = 0;
    while i < keys.len()
        invariant
            i <= keys@.len(),
            keys@.to_set() == old(players)@.dom(),
            keys@.no_duplicates(),
            players@.dom() == old(players)@.dom(),
            forall|k: usize|
                old(players)@.contains_key(k) ==> #[trigger] players@[k] == if among_first(
                    keys@,
                    i as int,
                    k,
                ) {
                    marked(old(players)@)[k]
                } else {
                    old(players)@[k]
                },
        decreases keys@.len() - i,
    {
        let seat = keys[i];
        proof {
            assert(keys@.to_set().contains(seat));
            assert(!among_first(keys@, i as int, seat));
            assert forall|p: usize| among_first(keys@, i + 1, p) <==> among_first(
                keys@,
                i as int,
                p,
            ) || p == seat by {}
        }
        let taken = players.remove(&seat);
        assert(taken is Some);
        let mut player = taken.unwrap();
        player.is_in_hand = !player.is_away;
        players.insert(seat, player);
        proof {
            assert(players@.dom() =~= old(players)@.dom());
        }
        i += 1;
    }
    proof {
        assert forall|k: usize| old(players)@.contains_key(k) implies among_first(
            keys@,
            i as int,
            k,
        ) by {
            assert(keys@.to_set().contains(k));
        }
        assert(players@ =~= marked(old(players)@));
    }
}

/// Gives each player who entered the hand the stack that the pot holds for
/// it.
fn sync_stacks(players: &mut HashMap<usize, Player>, table: &BTreeMap<usize, (u64, u64)>)
    requires
        table@.dom().subset_of(old(players)@.dom()),
    ensures
        final(players)@ == synced(old(players)@, table@),
{
    let keys = seats_of(table);
    let mut i: usize = 0;
    while i < keys.len()
        invariant
            i <= keys@.len(),
            keys@.to_set() == table@.dom(),
            keys@.no_duplicates(),
            table@.dom().subset_of(old(players)@.dom()),
            players@.dom() == old(players)@.dom(),
            forall|k: usize|
                old(players)@.contains_key(k) ==> #[trigger] players@[k] == if among_first(
                    keys@,
                    i as int,
                    k,
                ) {
                    synced(old(players)@, table@)[k]
                } else {
                    old(players)@[k]
                },
        decreases keys@.len() - i,
    {
        let seat = keys[i];
        proof {
            assert(keys@.to_set().contains(seat));
            assert(!among_first(keys@, i as int, seat));
            assert forall|p: usize| among_first(keys@, i + 1, p) <==> among_first(
                keys@,
                i as int,
                p,
            ) || p == seat by {}
        }
        let entry = table.get(&seat);
        assert(entry is Some);
        let stack: u64 = entry.unwrap().0;
        let taken = players.remove(&seat);
        assert(taken is Some);
        let mut player = taken.unwrap();
        player.stack = stack;
        players.insert(seat, player);
        proof {
            assert(players@.dom() =~= old(players)@.dom());
        }
        i += 1;
    }
    proof {
        assert forall|k: usize| old(players)@.contains_key(k) implies #[trigger] players@[k]
            == synced(old(players)@, table@)[k] by {
            if table@.contains_key(k) {
                assert(keys@.to_set().contains(k));
            } else if among_first(keys@, i as int, k) {
                assert(keys@.to_set().contains(k));
            }
        }
        assert(players@ =~= synced(old(players)@, table@));
    }
}

/// The chips of the players are those of the players who stay out of the hand
/// and those that the hand's stack table holds, where that table has the
/// stacks of the players who enter.
pub proof fn lemma_bench_and_table(
    players: Map<usize, Player>,
    seated: Map<usize, Player>,
    table: Map<usize, (u64, u64)>,
)
    requires
        seated.dom() == players.dom(),
        table.dom().subset_of(players.dom()),
        forall|k: usize| players.contains_key(k) ==> (#[trigger] seated[k]).stack == players[k].stack,
    ensures
        sum_all(player_stack_of(synced(players, table))) == sum_all(bench_of(seated, table))
            + total_stacks(table),
{
    lemma_sum_below_add(
        bench_of(seated, table),
        stack_of(table),
        player_stack_of(synced(players, table)),
        seat_limit(),
    );
}

/// Moving the action on leaves the players as they are.
pub proof fn lemma_advance_keeps_players(state: TableState, seat: usize)
    requires
        state.phase is Street,
    ensures
        state.advanced(seat).players == state.players,
{
}

impl Table {
    /// A table without players, stakes or a hand in play.
    pub fn new() -> (table: Table)
        ensures
            table@ == TableState::fresh(),
            table@.wf(),
    {
        let table = Table {
            players: HashMap::new(),
            game: FiveCardDraw::new(),
            action_idx: 0,
            big_blind_idx: 0,
            btn_idx: 0,
            pot: NoLimitPot::new(),
            start_next_hand: false,
            is_paused: false,
            is_next_hand_bomb: false,
            phase: Phase::Idle,
            draw_opener: 0,
            rankings: HashMap::new(),
            sb_amt: 0,
            bb_amt: 0,
            ante_amt: 0,
            total_chips: 0,
            sessions: HashMap::new(),
        };
        proof {
            lemma_sum_below_zero(player_stack_of(table@.players), seat_limit());
            assert(pots_total(table@.pot.pots) == 0);
        }
        table
    }

    /// Where the table stands in the course of its hands.
    pub fn phase(&self) -> (phase: Phase)
        ensures
            phase == self@.phase,
    {
        self.phase
    }

    /// The seat to act.
    pub fn action_idx(&self) -> (seat: usize)
        ensures
            seat == self@.action_idx,
    {
        self.action_idx
    }

    /// The seat of the button.
    pub fn btn_idx(&self) -> (seat: usize)
        ensures
            seat == self@.btn_idx,
    {
        self.btn_idx
    }

    /// The seat from which the big blind is looked for.
    pub fn big_blind_idx(&self) -> (seat: usize)
        ensures
            seat == self@.big_blind_idx,
    {
        self.big_blind_idx
    }

    /// Whether the table takes no moves for now.
    pub fn is_paused(&self) -> (paused: bool)
        ensures
            paused == self@.is_paused,
    {
        self.is_paused
    }

    /// Whether another hand is to follow.
    pub fn start_next_hand(&self) -> (more: bool)
        ensures
            more == self@.start_next_hand,
    {
        self.start_next_hand
    }

    /// The small blind, the big blind and the ante of the hands to come.
    pub fn stakes(&self) -> (stakes: (u64, u64, u64))
        ensures
            stakes == (self@.sb_amt, self@.bb_amt, self@.ante_amt),
    {
        (self.sb_amt, self.bb_amt, self.ante_amt)
    }

    /// Whether the next hand is a bomb pot.
    pub fn is_next_hand_bomb(&self) -> (bomb: bool)
        ensures
            bomb == self@.is_next_hand_bomb,
    {
        self.is_next_hand_bomb
    }

    /// All chips at the table.
    pub fn total_chips(&self) -> (chips: u64)
        ensures
            chips == self@.total_chips,
    {
        self.total_chips
    }

    /// The players, by seat.
    pub fn players(&self) -> (players: &HashMap<usize, Player>)
        ensures
            players@ == self@.players,
    {
        &self.players
    }

    /// The pot.
    pub fn pot(&self) -> (pot: &NoLimitPot)
        ensures
            pot@ == self@.pot,
    {
        &self.pot
    }

    /// Whether the betting round is closed with the action on the seat to
    /// act.
    pub fn check_all_bets_good(&self) -> (good: bool)
        ensures
            good == match self@.pot.largest_bet_idxes {
                Some((lb, _)) => lb == self@.action_idx,
                None => false,
            },
    {
        self.pot.are_all_bets_good(self.action_idx)
    }

    /// Whether nobody contests the hand any more.
    pub fn have_all_players_folded(&self) -> (folded: bool)
        ensures
            folded == self@.in_hand().is_empty(),
    {
        let seats = list_seats(&self.players, true);
        proof {
            if seats@.len() > 0 {
                assert(seats@.to_set().contains(seats@[0]));
            } else {
                assert(seats@.to_set() =~= Set::empty());
            }
        }
        seats.len() == 0
    }

    /// Sets the blinds and the ante of the hands to come, and whether the next
    /// hand is a bomb pot. A hand in play keeps its stakes.
    pub fn set_stakes(&mut self, sb: u64, bb: u64, ante: u64, bomb: bool)
        requires
            old(self)@.wf(),
        ensures
            final(self)@ == (TableState {
                sb_amt: sb,
                bb_amt: bb,
                ante_amt: ante,
                is_next_hand_bomb: bomb,
                ..old(self)@
            }),
            final(self)@.wf(),
    {
        self.sb_amt = sb;
        self.bb_amt = bb;
        self.ante_amt = ante;
        self.is_next_hand_bomb = bomb;
    }

    /// Puts the button and the seat from which the big blind is looked for.
    /// A hand in play is not affected.
    pub fn set_positions(&mut self, btn_idx: usize, big_blind_idx: usize)
        requires
            old(self)@.wf(),
        ensures
            final(self)@ == (TableState { btn_idx, big_blind_idx, ..old(self)@ }),
            final(self)@.wf(),
    {
        self.btn_idx = btn_idx;
        self.big_blind_idx = big_blind_idx;
    }

    /// Takes an instruction to the table. Starting asks for hands to be
    /// played, and readies an idle table for one; stopping lets the hand in
    /// play finish and asks for no more; pausing and resuming close and open
    /// the table to moves. A move in the hand is no instruction and changes
    /// nothing.
    pub fn control(&mut self, kind: ActionType)
        requires
            old(self)@.wf(),
        ensures
            final(self)@ == old(self)@.after_control(kind),
            final(self)@.wf(),
    {
        match kind {
            ActionType::StartGame => {
                self.start_next_hand = true;
                match self.phase {
                    Phase::Idle => {
                        self.phase = Phase::PreHand;
                    },
                    _ => {},
                }
            },
            ActionType::StopGame => {
                self.start_next_hand = false;
            },
            ActionType::PauseGame => {
                self.is_paused = true;
            },
            ActionType::ResumeGame => {
                self.is_paused = false;
            },
            _ => {},
        }
    }

    /// Seats a new player with the given stack. During a hand the player
    /// waits for the next one.
    ///
    /// Fails, changing nothing, where the seat is taken or the table would
    /// hold more chips than a chip count can express.
    pub fn seat_player(&mut self, position: usize, name: String, stack: u64) -> (res: Result<
        (),
        SeatError,
    >)
        requires
            old(self)@.wf(),
        ensures
            res == old(self)@.seat_result(position, stack),
            res is Err ==> final(self)@ == old(self)@,
            res is Ok ==> final(self)@ == (TableState {
                players: old(self)@.players.insert(position, final(self)@.players[position]),
                total_chips: (old(self)@.total_chips + stack) as u64,
                ..old(self)@
            }),
            res is Ok ==> final(self)@.players[position].stack == stack,
            res is Ok ==> final(self)@.players[position].name == name,
            res is Ok ==> final(self)@.players[position].table_position == position,
            res is Ok ==> !final(self)@.players[position].is_away,
            res is Ok ==> final(self)@.players[position].is_in_hand == !old(self)@.live(),
            final(self)@.wf(),
    {
        if self.players.contains_key(&position) {
            return Err(SeatError::SeatTaken);
        }
        let total = match self.total_chips.checked_add(stack) {
            Some(total) => total,
            None => {
                return Err(SeatError::TooManyChips);
            },
        };
        let live = match self.phase {
            Phase::Idle => false,
            Phase::PreHand => false,
            _ => true,
        };
        let mut player = Player::new(position, name, stack);
        player.is_in_hand = !live;
        let ghost before = self@;
        self.players.insert(position, player);
        self.total_chips = total;
        proof {
            if live {
                lemma_sum_below_update(
                    bench_of(before.players, before.pot.stacks_bets),
                    bench_of(self@.players, before.pot.stacks_bets),
                    position as int,
                    seat_limit(),
                );
            } else {
                lemma_sum_below_update(
                    player_stack_of(before.players),
                    player_stack_of(self@.players),
                    position as int,
                    seat_limit(),
                );
            }
            assert(self@.players =~= before.players.insert(position, self@.players[position]));
        }
        Ok(())
    }

    /// Starts a hand on a table that is about to start one.
    ///
    /// The players who are present enter with their stacks; they must be as
    /// many as the game is played with, and the pot must accept the stakes.
    /// Where that fails the table goes idle and nothing else changes. Else the
    /// forced bets are taken, the cards are dealt from a fresh deck onto an
    /// empty board, and the first street begins with the seat after the big
    /// blind, or after the button in a bomb pot.
    /// Every player in the hand gets five cards, and no card is dealt twice.
    /// Where the deck cannot be shuffled the hand is called off: the pot is
    /// emptied and the table goes idle. Chips that nobody won in the hand
    /// before leave the table with the old slices.
    pub fn begin_hand(&mut self) -> (res: Result<(), HandError>)
        requires
            old(self)@.wf(),
        ensures
            final(self)@.wf(),
            old(self)@.hand_begun(final(self)@, res),
    {
        match self.phase {
            Phase::PreHand => {},
            _ => {
                return Err(HandError::WrongPhase);
            },
        }
        let seats = entrant_seats(&self.players);
        if !FiveCardDraw::check_player_condition(seats.len()) {
            self.phase = Phase::Idle;
            return Err(HandError::PlayerCount);
        }
        let ghost before = self@;
        let ghost table = entrants(before.players);
        proof {
            lemma_pots_nonneg(before.pot.pots);
            lemma_sum_below_nonneg_all(player_stack_of(before.players));
        }
        let leftover: u64 = self.pot.chips_in_slices();
        match self.pot.reset_pot(
            &self.players,
            self.sb_amt,
            self.bb_amt,
            self.ante_amt,
            self.is_next_hand_bomb,
        ) {
            Ok(_) => {},
            Err(e) => {
                self.phase = Phase::Idle;
                return Err(HandError::Pot(e));
            },
        }
        proof {
            assert(seats@.to_set().contains(seats@[0]));
            assert(!table.dom().is_empty());
        }
        let ghost fresh = self.pot@;
        let posted = self.pot.post_before_deal(&self.big_blind_idx);
        assert(posted is Ok);
        proof {
            law_entrants_stay(fresh, 0, 0, 0);
            if !fresh.is_bomb_pot {
                let bb = big_blind_seat(table.dom(), before.big_blind_idx);
                let sb = small_blind_seat(table.dom(), before.big_blind_idx);
                assert(bb is Some && sb is Some && fresh.after_antes().has_seat(bb->0 as usize)
                    && fresh.after_antes().has_seat(sb->0 as usize)) by {
                    lemma_blind_seats(table.dom(), before.big_blind_idx, seats@[0]);
                }
                law_entrants_stay(fresh.after_antes(), bb->0 as usize, 0, sb->0 as usize);
            }
            assert(self.pot@.stacks_bets.dom() == table.dom());
        }
        let first = if self.is_next_hand_bomb {
            next_after(&seats, self.btn_idx)
        } else {
            match first_from(&seats, self.big_blind_idx) {
                Some(bb) => next_after(&seats, bb),
                None => None,
            }
        };
        assert(first == before.first_to_act());
        assert(first is Some);
        mark_entrants(&mut self.players);
        let dealt = self.game.start_normal(&mut self.players, self.btn_idx);
        self.total_chips = self.total_chips - leftover;
        proof {
            assert(entrants(marked(before.players)) =~= table);
            assert forall|k: usize| before.players.contains_key(k) implies (
            #[trigger] self@.players[k]).stack == before.players[k].stack by {
                assert(self@.players[k] == Player {
                    hand: self@.players[k].hand,
                    ..marked(before.players)[k]
                });
            }
            assert(marked(before.players).dom() =~= before.players.dom());
            lemma_bench_and_table(before.players, self@.players, table);
            lemma_sum_below_agree(
                player_stack_of(synced(before.players, table)),
                player_stack_of(before.players),
                seat_limit(),
            );
            lemma_sum_below_agree(
                player_stack_of(before.players),
                player_stack_of(self@.players),
                seat_limit(),
            );
        }
        match dealt {
            Ok(_) => {
                self.action_idx = first.unwrap();
                self.phase = Phase::Street(0);
                proof {
                    assert(self@.in_hand() =~= table.dom()) by {
                        assert forall|k: usize| self@.in_hand().contains(k) <==> table.dom().contains(
                            k,
                        ) by {
                            if before.players.contains_key(k) {
                                assert(self@.players[k] == Player {
                                    hand: self@.players[k].hand,
                                    ..marked(before.players)[k]
                                });
                            }
                        }
                    }
                    assert(seats@.to_set().contains(first->0));
                }
                Ok(())
            },
            Err(e) => {
                self.pot = NoLimitPot::new();
                self.phase = Phase::Idle;
                proof {
                    assert(pots_total(self@.pot.pots) == 0);
                }
                Err(HandError::Game(e))
            },
        }
    }

    /// Moves the action on from `seat` after a move.
    fn advance(&mut self, seat: usize)
        requires
            old(self)@.wf_mid(),
            old(self)@.phase is Street,
        ensures
            final(self)@ == old(self)@.advanced(seat),
            final(self)@.wf(),
            final(self)@.total_chips == old(self)@.total_chips,
    {
        let street: usize = match self.phase {
            Phase::Street(k) => k,
            _ => 0,
        };
        let ghost before = self@;
        let hand = list_seats(&self.players, true);
        proof {
            law_entrants_stay(before.pot, 0, 0, 0);
        }
        match next_after(&hand, seat) {
            None => {
                self.pot.collect_bets();
                self.phase = Phase::Settle;
                self.rankings = HashMap::new();
            },
            Some(next) => {
                proof {
                    assert(hand@.to_set().contains(next));
                }
                let alone = match next_after(&hand, next) {
                    Some(after) => after == next,
                    None => false,
                };
                let closed = if street == 1 {
                    passes_mark(seat, next, self.draw_opener)
                } else {
                    match self.pot.get_largest_bet_idxes() {
                        Some((lb, _)) => passes_mark(seat, next, lb),
                        None => false,
                    }
                };
                if alone {
                    self.pot.collect_bets();
                    self.phase = Phase::Settle;
                    let mut rankings: HashMap<usize, u64> = HashMap::new();
                    rankings.insert(next, 0);
                    self.rankings = rankings;
                    self.action_idx = next;
                } else if closed {
                    self.pot.collect_bets();
                    if street >= STREET_COUNT - 1 {
                        self.phase = Phase::Showdown;
                    } else {
                        let opener = match next_after(&hand, self.btn_idx) {
                            Some(p) => p,
                            None => next,
                        };
                        proof {
                            assert(hand@.to_set().contains(opener));
                        }
                        self.phase = Phase::Street(street + 1);
                        self.action_idx = opener;
                        self.draw_opener = opener;
                    }
                } else {
                    self.action_idx = next;
                }
            },
        }
    }

    /// Takes a move from the player at `seat`.
    ///
    /// The move is turned down, and nothing changes, where no street is being
    /// played, the table is paused, it is not the seat's turn, cards are being
    /// exchanged and the move is no fold, or the pot refuses the bet; a bet
    /// that is refused for its size is answered with the least raise that
    /// would be taken. Else the pot takes the move, a player who folds leaves
    /// the hand, and the action moves on: to the next seat in the hand, to the
    /// next street where the round is over, to the showdown after the last
    /// street, or to the settling of the pot where a single player is left.
    /// Returns the chips committed.
    pub fn act(&mut self, seat: usize, action: PotAction) -> (res: Result<u64, Refusal>)
        requires
            old(self)@.wf(),
        ensures
            res == old(self)@.act_result(seat, action),
            final(self)@ == old(self)@.after_act(seat, action),
            final(self)@.wf(),
            final(self)@.total_chips == old(self)@.total_chips,
    {
        let street: usize = match self.phase {
            Phase::Street(k) => k,
            _ => {
                return Err(Refusal { status: StatusCode::NotYourTurn, min_bet: 0, reason: None });
            },
        };
        if self.is_paused {
            return Err(Refusal { status: StatusCode::Paused, min_bet: 0, reason: None });
        }
        if seat != self.action_idx {
            return Err(Refusal { status: StatusCode::NotYourTurn, min_bet: 0, reason: None });
        }
        let ghost before = self@;
        let least: u64 = self.pot.min_raise();
        proof {
            law_entrants_stay(before.pot, seat, 0, 0);
        }
        let committed: u64 = match action {
            PotAction::Fold => {
                let _ = self.pot.fold(&seat);
                let taken = self.players.remove(&seat);
                assert(taken is Some);
                let mut player = taken.unwrap();
                player.is_in_hand = false;
                self.players.insert(seat, player);
                proof {
                    assert(self@.players =~= before.players.insert(
                        seat,
                        Player { is_in_hand: false, ..before.players[seat] },
                    ));
                    lemma_sum_below_agree(
                        bench_of(before.players, before.pot.stacks_bets),
                        bench_of(self@.players, self@.pot.stacks_bets),
                        seat_limit(),
                    );
                    assert(self@.in_hand().subset_of(before.in_hand()));
                }
                0
            },
            PotAction::CheckCall => {
                if street == 1 {
                    return Err(Refusal { status: StatusCode::NotYourTurn, min_bet: 0, reason: None });
                }
                match self.pot.check_call(&seat) {
                    Ok(committed) => committed,
                    Err(e) => {
                        return Err(
                            Refusal {
                                status: StatusCode::InvalidBet,
                                min_bet: least,
                                reason: Some(e),
                            },
                        );
                    },
                }
            },
            PotAction::BetRaise(bet) => {
                if street == 1 {
                    return Err(Refusal { status: StatusCode::NotYourTurn, min_bet: 0, reason: None });
                }
                match self.pot.bet_or_shove(&seat, bet.amount) {
                    Ok(committed) => committed,
                    Err(PotError::CappedAction) => {
                        return Err(
                            Refusal {
                                status: StatusCode::CappedAction,
                                min_bet: 0,
                                reason: Some(PotError::CappedAction),
                            },
                        );
                    },
                    Err(e) => {
                        return Err(
                            Refusal {
                                status: StatusCode::InvalidBet,
                                min_bet: least,
                                reason: Some(e),
                            },
                        );
                    },
                }
            },
        };
        proof {
            assert(self@ == before.moved(seat, action));
        }
        self.advance(seat);
        Ok(committed)
    }

    /// Exchanges cards for the player at `seat`: it gives up `discards` and
    /// gets as many cards from the deck, and the action moves on. Returns the
    /// new cards.
    ///
    /// The exchange is turned down, and nothing changes, where no cards are
    /// being exchanged, the table is paused, it is not the seat's turn, or the
    /// player does not hold the cards it gives up. Where the deck holds cards
    /// enough the exchange goes through; where it does not, the discard pile
    /// is shuffled in, and the exchange is turned down if that cannot be done.
    /// It is turned down, too, where the deck and the pile together hold too
    /// few cards.
    pub fn draw(&mut self, seat: usize, discards: &Vec<Card>) -> (res: Result<Vec<Card>, Refusal>)
        requires
            old(self)@.wf(),
        ensures
            final(self)@.wf(),
            final(self)@.total_chips == old(self)@.total_chips,
            match res {
                Ok(drawn) => old(self)@.draw_done(final(self)@, seat, discards@, drawn@),
                Err(refusal) => old(self)@.draw_refused(final(self)@, seat, refusal),
            },
            old(self)@.draw_barred(seat, discards@) ==> res is Err,
            old(self)@.draw_owed(seat, discards@) ==> res is Ok,
    {
        let street: usize = match self.phase {
            Phase::Street(k) => k,
            _ => {
                return Err(Refusal { status: StatusCode::NotYourTurn, min_bet: 0, reason: None });
            },
        };
        if self.is_paused {
            return Err(Refusal { status: StatusCode::Paused, min_bet: 0, reason: None });
        }
        if seat != self.action_idx {
            return Err(Refusal { status: StatusCode::NotYourTurn, min_bet: 0, reason: None });
        }
        if street != 1 {
            return Err(Refusal { status: StatusCode::NotYourTurn, min_bet: 0, reason: None });
        }
        let ghost before = self@;
        let taken = self.players.remove(&seat);
        assert(taken is Some);
        let mut player = taken.unwrap();
        let drawn = self.game.draw(&mut player, discards);
        let ghost held = player.hand;
        self.players.insert(seat, player);
        match drawn {
            Ok(cards) => {
                proof {
                    assert(self@.players =~= before.players.insert(
                        seat,
                        Player { hand: held, ..before.players[seat] },
                    ));
                    assert(self@ == before.with_exchange(seat, held, self@.deck, self@.pile));
                    lemma_sum_below_agree(
                        bench_of(before.players, before.pot.stacks_bets),
                        bench_of(self@.players, self@.pot.stacks_bets),
                        seat_limit(),
                    );
                    assert(self@.in_hand() =~= before.in_hand());
                }
                let ghost moved = self@;
                self.advance(seat);
                proof {
                    assert(self@.players[seat].hand == held) by {
                        lemma_advance_keeps_players(moved, seat);
                    }
                }
                Ok(cards)
            },
            Err(_) => {
                proof {
                    assert(self@.players =~= before.players);
                }
                Err(Refusal { status: StatusCode::InvalidBet, min_bet: 0, reason: None })
            },
        }
    }

    /// Acts for the seat to act when its time has run out: it folds where it
    /// owes chips to the bet and has chips left, checks where it does not, and
    /// keeps its cards where cards are being exchanged. The action then moves
    /// on as after any move. Returns the seat and what it was taken to do.
    ///
    /// Nothing happens, and the refusal says why, where no street is being
    /// played or the table is paused.
    pub fn on_timeout(&mut self) -> (res: Result<(usize, TimedOut), Refusal>)
        requires
            old(self)@.wf(),
        ensures
            match old(self)@.turned_down(old(self)@.action_idx) {
                Some(refusal) => res == Err::<(usize, TimedOut), Refusal>(refusal),
                None => res == Ok::<(usize, TimedOut), Refusal>(
                    (old(self)@.action_idx, old(self)@.timed_out_move()),
                ),
            },
            final(self)@ == old(self)@.after_timeout(),
            final(self)@.wf(),
            final(self)@.total_chips == old(self)@.total_chips,
    {
        let street: usize = match self.phase {
            Phase::Street(k) => k,
            _ => {
                return Err(Refusal { status: StatusCode::NotYourTurn, min_bet: 0, reason: None });
            },
        };
        if self.is_paused {
            return Err(Refusal { status: StatusCode::Paused, min_bet: 0, reason: None });
        }
        let seat: usize = self.action_idx;
        if street == 1 {
            self.advance(seat);
            return Ok((seat, TimedOut::StoodPat));
        }
        let owes = match self.pot.get_player_stack_bet(&seat) {
            Ok(entry) => entry.1 < self.pot.largest_bet() && entry.1 < entry.0,
            Err(_) => false,
        };
        if owes {
            let _ = self.act(seat, PotAction::Fold);
            Ok((seat, TimedOut::Folded))
        } else {
            let _ = self.act(seat, PotAction::CheckCall);
            Ok((seat, TimedOut::Checked))
        }
    }

    /// Ranks the hands once the last street is over, so that the pot can be
    /// settled. Tells whether the showdown was due; if not, nothing changes.
    pub fn showdown(&mut self) -> (done: bool)
        requires
            old(self)@.wf(),
        ensures
            done == (old(self)@.phase is Showdown),
            !done ==> final(self)@ == old(self)@,
            done ==> final(self)@ == (TableState {
                phase: Phase::Settle,
                rankings: showdown_ranks(old(self)@.players),
                ..old(self)@
            }),
            final(self)@.wf(),
            final(self)@.total_chips == old(self)@.total_chips,
    {
        match self.phase {
            Phase::Showdown => {
                self.rankings = self.game.rank_showdown(&self.players);
                self.phase = Phase::Settle;
                true
            },
            _ => false,
        }
    }

    /// Settles the pot: the players get the stacks that the pot kept for them
    /// and their winnings, and the button and the big blind move on to the
    /// next player who is present. Another hand is then due if one is wanted
    /// and the players are enough for it; else the table goes idle. Returns
    /// the winnings by seat, or nothing where no pot is to be settled, in
    /// which case nothing changes.
    ///
    /// No chip is made or lost: the chips at the table are as many as before.
    pub fn settle(&mut self) -> (pay: Option<HashMap<usize, u64>>)
        requires
            old(self)@.wf(),
        ensures
            pay is Some <==> old(self)@.phase is Settle,
            pay is None ==> final(self)@ == old(self)@,
            pay matches Some(won) ==> won@ == old(self)@.showdown_pay() && final(self)@ == old(self)@.after_settle(),
            final(self)@.wf(),
            final(self)@.total_chips == old(self)@.total_chips,
    {
        match self.phase {
            Phase::Settle => {},
            _ => {
                return None;
            },
        }
        let ghost before = self@;
        sync_stacks(&mut self.players, self.pot.get_all_player_stacks_bets());
        let ghost level = self.players@;
        proof {
            lemma_bench_and_table(before.players, before.players, before.pot.stacks_bets);
            assert(level.dom() =~= before.players.dom());
        }
        let won = self.pot.distribute_pot(&mut self.players, &self.rankings, &self.btn_idx);
        let present = entrant_seats(&self.players);
        proof {
            assert(entrants(self.players@).dom() =~= entrants(before.players).dom());
        }
        match next_after(&present, self.btn_idx) {
            Some(p) => {
                self.btn_idx = p;
            },
            None => {},
        }
        match next_after(&present, self.big_blind_idx) {
            Some(p) => {
                self.big_blind_idx = p;
            },
            None => {},
        }
        if self.start_next_hand && FiveCardDraw::check_player_condition(present.len()) {
            self.phase = Phase::PreHand;
        } else {
            self.phase = Phase::Idle;
        }
        Some(won)
    }

    /// The seat of a session, if it has one.
    pub fn seat_of(&self, session: SessionId) -> (seat: Option<usize>)
        ensures
            seat == if self@.sessions.contains_key(session.id) {
                Some(self@.sessions[session.id])
            } else {
                None
            },
    {
        match self.sessions.get(&session.id) {
            Some(seat) => Some(*seat),
            None => None,
        }
    }

    /// A snapshot of the table for its players: the turn, the button, the
    /// bet to call, the amounts of the slices, oldest first, and the stack and
    /// bet of every entrant by increasing seat.
    pub fn snapshot(&self) -> (state: GameState)
        ensures
            self@.is_shown_by(state),
    {
        let pots = self.pot.pots();
        let mut pot_amounts: Vec<u64> = Vec::new();
        let mut i: usize = 0;
        while i < pots.len()
            invariant
                i <= pots@.len(),
                slices_of(pots@) == self@.pot.pots,
                pot_amounts@.len() == i,
                forall|j: int|
                    0 <= j < i ==> #[trigger] pot_amounts@[j] == self@.pot.pots[j].amount,
            decreases pots@.len() - i,
        {
            pot_amounts.push(pots[i].amount);
            i += 1;
        }
        let table = self.pot.get_all_player_stacks_bets();
        let seats = seats_of(table);
        let mut stacks_bets: Vec<(usize, u64, u64)> = Vec::new();
        let mut i: usize = 0;
        while i < seats.len()
            invariant
                i <= seats@.len(),
                seats@.to_set() == table@.dom(),
                stacks_bets@.len() == i,
                forall|j: int|
                    0 <= j < i ==> (#[trigger] stacks_bets@[j]).0 == seats@[j]
                        && table@.contains_key(seats@[j]) && table@[seats@[j]] == (
                        stacks_bets@[j].1,
                        stacks_bets@[j].2,
                    ),
            decreases seats@.len() - i,
        {
            let seat = seats[i];
            assert(seats@.to_set().contains(seat));
            let entry = table.get(&seat);
            assert(entry is Some);
            stacks_bets.push((seat, entry.unwrap().0, entry.unwrap().1));
            i += 1;
        }
        proof {
            seats@.unique_seq_to_set();
            assert forall|a: int, b: int| 0 <= a < b < stacks_bets@.len() implies (
            #[trigger] stacks_bets@[a]).0 < (#[trigger] stacks_bets@[b]).0 by {
                assert(seats@[a] < seats@[b]);
            }
        }
        GameState {
            action_idx: self.action_idx,
            btn_idx: self.btn_idx,
            big_blind_idx: self.big_blind_idx,
            is_paused: self.is_paused,
            largest_bet: self.pot.largest_bet(),
            pot_amounts,
            stacks_bets,
        }
    }

    /// The sessions that have a seat, each with its seat, in no particular
    /// order.
    pub fn seated_sessions(&self) -> (list: Vec<(SessionId, usize)>)
        ensures
            list@.len() == self@.sessions.dom().len(),
            forall|i: int|
                0 <= i < list@.len() ==> self@.sessions.contains_key((#[trigger] list@[i]).0.id)
                    && self@.sessions[list@[i].0.id] == list@[i].1,
            forall|id: u128|
                self@.sessions.contains_key(id) ==> exists|i: int|
                    0 <= i < list@.len() && (#[trigger] list@[i]).0.id == id,
            forall|i: int, j: int|
                0 <= i < j < list@.len() ==> (#[trigger] list@[i]).0 != (#[trigger] list@[j]).0,
    {
        let mut list: Vec<(SessionId, usize)> = Vec::new();
        for id in it: self.sessions.keys()
            invariant
                it.seq() == self.sessions.keys().remaining(),
                list@.len() == it.index(),
                forall|i: int|
                    0 <= i < list@.len() ==> (#[trigger] list@[i]).0.id == *it.seq()[i]
                        && self.sessions@.contains_key(list@[i].0.id) && self.sessions@[list@[i].0.id]
                        == list@[i].1,
        {
            proof {
                let keys = self.sessions.keys().remaining();
                assert(keys.unref().to_set().contains(keys.unref()[it.index()]));
            }
            let seat = match self.sessions.get(id) {
                Some(seat) => *seat,
                None => 0,
            };
            list.push((SessionId { id: *id }, seat));
        }
        proof {
            let keys = self.sessions.keys().remaining();
            assert forall|id: u128| self@.sessions.contains_key(id) implies exists|i: int|
                0 <= i < list@.len() && (#[trigger] list@[i]).0.id == id by {
                assert(keys.unref().to_set().contains(id));
                let i = choose|i: int| 0 <= i < keys.unref().len() && keys.unref()[i] == id;
                assert(list@[i].0.id == id);
            }
            assert forall|i: int, j: int| 0 <= i < j < list@.len() implies (#[trigger] list@[i]).0
                != (#[trigger] list@[j]).0 by {
                assert(keys[i] != keys[j]);
            }
        }
        list
    }

    /// Gives a session a seat and a stack, as `seat_player` does for a seat.
    ///
    /// Fails, changing nothing, where the session has a seat already, the
    /// seat is taken, or the table would hold more chips than a chip count
    /// can express.
    pub fn join(&mut self, session: SessionId, position: usize, name: String, stack: u64) -> (res:
        Result<(), JoinError>)
        requires
            old(self)@.wf(),
        ensures
            old(self)@.sessions.contains_key(session.id) ==> res == Err::<(), JoinError>(
                JoinError::AlreadySeated,
            ),
            !old(self)@.sessions.contains_key(session.id) ==> res == match old(self)@.seat_result(
                position,
                stack,
            ) {
                Ok(_) => Ok::<(), JoinError>(()),
                Err(e) => Err::<(), JoinError>(JoinError::Seat(e)),
            },
            res is Err ==> final(self)@ == old(self)@,
            res is Ok ==> final(self)@ == (TableState {
                players: old(self)@.players.insert(position, final(self)@.players[position]),
                total_chips: (old(self)@.total_chips + stack) as u64,
                sessions: old(self)@.sessions.insert(session.id, position),
                ..old(self)@
            }),
            res is Ok ==> final(self)@.players[position].stack == stack,
            res is Ok ==> final(self)@.players[position].name == name,
            res is Ok ==> final(self)@.players[position].table_position == position,
            res is Ok ==> !final(self)@.players[position].is_away,
            res is Ok ==> final(self)@.players[position].is_in_hand == !old(self)@.live(),
            final(self)@.wf(),
    {
        if self.sessions.contains_key(&session.id) {
            return Err(JoinError::AlreadySeated);
        }
        match self.seat_player(position, name, stack) {
            Ok(_) => {
                self.sessions.insert(session.id, position);
                Ok(())
            },
            Err(e) => Err(JoinError::Seat(e)),
        }
    }

    /// The first seat below `capacity` at which nobody sits, if there is one.
    pub fn free_seat(&self, capacity: usize) -> (free: Option<usize>)
        ensures
            match free {
                Some(seat) => is_first_free(self@.players, capacity, seat),
                None => is_full(self@.players, capacity),
            },
    {
        let mut seat: usize = 0;
        while seat < capacity
            invariant
                seat <= capacity,
                forall|t: usize| t < seat ==> self.players@.contains_key(t),
            decreases capacity - seat,
        {
            if !self.players.contains_key(&seat) {
                return Some(seat);
            }
            seat += 1;
        }
        None
    }

    /// Receives a session at a table with `capacity` seats. A session that
    /// has a seat comes back to it: its player is marked as present. A new
    /// session gets the first free seat, with the given name and stack.
    /// Returns the seat.
    ///
    /// Fails, changing nothing, where a new session finds every seat taken,
    /// or the table would hold more chips than a chip count can express.
    pub fn welcome(&mut self, session: SessionId, name: String, stack: u64, capacity: usize) -> (res:
        Result<usize, JoinError>)
        requires
            old(self)@.wf(),
        ensures
            final(self)@.wf(),
            old(self)@.sessions.contains_key(session.id) ==> res == Ok::<usize, JoinError>(
                old(self)@.sessions[session.id],
            ) && final(self)@ == (TableState {
                players: if old(self)@.players.contains_key(old(self)@.sessions[session.id]) {
                    old(self)@.players.insert(
                        old(self)@.sessions[session.id],
                        Player {
                            is_away: false,
                            ..old(self)@.players[old(self)@.sessions[session.id]]
                        },
                    )
                } else {
                    old(self)@.players
                },
                ..old(self)@
            }),
            !old(self)@.sessions.contains_key(session.id) && is_full(old(self)@.players, capacity)
                ==> res == Err::<usize, JoinError>(JoinError::TableFull) && final(self)@ == old(self)@,
            !old(self)@.sessions.contains_key(session.id) && !is_full(old(self)@.players, capacity)
                && old(self)@.total_chips + stack > u64::MAX ==> res == Err::<usize, JoinError>(
                JoinError::Seat(SeatError::TooManyChips),
            ) && final(self)@ == old(self)@,
            !old(self)@.sessions.contains_key(session.id) && !is_full(old(self)@.players, capacity)
                && old(self)@.total_chips + stack <= u64::MAX ==> res is Ok && old(self)@.newly_seated(
                final(self)@,
                session,
                res->Ok_0,
                capacity,
                stack,
            ) && final(self)@.players[res->Ok_0].name == name,
    {
        match self.seat_of(session) {
            Some(seat) => {
                let _ = self.set_away(seat, false);
                Ok(seat)
            },
            None => match self.free_seat(capacity) {
                Some(seat) => match self.join(session, seat, name, stack) {
                    Ok(_) => Ok(seat),
                    Err(e) => Err(e),
                },
                None => Err(JoinError::TableFull),
            },
        }
    }

    /// What the sessions whose players are in the hand are told when a hand
    /// starts: each one its own cards, and nobody those of another.
    pub fn starting_hands(&self) -> (told: Vec<GameResponse>)
        ensures
            self@.are_starting_hands(told@),
    {
        let list = self.seated_sessions();
        let mut told: Vec<GameResponse> = Vec::new();
        let mut k: usize = 0;
        while k < list.len()
            invariant
                k <= list@.len(),
                forall|i: int, j: int|
                    0 <= i < j < list@.len() ==> (#[trigger] list@[i]).0 != (#[trigger] list@[j]).0,
                forall|i: int|
                    0 <= i < told@.len() ==> exists|j: int|
                        0 <= j < k && recipient(#[trigger] told@[i]) == Some((#[trigger] list@[j]).0),
                forall|i: int, j: int|
                    0 <= i < j < told@.len() ==> recipient(#[trigger] told@[i]) != recipient(
                        #[trigger] told@[j],
                    ),
                forall|i: int|
                    0 <= i < list@.len() ==> self@.sessions.contains_key((#[trigger] list@[i]).0.id)
                        && self@.sessions[list@[i].0.id] == list@[i].1,
                forall|i: int| 0 <= i < told@.len() ==> self@.tells_own_hand(#[trigger] told@[i]),
                forall|j: int|
                    0 <= j < k && self@.players.contains_key((#[trigger] list@[j]).1)
                        && self@.players[list@[j].1].is_in_hand ==> exists|i: int|
                        0 <= i < told@.len() && is_starting_hand(
                            #[trigger] told@[i],
                            list@[j].0,
                            self@.players[list@[j].1].hand@,
                        ),
            decreases list@.len() - k,
        {
            let session = list[k].0;
            let seat = list[k].1;
            let ghost before = told@;
            match self.players.get(&seat) {
                Some(player) => {
                    if player.is_in_hand {
                        let hand = copy_cards(&player.hand);
                        told.push(
                            GameResponse::SingleResponse(
                                session,
                                SingleResponse::StartingHandResponse(StartingHandResponse { hand }),
                            ),
                        );
                        proof {
                            let last = told@[before.len() as int];
                            assert(is_starting_hand(last, session, self@.players[seat].hand@));
                            assert(self@.sessions.contains_key(session.id));
                            assert(self@.tells_own_hand(last));
                            assert(recipient(last) == Some(list@[k as int].0));
                            assert forall|i: int| 0 <= i < before.len() implies recipient(
                                #[trigger] told@[i],
                            ) != recipient(last) by {
                                assert(told@[i] == before[i]);
                                let j = choose|j: int|
                                    0 <= j < k && recipient(before[i]) == Some(
                                        (#[trigger] list@[j]).0,
                                    );
                                assert(list@[j].0 != list@[k as int].0);
                            }
                        }
                    }
                },
                None => {},
            }
            proof {
                assert forall|i: int| 0 <= i < before.len() implies told@[i] == before[i] by {}
                assert forall|i: int| 0 <= i < told@.len() implies exists|j: int|
                    0 <= j < k + 1 && recipient(#[trigger] told@[i]) == Some(
                        (#[trigger] list@[j]).0,
                    ) by {
                    if i < before.len() {
                        let j = choose|j: int|
                            0 <= j < k && recipient(before[i]) == Some((#[trigger] list@[j]).0);
                        assert(told@[i] == before[i]);
                    } else {
                        assert(recipient(told@[i]) == Some(list@[k as int].0));
                    }
                }
                assert forall|j: int|
                    0 <= j < k + 1 && self@.players.contains_key((#[trigger] list@[j]).1)
                        && self@.players[list@[j].1].is_in_hand implies exists|i: int|
                    0 <= i < told@.len() && is_starting_hand(
                        #[trigger] told@[i],
                        list@[j].0,
                        self@.players[list@[j].1].hand@,
                    ) by {
                    if j < k {
                        let i = choose|i: int|
                            0 <= i < before.len() && is_starting_hand(
                                #[trigger] before[i],
                                list@[j].0,
                                self@.players[list@[j].1].hand@,
                            );
                        assert(told@[i] == before[i]);
                    } else {
                        assert(is_starting_hand(
                            told@[before.len() as int],
                            list@[j].0,
                            self@.players[list@[j].1].hand@,
                        ));
                    }
                }
            }
            k += 1;
        }
        proof {
            assert forall|id: u128|
                self@.sessions.contains_key(id) && self@.players.contains_key(self@.sessions[id])
                    && self@.players[self@.sessions[id]].is_in_hand implies exists|i: int|
                0 <= i < told@.len() && is_starting_hand(
                    #[trigger] told@[i],
                    SessionId { id },
                    self@.players[self@.sessions[id]].hand@,
                ) by {
                let j = choose|j: int| 0 <= j < list@.len() && (#[trigger] list@[j]).0.id == id;
                assert(list@[j].0 == SessionId { id });
                assert(self@.players.contains_key(list@[j].1));
            }
        }
        told
    }

    /// Marks the seat of a session as present when the session connects.
    /// Tells whether the session has a seat with a player; if not, nothing
    /// changes.
    pub fn connect(&mut self, session: SessionId) -> (found: bool)
        requires
            old(self)@.wf(),
        ensures
            found == (old(self)@.sessions.contains_key(session.id) && old(self)@.players.contains_key(old(self)@.sessions[session.id])),
            !found ==> final(self)@ == old(self)@,
            found ==> final(self)@ == (TableState {
                players: old(self)@.players.insert(
                    old(self)@.sessions[session.id],
                    Player {
                        is_away: false,
                        ..old(self)@.players[old(self)@.sessions[session.id]]
                    },
                ),
                ..old(self)@
            }),
            final(self)@.wf(),
    {
        match self.seat_of(session) {
            Some(seat) => self.set_away(seat, false),
            None => false,
        }
    }

    /// Marks the seat of a session as away when the session disconnects. The
    /// hand in play is not affected: the player stays in it. Tells whether the
    /// session has a seat with a player; if not, nothing changes.
    pub fn disconnect(&mut self, session: SessionId) -> (found: bool)
        requires
            old(self)@.wf(),
        ensures
            found == (old(self)@.sessions.contains_key(session.id) && old(self)@.players.contains_key(old(self)@.sessions[session.id])),
            !found ==> final(self)@ == old(self)@,
            found ==> final(self)@ == (TableState {
                players: old(self)@.players.insert(
                    old(self)@.sessions[session.id],
                    Player {
                        is_away: true,
                        ..old(self)@.players[old(self)@.sessions[session.id]]
                    },
                ),
                ..old(self)@
            }),
            final(self)@.wf(),
    {
        match self.seat_of(session) {
            Some(seat) => self.set_away(seat, true),
            None => false,
        }
    }

    /// Takes a move that concerns the pot from a session and says what the
    /// sessions are to be told. The move is made for the session's seat, as
    /// `act` makes it; a session without a seat is told that it is not its
    /// turn.
    pub fn handle_pot(&mut self, session: SessionId, action: PotAction) -> (responses: Vec<
        GameResponse,
    >)
        requires
            old(self)@.wf(),
        ensures
            final(self)@.wf(),
            final(self)@.total_chips == old(self)@.total_chips,
            !old(self)@.sessions.contains_key(session.id) ==> final(self)@ == old(self)@
                && responses@ == pot_responses(session, 0, action, Err(no_seat())),
            old(self)@.sessions.contains_key(session.id) ==> final(self)@ == old(self)@.after_act(
                old(self)@.sessions[session.id],
                action,
            ) && responses@ == pot_responses(
                session,
                old(self)@.sessions[session.id],
                action,
                old(self)@.act_result(old(self)@.sessions[session.id], action),
            ),
    {
        let (seat, outcome) = match self.seat_of(session) {
            Some(seat) => (seat, self.act(seat, action)),
            None => (0, Err(Refusal { status: StatusCode::NotYourTurn, min_bet: 0, reason: None })),
        };
        let status = match outcome {
            Ok(_) => StatusCode::OK,
            Err(refusal) => refusal.status,
        };
        let personal = match action {
            PotAction::Fold => SingleResponse::FoldResponse(
                PersonalFoldResponse { req_id: session, status },
            ),
            PotAction::CheckCall => SingleResponse::CheckCallResponse(
                PersonalCheckCallResponse { req_id: session, status },
            ),
            PotAction::BetRaise(_) => SingleResponse::BetRaiseResponse(
                PersonalBetRaiseResponse {
                    msg_id: session,
                    status,
                    bet_amount: match outcome {
                        Ok(committed) => committed,
                        Err(refusal) => refusal.min_bet,
                    },
                    error: match outcome {
                        Ok(_) => None,
                        Err(refusal) => refusal.reason,
                    },
                },
            ),
        };
        let mut responses: Vec<GameResponse> = Vec::new();
        match outcome {
            Ok(committed) => {
                let public = match action {
                    PotAction::Fold => Multicast::FoldResponse(
                        PublicFoldResponse { position: seat },
                    ),
                    PotAction::CheckCall => Multicast::CheckCallResponse(
                        PublicCheckCallResponse { position: seat },
                    ),
                    PotAction::BetRaise(_) => Multicast::BetRaiseResponse(
                        PublicBetRaiseResponse { position: seat, bet_amount: committed },
                    ),
                };
                responses.push(GameResponse::Multicast(session, public));
            },
            Err(_) => {},
        }
        responses.push(GameResponse::SingleResponse(session, personal));
        proof {
            assert(responses@ =~= pot_responses(session, seat, action, outcome));
        }
        responses
    }

    /// Takes an exchange of cards from a session and says what the sessions
    /// are to be told. The exchange is made for the session's seat, as `draw`
    /// makes it; a session without a seat is told that it is not its turn.
    /// The one who exchanged learns its new cards, the others how many cards
    /// went and came.
    pub fn handle_draw(&mut self, session: SessionId, action: &DrawAction) -> (responses: Vec<
        GameResponse,
    >)
        requires
            old(self)@.wf(),
        ensures
            final(self)@.wf(),
            final(self)@.total_chips == old(self)@.total_chips,
            old(self)@.draw_told(final(self)@, session, action.cards_to_discard@, responses@),
    {
        let (seat, outcome) = match self.seat_of(session) {
            Some(seat) => (seat, self.draw(seat, &action.cards_to_discard)),
            None => (0, Err(Refusal { status: StatusCode::NotYourTurn, min_bet: 0, reason: None })),
        };
        let mut responses: Vec<GameResponse> = Vec::new();
        match outcome {
            Ok(cards) => {
                let ghost drawn = cards@;
                responses.push(
                    GameResponse::Multicast(
                        session,
                        Multicast::DrawResponse(
                            PublicDrawResponse {
                                position: seat,
                                discard_count: action.cards_to_discard.len(),
                                cards_recieved: cards.len(),
                            },
                        ),
                    ),
                );
                responses.push(
                    GameResponse::SingleResponse(
                        session,
                        SingleResponse::DrawResponse(
                            PersonalDrawResponse {
                                req_id: session,
                                status: StatusCode::OK,
                                new_cards: cards,
                            },
                        ),
                    ),
                );
                proof {
                    assert(old(self)@.draw_done(
                        self@,
                        old(self)@.sessions[session.id],
                        action.cards_to_discard@,
                        drawn,
                    ));
                    assert(is_draw_reply(responses@[1], session, StatusCode::OK, drawn));
                }
            },
            Err(refusal) => {
                responses.push(
                    GameResponse::SingleResponse(
                        session,
                        SingleResponse::DrawResponse(
                            PersonalDrawResponse {
                                req_id: session,
                                status: refusal.status,
                                new_cards: Vec::new(),
                            },
                        ),
                    ),
                );
                proof {
                    assert(is_draw_reply(responses@[0], session, refusal.status, Seq::empty()));
                    if old(self)@.sessions.contains_key(session.id) {
                        assert(old(self)@.draw_refused(
                            self@,
                            old(self)@.sessions[session.id],
                            refusal,
                        ));
                    }
                }
            },
        }
        responses
    }

    /// Whether the time of a seat is running: a seat is to act and the table
    /// is not paused.
    pub fn on_the_clock(&self) -> (running: bool)
        ensures
            running == self@.on_the_clock(),
    {
        match self.phase {
            Phase::Street(_) => !self.is_paused,
            _ => false,
        }
    }

    /// A session that sits at `seat`, if there is one.
    pub fn session_at(&self, seat: usize) -> (found: Option<SessionId>)
        ensures
            found is Some <==> self@.has_session_at(seat),
            found matches Some(session) ==> self@.sessions.contains_key(session.id)
                && self@.sessions[session.id] == seat,
    {
        let list = self.seated_sessions();
        let mut i: usize = 0;
        while i < list.len()
            invariant
                i <= list@.len(),
                forall|j: int| 0 <= j < i ==> (#[trigger] list@[j]).1 != seat,
                forall|j: int|
                    0 <= j < list@.len() ==> self@.sessions.contains_key(
                        (#[trigger] list@[j]).0.id,
                    ) && self@.sessions[list@[j].0.id] == list@[j].1,
            decreases list@.len() - i,
        {
            if list[i].1 == seat {
                return Some(list[i].0);
            }
            i += 1;
        }
        proof {
            assert forall|id: u128| #[trigger]
                self@.sessions.contains_key(id) implies self@.sessions[id] != seat by {
                let j = choose|j: int| 0 <= j < list@.len() && (#[trigger] list@[j]).0.id == id;
                assert(list@[j].1 != seat);
            }
        }
        None
    }

    /// Moves for the seat to act, whose time has run out, and says what the
    /// sessions are to be told of it.
    pub fn handle_timeout(&mut self) -> (told: Vec<GameResponse>)
        requires
            old(self)@.wf(),
        ensures
            final(self)@ == old(self)@.after_timeout(),
            final(self)@.wf(),
            final(self)@.total_chips == old(self)@.total_chips,
            old(self)@.timeout_told(told@),
    {
        let mut told: Vec<GameResponse> = Vec::new();
        let found = self.session_at(self.action_idx);
        match self.on_timeout() {
            Ok((seat, taken)) => {
                let notice = match taken {
                    TimedOut::Folded => Multicast::FoldResponse(
                        PublicFoldResponse { position: seat },
                    ),
                    TimedOut::Checked => Multicast::CheckCallResponse(
                        PublicCheckCallResponse { position: seat },
                    ),
                    TimedOut::StoodPat => Multicast::DrawResponse(
                        PublicDrawResponse { position: seat, discard_count: 0, cards_recieved: 0 },
                    ),
                };
                match found {
                    Some(session) => {
                        told.push(GameResponse::Multicast(session, notice));
                    },
                    None => {},
                }
            },
            Err(_) => {},
        }
        told
    }

    /// Takes the steps that need no move from a player, and says what the
    /// sessions are to be told of them: ranks the hands and pays the pot out
    /// where that is due, and starts the next hand where one is due.
    pub fn run_script(&mut self) -> (told: Vec<GameResponse>)
        requires
            old(self)@.wf(),
        ensures
            final(self)@.wf(),
            old(self)@.script_run(final(self)@, told@),
            final(self)@.phase is Idle || final(self)@.phase is Street,
    {
        let mut told: Vec<GameResponse> = Vec::new();
        self.showdown();
        let paid = self.settle();
        if paid.is_some() {
            told.push(GameResponse::Broadcast(Broadcast::State(self.snapshot())));
        }
        let ghost settled = self@;
        let ghost shown = told@.len();
        match self.phase {
            Phase::PreHand => {
                let res = self.begin_hand();
                if res.is_ok() {
                    let mut hands = self.starting_hands();
                    let ghost dealt = hands@;
                    told.append(&mut hands);
                    proof {
                        assert(told@.skip(shown as int) =~= dealt);
                    }
                }
            },
            _ => {},
        }
        told
    }

    /// Takes a move from a session and says what the sessions are to be told.
    pub fn handle(&mut self, action: GameAction) -> (responses: Vec<GameResponse>)
        requires
            old(self)@.wf(),
        ensures
            final(self)@.wf(),
            final(self)@.total_chips == old(self)@.total_chips,
            action matches GameAction::Pot(session, pot_action) ==> (!old(self)@.sessions.contains_key(session.id) ==> final(self)@ == old(self)@ && responses@
                == pot_responses(session, 0, pot_action, Err(no_seat()))) && (old(self)@.sessions.contains_key(session.id) ==> final(self)@ == old(self)@.after_act(
                old(self)@.sessions[session.id],
                pot_action,
            ) && responses@ == pot_responses(
                session,
                old(self)@.sessions[session.id],
                pot_action,
                old(self)@.act_result(old(self)@.sessions[session.id], pot_action),
            )),
            action matches GameAction::Draw(session, draw) ==> old(self)@.draw_told(
                final(self)@,
                session,
                draw.cards_to_discard@,
                responses@,
            ),
    {
        match action {
            GameAction::Pot(session, pot_action) => self.handle_pot(session, pot_action),
            GameAction::Draw(session, draw) => self.handle_draw(session, &draw),
        }
    }

    /// Marks the player at a seat as away or as present. A player who is away
    /// enters no new hand; the hand in play is not affected. Tells whether
    /// somebody sits there.
    pub fn set_away(&mut self, position: usize, away: bool) -> (found: bool)
        requires
            old(self)@.wf(),
        ensures
            found == old(self)@.players.contains_key(position),
            !found ==> final(self)@ == old(self)@,
            found ==> final(self)@ == (TableState {
                players: old(self)@.players.insert(
                    position,
                    Player { is_away: away, ..old(self)@.players[position] },
                ),
                ..old(self)@
            }),
            final(self)@.wf(),
    {
        let ghost before = self@;
        match self.players.remove(&position) {
            Some(mut player) => {
                player.is_away = away;
                self.players.insert(position, player);
                proof {
                    lemma_sum_below_agree(
                        bench_of(before.players, before.pot.stacks_bets),
                        bench_of(self@.players, before.pot.stacks_bets),
                        seat_limit(),
                    );
                    lemma_sum_below_agree(
                        player_stack_of(before.players),
                        player_stack_of(self@.players),
                        seat_limit(),
                    );
                    assert(self@.players =~= before.players.insert(
                        position,
                        Player { is_away: away, ..before.players[position] },
                    ));
                    assert(self@.in_hand() =~= before.in_hand());
                }
                true
            },
            None => {
                assert(self@.players =~= before.players);
                false
            },
        }
    }
}

} // verus!
