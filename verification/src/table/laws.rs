//! Laws of the table, proved from its model.

use crate::action::ActionType;
use crate::cards::Card;
use crate::cards::texts_of;
use crate::chips::lemma_sum_below_add;
use crate::chips::lemma_sum_below_agree;
use crate::chips::lemma_sum_below_bounds_term;
use crate::chips::lemma_sum_below_nonneg;
use crate::chips::lemma_sum_below_update;
use crate::chips::seat_limit;
use crate::chips::sum_all;
use crate::game_actions::game_action::GameResponse;
use crate::game_actions::game_action::PotAction;
use crate::game_actions::responses::StatusCode;
use crate::games::five_card_draw::held_by;
use crate::games::five_card_draw::law_exchange_keeps_the_cards;
use crate::games::five_card_draw::lemma_kept_and_given;
use crate::games::five_card_draw::times_held;
use crate::games::five_card_draw::without_all;
use crate::ordered::least_from;
use crate::ordered::lemma_least_from_some;
use crate::player::player_stack_of;
use crate::pots::error::PotError;
use crate::pots::invariants::PotOp;
use crate::pots::invariants::lemma_apply_keeps;
use crate::pots::invariants::lemma_collect_keeps;
use crate::pots::laws::law_entrants_stay;
use crate::pots::laws::law_showdown_pays_what_it_takes;
use crate::pots::laws::payouts_of;
use crate::pots::model::pots_total;
use crate::pots::model::seat_pred;
use crate::pots::model::total_stacks;
use crate::pots::no_limit_pot::lemma_pots_nonneg;
use crate::pots::showdown::lemma_no_win_no_pay;
use crate::pots::showdown::winners;
use crate::table::lemma_advance_keeps_players;
use crate::table::lemma_bench_and_table;
use crate::table::seats::next_seat;
use crate::table::state::HandError;
use crate::table::state::Refusal;
use crate::table::state::TableState;
use crate::table::state::TimedOut;
use crate::table::state::bench_of;
use crate::table::state::synced;
use vstd::prelude::*;

verus! {

/// Chip conservation across a hand: between two moments at which no hand is
/// in play and between which the table has kept its chips, the stacks of the
/// players add up to the same, but for the chips in slices that nobody won.
pub proof fn law_hand_conserves_chips(start: TableState, end: TableState)
    requires
        start.wf(),
        end.wf(),
        !start.live(),
        !end.live(),
        end.total_chips == start.total_chips,
    ensures
        sum_all(player_stack_of(start.players)) + pots_total(start.pot.pots) == sum_all(
            player_stack_of(end.players),
        ) + pots_total(end.pot.pots),
{
}

/// During a hand the chips at the table are those of the players who stay
/// out of it, those in the stacks that the pot keeps, and those in the
/// slices.
pub proof fn law_chips_during_a_hand(state: TableState)
    requires
        state.wf(),
        state.live(),
    ensures
        state.total_chips == sum_all(bench_of(state.players, state.pot.stacks_bets))
            + total_stacks(state.pot.stacks_bets) + pots_total(state.pot.pots),
{
}

/// A move out of turn changes nothing, whatever the move.
pub proof fn law_out_of_turn(state: TableState, seat: usize, action: PotAction)
    requires
        state.phase is Street,
        seat != state.action_idx,
    ensures
        state.act_result(seat, action) is Err,
        state.act_result(seat, action)->Err_0.status is NotYourTurn || state.act_result(
            seat,
            action,
        )->Err_0.status is Paused,
        state.after_act(seat, action) == state,
{
}

/// A table that is paused takes no move, and is as it was when it resumes.
pub proof fn law_paused(state: TableState, seat: usize, action: PotAction)
    requires
        state.phase is Street,
        state.is_paused,
    ensures
        state.act_result(seat, action) == Err::<u64, Refusal>(
            Refusal { status: StatusCode::Paused, min_bet: 0, reason: None },
        ),
        state.after_act(seat, action) == state,
{
}

/// A move never takes the table out of a hand but into the settling of the
/// pot or the showdown, and a move that is turned down changes nothing.
pub proof fn law_moves_keep_the_hand(state: TableState, seat: usize, action: PotAction)
    requires
        state.phase is Street,
    ensures
        state.after_act(seat, action).live(),
        state.act_result(seat, action) is Err ==> state.after_act(seat, action) == state,
        !(state.after_act(seat, action).phase is Idle),
        !(state.after_act(seat, action).phase is PreHand),
{
}

/// The seat that comes next among some seats is one of them.
pub proof fn lemma_next_seat_is_member(seats: Set<usize>, from: usize)
    ensures
        next_seat(seats, from) matches Some(p) ==> seats.contains(p),
{
    let pred = seat_pred(seats);
    if least_from(pred, from + 1) is Some {
        lemma_least_from_some(pred, from + 1);
    } else if least_from(pred, 0) is Some {
        lemma_least_from_some(pred, 0);
    }
}

/// Moving the action on keeps the table well formed and its chips.
pub proof fn lemma_advance_keeps_the_table(state: TableState, seat: usize)
    requires
        state.wf_mid(),
        state.phase is Street,
    ensures
        state.advanced(seat).wf(),
        state.advanced(seat).total_chips == state.total_chips,
{
    let hand = state.in_hand();
    lemma_collect_keeps(state.pot);
    law_entrants_stay(state.pot, 0, 0, 0);
    lemma_next_seat_is_member(hand, seat);
    lemma_next_seat_is_member(hand, state.btn_idx);
}

/// Every move keeps the table well formed and its chips: no move makes or
/// loses a chip.
pub proof fn law_moves_keep_the_table(state: TableState, seat: usize, action: PotAction)
    requires
        state.wf(),
    ensures
        state.after_act(seat, action).wf(),
        state.after_act(seat, action).total_chips == state.total_chips,
        state.after_act(seat, action).chips() == state.chips(),
{
    if state.act_result(seat, action) is Ok {
        let moved = state.moved(seat, action);
        assert(state.in_hand().contains(seat));
        assert(state.pot.has_seat(seat));
        law_entrants_stay(state.pot, seat, 0, 0);
        match action {
            PotAction::Fold => {
                lemma_apply_keeps(state.pot, PotOp::Fold { pos: seat });
                lemma_sum_below_agree(
                    bench_of(state.players, state.pot.stacks_bets),
                    bench_of(moved.players, moved.pot.stacks_bets),
                    seat_limit(),
                );
                assert(moved.in_hand().subset_of(state.in_hand()));
                assert(moved.players.dom() =~= state.players.dom());
            },
            PotAction::CheckCall => {
                lemma_apply_keeps(state.pot, PotOp::CheckCall { pos: seat });
            },
            PotAction::BetRaise(bet) => {
                lemma_apply_keeps(state.pot, PotOp::BetOrShove { pos: seat, amount: bet.amount });
                law_entrants_stay(state.pot, seat, bet.amount, 0);
            },
        }
        lemma_advance_keeps_the_table(moved, seat);
    }
}

/// The time of a seat running out keeps the table well formed and its chips.
pub proof fn law_timeouts_keep_the_table(state: TableState)
    requires
        state.wf(),
    ensures
        state.after_timeout().wf(),
        state.after_timeout().total_chips == state.total_chips,
{
    if state.turned_down(state.action_idx) is None {
        match state.timed_out_move() {
            TimedOut::StoodPat => {
                lemma_advance_keeps_the_table(state, state.action_idx);
            },
            TimedOut::Folded => {
                law_moves_keep_the_table(state, state.action_idx, PotAction::Fold);
            },
            TimedOut::Checked => {
                law_moves_keep_the_table(state, state.action_idx, PotAction::CheckCall);
            },
        }
    }
}

/// An instruction to the table keeps it well formed and its chips.
pub proof fn law_instructions_keep_the_table(state: TableState, kind: ActionType)
    requires
        state.wf(),
    ensures
        state.after_control(kind).wf(),
        state.after_control(kind).total_chips == state.total_chips,
        state.after_control(kind).players == state.players,
        state.after_control(kind).pot == state.pot,
{
}

/// Settling the pot keeps the table well formed and its chips: what the
/// slices pay goes to the stacks of the players, and nothing else.
pub proof fn law_settling_keeps_the_table(state: TableState)
    requires
        state.wf(),
        state.phase is Settle,
    ensures
        state.after_settle().wf(),
        state.after_settle().total_chips == state.total_chips,
        sum_all(player_stack_of(state.after_settle().players)) + pots_total(
            state.after_settle().pot.pots,
        ) == state.total_chips,
{
    let after = state.after_settle();
    let seated = state.players.dom();
    let table = state.pot.stacks_bets;
    let level = synced(state.players, table);
    let pay = state.showdown_pay();
    let paid = payouts_of(state.pot.pots, state.rankings, state.btn_idx);
    let before = player_stack_of(level);
    law_showdown_pays_what_it_takes(state.pot.pots, state.rankings, state.btn_idx);
    lemma_bench_and_table(state.players, state.players, table);
    lemma_pots_nonneg(after.pot.pots);
    assert forall|k: int| 0 <= k < seat_limit() implies #[trigger] paid(k) >= 0 && before(k)
        >= 0 by {}
    lemma_sum_below_nonneg(paid, seat_limit());
    assert forall|k: int| 0 <= k < seat_limit() implies #[trigger] player_stack_of(
        after.players,
    )(k) == before(k) + if level.contains_key(k as usize) {
        paid(k)
    } else {
        0
    } by {
        lemma_sum_below_bounds_term(paid, k, seat_limit());
        lemma_sum_below_bounds_term(before, k, seat_limit());
        if level.contains_key(k as usize) && !pay.contains_key(k as usize) {
            lemma_no_win_no_pay(state.pot.pots, state.rankings, state.btn_idx, k as usize);
        }
    }
    assert forall|k: int| 0 <= k < seat_limit() && !level.contains_key(k as usize) implies #[trigger] paid(
        k,
    ) == 0 by {
        if pay.contains_key(k as usize) {
            let i = choose|i: int|
                0 <= i < state.pot.pots.len() && (#[trigger] state.pot.pots[i]).amount > 0
                    && winners(state.pot.pots[i], state.rankings).contains(k as usize);
            assert(state.rankings.dom().contains(k as usize));
        } else {
            lemma_no_win_no_pay(state.pot.pots, state.rankings, state.btn_idx, k as usize);
        }
    }
    lemma_sum_below_add(before, paid, player_stack_of(after.players), seat_limit());
    assert forall|a: int, b: int| 0 <= a < b < after.pot.pots.len() implies (
    #[trigger] after.pot.pots[b]).eligible.subset_of((#[trigger] after.pot.pots[a]).eligible) by {
        assert(state.pot.pots[b].eligible.subset_of(state.pot.pots[a].eligible));
    }
}

/// At a well-formed table every player is filed under its own seat: no hand
/// is turned down for a misplaced player.
pub proof fn law_players_sit_where_filed(state: TableState)
    requires
        state.wf(),
    ensures
        state.begin_check() != Err::<(), HandError>(HandError::Pot(PotError::MisplacedPlayer)),
{
}

/// A table that has taken the steps that need no player waits: for a move of
/// the seat to act, or for a hand to be asked for.
pub proof fn law_script_runs_to_a_wait(
    state: TableState,
    after: TableState,
    told: Seq<GameResponse>,
)
    requires
        state.wf(),
        state.script_run(after, told),
    ensures
        after.phase is Idle || after.phase is Street,
        state.phase is Idle || state.phase is Street ==> after == state && told.len() == 0,
{
}

/// An exchange puts no card in two places: how often a card is found among
/// the hands of the players who are present, the deck and the discard pile
/// is the same after the exchange of a player who is present as before it.
pub proof fn law_exchange_deals_no_card_twice(
    state: TableState,
    after: TableState,
    seat: usize,
    discards: Seq<Card>,
    drawn: Seq<Card>,
    text: Seq<char>,
)
    requires
        state.wf(),
        state.draw_done(after, seat, discards, drawn),
        !state.players[seat].is_away,
    ensures
        times_held(after.players, text) + after.deck.count(text) + after.pile.count(text)
            == times_held(state.players, text) + state.deck.count(text) + state.pile.count(text),
{
    broadcast use vstd::multiset::group_multiset_axioms;

    let mid = state.with_exchange(seat, after.players[seat].hand, after.deck, after.pile);
    lemma_advance_keeps_players(mid, seat);
    assert(state.in_hand().contains(seat));
    let held = state.players[seat].hand@;
    let kept = without_all(held, discards)->0;
    lemma_kept_and_given(held, discards);
    law_exchange_keeps_the_cards(
        state.deck,
        state.pile,
        after.deck,
        after.pile,
        texts_of(discards),
        texts_of(drawn),
    );
    assert(texts_of(kept + drawn) =~= texts_of(kept) + texts_of(drawn));
    vstd::seq_lib::lemma_multiset_commutative(texts_of(kept), texts_of(drawn));
    let mine = texts_of(kept).to_multiset();
    let given = texts_of(discards).to_multiset();
    let got = texts_of(drawn).to_multiset();
    assert(got.add(after.deck).add(after.pile).count(text) == given.add(state.deck).add(
        state.pile,
    ).count(text));
    assert(mine.add(given).count(text) == texts_of(held).to_multiset().count(text));
    assert(mine.add(got).count(text) == texts_of(after.players[seat].hand@).to_multiset().count(
        text,
    ));
    let f = held_by(state.players, text);
    let g = held_by(after.players, text);
    assert forall|k: int| 0 <= k < seat_limit() && k != seat implies #[trigger] f(k) == g(k) by {}
    lemma_sum_below_update(f, g, seat as int, seat_limit());
}

} // verus!
