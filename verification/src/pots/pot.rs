//! What a table asks of a pot, whatever its betting limits.

use crate::chips::sum_all;
use crate::player::Player;
use crate::player::entrants;
use crate::player::player_stack_of;
use crate::pots::error::PotError;
use crate::pots::model::PotState;
use crate::pots::model::pots_total;
use crate::pots::model::reset_result;
use crate::pots::model::total_stacks;
use crate::pots::no_limit_pot::NoLimitPot;
use crate::pots::showdown::all_contended;
use crate::pots::showdown::credited;
use crate::pots::showdown::paid_out;
use crate::pots::showdown::payouts;
use crate::pots::showdown::winners_are_seated;
use crate::pots::showdown::winnings_of;
use std::collections::BTreeMap;
use std::collections::HashMap;
use vstd::prelude::*;

verus! {

/// A pot: the stacks and bets of a hand, and its slices.
pub trait Pot {
    /// The state of the pot.
    spec fn state(&self) -> PotState;

    /// The stack and the bet of every entrant, by seat.
    fn get_all_player_stacks_bets(&self) -> (table: &BTreeMap<usize, (u64, u64)>)
        ensures
            table@ == self.state().stacks_bets,
    ;

    /// The stack and the bet of the entrant at `pos`.
    fn get_player_stack_bet(&self, pos: &usize) -> (res: Result<&(u64, u64), PotError>)
        ensures
            self.state().has_seat(*pos) ==> res == Ok::<&(u64, u64), PotError>(
                &self.state().stacks_bets[*pos],
            ),
            !self.state().has_seat(*pos) ==> res == Err::<&(u64, u64), PotError>(
                PotError::UnknownSeat { position: *pos },
            ),
    ;

    /// The last seat to commit a bet and the last seat to raise legally.
    fn get_largest_bet_idxes(&self) -> (idxes: Option<(usize, usize)>)
        ensures
            idxes == self.state().largest_bet_idxes,
    ;

    /// Whether the betting round is closed: the action is back on the last
    /// seat that bet.
    fn are_all_bets_good(&self, action_idx: usize) -> (good: bool)
        ensures
            good == match self.state().largest_bet_idxes {
                Some((lb, _)) => lb == action_idx,
                None => false,
            },
    ;

    /// Whether this hand is a bomb pot.
    fn is_bomb_pot(&self) -> (bomb: bool)
        ensures
            bomb == self.state().is_bomb_pot,
    ;

    /// Takes the forced bets before the deal.
    fn post_before_deal(&mut self, bb_idx: &usize) -> (res: Result<(), PotError>)
        requires
            old(self).state().wf(),
        ensures
            res == old(self).state().post_before_deal_result(*bb_idx),
            final(self).state() == old(self).state().after_post_before_deal(*bb_idx),
            final(self).state().wf(),
            final(self).state().chips() == old(self).state().chips(),
    ;

    /// A bet or raise by the seat at `pos`.
    fn bet_or_shove(&mut self, pos: &usize, bet: u64) -> (res: Result<u64, PotError>)
        requires
            old(self).state().wf(),
        ensures
            res == old(self).state().bet_or_shove_result(*pos, bet),
            final(self).state() == old(self).state().after_bet_or_shove(*pos, bet),
            final(self).state().wf(),
            final(self).state().chips() == old(self).state().chips(),
    ;

    /// A check or call by the seat at `pos`.
    fn check_call(&mut self, pos: &usize) -> (res: Result<u64, PotError>)
        requires
            old(self).state().wf(),
        ensures
            res == old(self).state().check_call_result(*pos),
            final(self).state() == old(self).state().after_check_call(*pos),
            final(self).state().wf(),
            final(self).state().chips() == old(self).state().chips(),
    ;

    /// A fold by the seat at `pos`.
    fn fold(&mut self, pos: &usize) -> (res: Result<(), PotError>)
        requires
            old(self).state().wf(),
        ensures
            res is Ok,
            final(self).state() == old(self).state().after_fold(*pos),
            final(self).state().wf(),
            final(self).state().chips() == old(self).state().chips(),
    ;

    /// Prepares the pot for a new hand.
    fn reset_pot(
        &mut self,
        players: &HashMap<usize, Player>,
        sb: u64,
        bb: u64,
        ante: u64,
        is_bomb: bool,
    ) -> (res: Result<(), PotError>)
        ensures
            res == reset_result(players@, sb, bb, ante, is_bomb),
            res is Err ==> final(self).state() == old(self).state(),
            res is Ok ==> final(self).state() == PotState::fresh(
                entrants(players@),
                sb,
                bb,
                ante,
                is_bomb,
            ),
            res is Ok ==> final(self).state().wf(),
            res is Ok ==> final(self).state().chips() == total_stacks(entrants(players@)),
    ;

    /// Ends the street: moves every bet into the slices.
    fn collect_bets(&mut self)
        requires
            old(self).state().wf(),
        ensures
            final(self).state() == old(self).state().after_collect(),
            final(self).state().wf(),
            final(self).state().chips() == old(self).state().chips(),
    ;

    /// Pays the slices out to their winners.
    fn distribute_pot(
        &mut self,
        players: &mut HashMap<usize, Player>,
        hand_rankings: &HashMap<usize, u64>,
        btn_idx: &usize,
    ) -> (pay: HashMap<usize, u64>)
        requires
            old(self).state().wf(),
            winners_are_seated(old(self).state().pots, hand_rankings@, old(players)@.dom()),
            sum_all(player_stack_of(old(players)@)) + pots_total(old(self).state().pots)
                <= u64::MAX,
        ensures
            pay@ == payouts(old(self).state().pots, hand_rankings@, *btn_idx),
            final(players)@ == credited(old(players)@, pay@),
            final(self).state() == (PotState {
                pots: paid_out(old(self).state().pots, hand_rankings@),
                ..old(self).state()
            }),
            final(self).state().wf(),
            sum_all(winnings_of(pay@)) + pots_total(final(self).state().pots) == pots_total(
                old(self).state().pots,
            ),
            sum_all(player_stack_of(final(players)@)) == sum_all(
                player_stack_of(old(players)@),
            ) + sum_all(winnings_of(pay@)),
            all_contended(old(self).state().pots, hand_rankings@) ==> sum_all(winnings_of(pay@))
                == pots_total(old(self).state().pots) && pots_total(final(self).state().pots)
                == 0,
    ;
}

impl Pot for NoLimitPot {
    open spec fn state(&self) -> PotState {
        self@
    }

    fn get_all_player_stacks_bets(&self) -> (table: &BTreeMap<usize, (u64, u64)>) {
        NoLimitPot::get_all_player_stacks_bets(self)
    }

    fn get_player_stack_bet(&self, pos: &usize) -> (res: Result<&(u64, u64), PotError>) {
        NoLimitPot::get_player_stack_bet(self, pos)
    }

    fn get_largest_bet_idxes(&self) -> (idxes: Option<(usize, usize)>) {
        NoLimitPot::get_largest_bet_idxes(self)
    }

    fn are_all_bets_good(&self, action_idx: usize) -> (good: bool) {
        NoLimitPot::are_all_bets_good(self, action_idx)
    }

    fn is_bomb_pot(&self) -> (bomb: bool) {
        NoLimitPot::is_bomb_pot(self)
    }

    fn post_before_deal(&mut self, bb_idx: &usize) -> (res: Result<(), PotError>) {
        NoLimitPot::post_before_deal(self, bb_idx)
    }

    fn bet_or_shove(&mut self, pos: &usize, bet: u64) -> (res: Result<u64, PotError>) {
        NoLimitPot::bet_or_shove(self, pos, bet)
    }

    fn check_call(&mut self, pos: &usize) -> (res: Result<u64, PotError>) {
        NoLimitPot::check_call(self, pos)
    }

    fn fold(&mut self, pos: &usize) -> (res: Result<(), PotError>) {
        NoLimitPot::fold(self, pos)
    }

    fn reset_pot(
        &mut self,
        players: &HashMap<usize, Player>,
        sb: u64,
        bb: u64,
        ante: u64,
        is_bomb: bool,
    ) -> (res: Result<(), PotError>) {
        NoLimitPot::reset_pot(self, players, sb, bb, ante, is_bomb)
    }

    fn collect_bets(&mut self) {
        NoLimitPot::collect_bets(self)
    }

    fn distribute_pot(
        &mut self,
        players: &mut HashMap<usize, Player>,
        hand_rankings: &HashMap<usize, u64>,
        btn_idx: &usize,
    ) -> (pay: HashMap<usize, u64>) {
        NoLimitPot::distribute_pot(self, players, hand_rankings, btn_idx)
    }
}

} // verus!
