//! A pot that tracks the highest bet of a round and the least raise over it.

use crate::player::Player;
use vstd::prelude::*;

verus! {

/// A pot with the amounts of its slices, the players entitled to each, and
/// the state of the betting round.
pub struct Pot<'a> {
    pots: Vec<u64>,
    elegible_players: Vec<Vec<&'a Player>>,
    largest_bet_idx: usize,
    largest_bet: u64,
    bet_diff: u64,
}

/// The bet is under the least raise over the highest bet.
#[derive(Debug, Clone, Copy, PartialEq, Eq, Structural)]
pub struct BetNotHighEnough {}

impl<'a> Pot<'a> {
    /// The seat that made the highest bet.
    pub closed spec fn bettor(&self) -> usize {
        self.largest_bet_idx
    }

    /// The highest bet.
    pub closed spec fn highest(&self) -> u64 {
        self.largest_bet
    }

    /// The least amount by which a raise must exceed the highest bet.
    pub closed spec fn raise_step(&self) -> u64 {
        self.bet_diff
    }

    /// A pot without slices or bets.
    pub fn new() -> (pot: Pot<'a>)
        ensures
            pot.bettor() == 0,
            pot.highest() == 0,
            pot.raise_step() == 0,
    {
        Pot {
            pots: Vec::new(),
            elegible_players: Vec::new(),
            largest_bet_idx: 0,
            largest_bet: 0,
            bet_diff: 0,
        }
    }

    /// Whether the round is closed: the action is on the seat that made the
    /// highest bet.
    pub fn are_all_bets_good(&self, action_idx: usize) -> (good: bool)
        ensures
            good == (self.bettor() == action_idx),
    {
        self.largest_bet_idx == action_idx
    }

    /// Makes `new_bet` the highest bet, made by the seat `action_idx`. The bet
    /// must reach the highest bet so far and the least raise over it; the
    /// amount by which it exceeds the highest bet is then the least raise.
    /// A bet that does not is refused, and nothing changes.
    pub fn set_highest_bet(&mut self, action_idx: usize, new_bet: u64) -> (res: Result<
        (),
        BetNotHighEnough,
    >)
        ensures
            res is Ok <==> new_bet >= old(self).highest() + old(self).raise_step(),
            res is Ok ==> final(self).highest() == new_bet && final(self).bettor() == action_idx
                && final(self).raise_step() == new_bet - old(self).highest(),
            res is Err ==> final(self).highest() == old(self).highest() && final(self).bettor()
                == old(self).bettor() && final(self).raise_step() == old(self).raise_step(),
    {
        let reaches = match self.bet_diff.checked_add(self.largest_bet) {
            Some(least) => new_bet >= least,
            None => false,
        };
        if !reaches {
            return Err(BetNotHighEnough {  });
        }
        self.bet_diff = new_bet - self.largest_bet;
        self.largest_bet = new_bet;
        self.largest_bet_idx = action_idx;
        Ok(())
    }
}

} // verus!
