//! The pot of a pot-limit table. Only its state is laid down so far.

use crate::player::Player;
use vstd::prelude::*;

verus! {

/// A pot whose bets are limited by its size.
pub struct PotLimitPot<'a> {
    pots: Vec<u64>,
    elegible_players: Vec<Vec<&'a Player>>,
    largest_bet_idx: usize,
    largest_bet: u64,
    total_pot_size: u64,
    bet_diff: u64,
}

impl<'a> PotLimitPot<'a> {
    /// The chips in the pot.
    pub closed spec fn size(&self) -> u64 {
        self.total_pot_size
    }

    /// The highest bet.
    pub closed spec fn highest(&self) -> u64 {
        self.largest_bet
    }

    /// The number of slices.
    pub closed spec fn slices(&self) -> nat {
        self.pots@.len()
    }

    /// A pot without chips, slices or bets.
    pub fn new() -> (pot: PotLimitPot<'a>)
        ensures
            pot.size() == 0,
            pot.highest() == 0,
            pot.slices() == 0,
    {
        PotLimitPot {
            pots: Vec::new(),
            elegible_players: Vec::new(),
            largest_bet_idx: 0,
            largest_bet: 0,
            total_pot_size: 0,
            bet_diff: 0,
        }
    }
}

} // verus!
