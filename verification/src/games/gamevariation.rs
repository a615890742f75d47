//! What a table asks of a game, whatever its rules.

use crate::cards::Card;
use crate::games::five_card_draw::FiveCardDraw;
use crate::games::five_card_draw::GameError;
use crate::games::five_card_draw::HAND_SIZE;
use crate::games::five_card_draw::only_hands_differ;
use crate::games::five_card_draw::showdown_ranks;
use crate::games::five_card_draw::times_held;
use crate::player::Player;
use crate::player::entrants;
use std::collections::HashMap;
use vstd::multiset::Multiset;
use vstd::prelude::*;

verus! {

/// A game variation: it deals the hands and ranks them at the showdown.
pub trait GameVariation {
    /// Whether a hand can be dealt to `count` players.
    spec fn plays_with(&self, count: int) -> bool;

    /// Starts a hand. Fails, changing nothing, where the players who are not
    /// away are not as many as the game is played with. Whatever happens,
    /// nothing but the cards of the players changes.
    fn start_normal(&mut self, players: &mut HashMap<usize, Player>, btn_idx: usize) -> (res:
        Result<(), GameError>)
        ensures
            !old(self).plays_with(entrants(old(players)@).dom().len() as int) ==> res == Err::<
                (),
                GameError,
            >(GameError::PlayerCount) && final(players)@ == old(players)@,
            old(self).plays_with(entrants(old(players)@).dom().len() as int) ==> res != Err::<
                (),
                GameError,
            >(GameError::PlayerCount),
            only_hands_differ(old(players)@, final(players)@),
    ;

    /// The ranks of the hands that are still in play, by seat; a higher rank
    /// is a better hand.
    fn evaluate_all_hands(&self, players: &HashMap<usize, Player>) -> (ranks: HashMap<usize, u64>)
        ensures
            forall|k: usize|
                ranks@.contains_key(k) ==> players@.contains_key(k) && (
                #[trigger] players@[k]).is_in_hand,
    ;
}

impl GameVariation for FiveCardDraw {
    open spec fn plays_with(&self, count: int) -> bool {
        crate::games::five_card_draw::player_count_ok(count)
    }

    fn start_normal(&mut self, players: &mut HashMap<usize, Player>, btn_idx: usize) -> (res:
        Result<(), GameError>)
        ensures
            res != Err::<(), GameError>(GameError::CardNotHeld),
            res is Ok ==> forall|k: usize|
                entrants(old(players)@).contains_key(k) ==> (#[trigger] final(players)@[k]).hand@.len()
                    == HAND_SIZE,
            res is Ok ==> final(self).has_deck() && final(self).on_board() == Seq::<Card>::empty(),
            res is Ok ==> final(self).cards_left() == 52 - HAND_SIZE * entrants(
                old(players)@,
            ).dom().len() && final(self).on_pile() == Multiset::<Seq<char>>::empty(),
            res is Ok ==> forall|text: Seq<char>|
                times_held(final(players)@, text) + final(self).in_deck().count(text) <= 1,
            res is Err ==> final(players)@ == old(players)@,
            res is Ok || res == Err::<(), GameError>(GameError::PlayerCount) || res == Err::<
                (),
                GameError,
            >(GameError::DeckUnavailable),
    {
        FiveCardDraw::start_normal(self, players, btn_idx)
    }

    fn evaluate_all_hands(&self, players: &HashMap<usize, Player>) -> (ranks: HashMap<usize, u64>)
        ensures
            ranks@ == showdown_ranks(players@),
    {
        FiveCardDraw::rank_showdown(self, players)
    }
}

} // verus!
