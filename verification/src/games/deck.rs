//! The deck of cards and the hand evaluator, as far as the game relies on
//! them. Cards cross this boundary in their two-character encoding.

use crate::cards::card_of;
use std::str::FromStr;
use vstd::multiset::Multiset;
use vstd::prelude::*;

verus! {

/// A deck of playing cards with its discard pile.
#[verifier::external_type_specification]
#[verifier::external_body]
pub struct ExCardDeck(playing_cards::core::CardDeck);

/// The cards in the deck, by their encodings. Nothing is said of their order.
pub uninterp spec fn deck_holds(deck: playing_cards::core::CardDeck) -> Multiset<Seq<char>>;

/// The cards on the discard pile of the deck, by their encodings.
pub uninterp spec fn pile_holds(deck: playing_cards::core::CardDeck) -> Multiset<Seq<char>>;

/// The strength that the evaluator gives to a high hand of the cards with the
/// given encodings, or nothing where it gives none. A greater strength is a
/// better hand.
pub uninterp spec fn high_hand_strength(cards: Seq<Seq<char>>) -> Option<u32>;

/// The texts that a list of strings holds.
pub open spec fn views_of(texts: Seq<String>) -> Seq<Seq<char>> {
    Seq::new(texts.len(), |i: int| texts[i]@)
}

/// Every text of the list is the encoding of a card.
pub open spec fn all_cards(texts: Seq<String>) -> bool {
    forall|i: int| 0 <= i < texts.len() ==> card_of((#[trigger] texts[i])@) is Some
}

/// `CardDeck::new`, without a seed: a deck of the fifty-two cards, each once,
/// in a fixed order, with an empty discard pile. It cannot fail.
#[verifier::external_body]
pub(crate) fn new_deck() -> (deck: Option<playing_cards::core::CardDeck>)
    ensures
        deck is Some,
        deck_holds(deck->0).len() == 52,
        forall|text: Seq<char>| deck_holds(deck->0).count(text) <= 1,
        pile_holds(deck->0).len() == 0,
{
    playing_cards::core::CardDeck::new(None).ok()
}

/// `CardDeck::shuffle`, without a seed: the order of the deck is drawn from
/// the system's entropy. Tells whether that succeeded. Either way the deck
/// and the discard pile hold the cards that they held.
#[verifier::external_body]
pub(crate) fn shuffle_deck(deck: &mut playing_cards::core::CardDeck) -> (shuffled: bool)
    ensures
        deck_holds(*final(deck)) == deck_holds(*old(deck)),
        pile_holds(*final(deck)) == pile_holds(*old(deck)),
{
    deck.shuffle(None).is_ok()
}

/// `CardDeck::deal_cards`, without the discard pile: takes `count` cards off
/// the deck, or none at all where it holds fewer. The cards come in their
/// encoding, as `String::from` gives it for a card. Which cards of the deck
/// they are is not claimed.
#[verifier::external_body]
pub(crate) fn deal_texts(deck: &mut playing_cards::core::CardDeck, count: usize) -> (dealt: Option<
    Vec<String>,
>)
    ensures
        dealt is Some <==> deck_holds(*old(deck)).len() >= count,
        dealt is None ==> deck_holds(*final(deck)) == deck_holds(*old(deck)),
        dealt matches Some(texts) ==> texts@.len() == count && all_cards(texts@) && views_of(
            texts@,
        ).to_multiset().add(deck_holds(*final(deck))) == deck_holds(*old(deck)),
        pile_holds(*final(deck)) == pile_holds(*old(deck)),
{
    deck.deal_cards(count, false).map(|cards| cards.into_iter().map(String::from).collect())
}

/// `CardDeck::check_deal_cards`, with the discard pile counted in: whether the
/// deck and the pile together hold `count` cards.
#[verifier::external_body]
pub(crate) fn can_deal_with_pile(deck: &playing_cards::core::CardDeck, count: usize) -> (enough:
    bool)
    ensures
        enough == (deck_holds(*deck).len() + pile_holds(*deck).len() >= count),
{
    deck.check_deal_cards(count, true)
}

/// `CardDeck::muck_cards`, on the cards that `Card::from_str` reads from the
/// given encodings: puts them on the discard pile.
#[verifier::external_body]
pub(crate) fn muck_texts(deck: &mut playing_cards::core::CardDeck, texts: &Vec<String>)
    requires
        all_cards(texts@),
    ensures
        pile_holds(*final(deck)) == pile_holds(*old(deck)).add(views_of(texts@).to_multiset()),
        deck_holds(*final(deck)) == deck_holds(*old(deck)),
{
    let cards: Result<Vec<playing_cards::core::Card>, String> = texts.iter().map(
        |text| playing_cards::core::Card::from_str(text),
    ).collect();
    if let Ok(cards) = cards {
        deck.muck_cards(cards)
    }
}

/// `CardDeck::reshuffle_muck`, without a seed: shuffles the discard pile and
/// puts it under the deck. Tells whether that succeeded; if not, nothing has
/// moved.
#[verifier::external_body]
pub(crate) fn reshuffle_discards(deck: &mut playing_cards::core::CardDeck) -> (shuffled: bool)
    ensures
        shuffled ==> deck_holds(*final(deck)) == deck_holds(*old(deck)).add(
            pile_holds(*old(deck)),
        ) && pile_holds(*final(deck)).len() == 0,
        !shuffled ==> deck_holds(*final(deck)) == deck_holds(*old(deck)) && pile_holds(
            *final(deck),
        ) == pile_holds(*old(deck)),
{
    deck.reshuffle_muck(None).is_ok()
}

/// `playing_cards::poker::evaluators::high_evaluator::evaluate_hand`: the
/// strength of the best high hand among the cards with the given encodings.
/// The result depends on the encodings alone.
#[verifier::external_body]
pub(crate) fn high_strength(texts: &Vec<String>) -> (strength: Option<u32>)
    ensures
        strength == high_hand_strength(views_of(texts@)),
{
    let cards: Result<Vec<playing_cards::core::Card>, String> = texts.iter().map(
        |text| playing_cards::core::Card::from_str(text),
    ).collect();
    playing_cards::poker::evaluators::high_evaluator::evaluate_hand(&cards.ok()?).ok().map(
        |rank| rank.0.strength,
    )
}

} // verus!
