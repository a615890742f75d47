//! No-limit five-card draw: five cards to each entrant, a betting round, an
//! exchange of cards, a second betting round and the showdown.

use crate::cards::Card;
use crate::cards::card_of;
use crate::cards::law_card_text_unique;
use crate::cards::text_of;
use crate::cards::texts_of;
use crate::chips::lemma_sum_below_agree;
use crate::chips::lemma_sum_below_update;
use crate::chips::lemma_sum_below_zero;
use crate::chips::seat_limit;
use crate::chips::sum_all;
use crate::games::deck::all_cards;
use crate::games::deck::can_deal_with_pile;
use crate::games::deck::deal_texts;
use crate::games::deck::deck_holds;
use crate::games::deck::high_hand_strength;
use crate::games::deck::high_strength;
use crate::games::deck::muck_texts;
use crate::games::deck::new_deck;
use crate::games::deck::pile_holds;
use crate::games::deck::reshuffle_discards;
use crate::games::deck::shuffle_deck;
use crate::games::deck::views_of;
use crate::ordered::among_first;
use crate::ordered::seat_keys;
use crate::player::Player;
use crate::player::entrant_seats;
use crate::player::entrants;
use std::collections::HashMap;
use vstd::multiset::Multiset;
use vstd::prelude::*;

verus! {

/// The fewest players a hand can be dealt to.
pub const MIN_PLAYER_COUNT: usize = 2;

/// The most players a hand can be dealt to.
pub const MAX_PLAYER_COUNT: usize = 6;

/// The number of cards in a hand.
pub const HAND_SIZE: usize = 5;

/// The number of betting streets of a hand.
pub const STREET_COUNT: usize = 2;

/// Why the game could not go on.
#[derive(Debug, Clone, Copy, PartialEq, Eq, Structural)]
pub enum GameError {
    /// Fewer or more players have entered than the game is played with.
    PlayerCount,
    /// No deck could be made or shuffled.
    DeckUnavailable,
    /// The deck does not hold the cards asked for.
    DeckExhausted,
    /// A card to be discarded is not in the player's hand.
    CardNotHeld,
}

/// The five-card draw game with its deck.
pub struct FiveCardDraw {
    deck: Option<playing_cards::core::CardDeck>,
    board: Vec<Card>,
}

/// Whether a hand can be dealt to `count` players.
pub open spec fn player_count_ok(count: int) -> bool {
    MIN_PLAYER_COUNT <= count <= MAX_PLAYER_COUNT
}

/// Only the cards of the players differ between `before` and `after`.
pub open spec fn only_hands_differ(before: Map<usize, Player>, after: Map<usize, Player>) -> bool {
    &&& after.dom() == before.dom()
    &&& forall|k: usize|
        before.contains_key(k) ==> #[trigger] after[k] == (Player {
            hand: after[k].hand,
            ..before[k]
        })
}

/// The place of the first `card` in `hand`, or the length of `hand` where it
/// holds none.
pub open spec fn first_place(hand: Seq<Card>, card: Card) -> int
    decreases hand.len(),
{
    if hand.len() == 0 {
        0
    } else if hand[0] == card {
        0
    } else {
        1 + first_place(hand.drop_first(), card)
    }
}

/// The hand without the cards of `discards`, each taken out once, or nothing
/// where the hand does not hold them all.
pub open spec fn without_all(hand: Seq<Card>, discards: Seq<Card>) -> Option<Seq<Card>>
    decreases discards.len(),
{
    if discards.len() == 0 {
        Some(hand)
    } else if first_place(hand, discards[0]) < hand.len() {
        without_all(hand.remove(first_place(hand, discards[0])), discards.drop_first())
    } else {
        None
    }
}

/// How often each player who is present holds the card with the given
/// encoding.
pub open spec fn held_by(players: Map<usize, Player>, text: Seq<char>) -> spec_fn(int) -> int {
    |k: int|
        if 0 <= k <= usize::MAX && entrants(players).contains_key(k as usize) {
            texts_of(players[k as usize].hand@).to_multiset().count(text) as int
        } else {
            0
        }
}

/// How often the players who are present hold the card with the given
/// encoding, all together.
pub open spec fn times_held(players: Map<usize, Player>, text: Seq<char>) -> int {
    sum_all(held_by(players, text))
}

/// How often each of the first `i` of `seats` holds the card with the given
/// encoding.
pub open spec fn dealt_to(
    players: Map<usize, Player>,
    seats: Seq<usize>,
    i: int,
    text: Seq<char>,
) -> spec_fn(int) -> int {
    |k: int|
        if 0 <= k <= usize::MAX && among_first(seats, i, k as usize) {
            texts_of(players[k as usize].hand@).to_multiset().count(text) as int
        } else {
            0
        }
}

/// What an exchange does to the deck and to the discard pile. Where the deck
/// holds cards enough, the new cards come off it and the cards given up go on
/// the pile. Where it does not, the pile is first shuffled into the deck.
pub open spec fn exchanged(
    deck: Multiset<Seq<char>>,
    pile: Multiset<Seq<char>>,
    deck_after: Multiset<Seq<char>>,
    pile_after: Multiset<Seq<char>>,
    given: Seq<Seq<char>>,
    got: Seq<Seq<char>>,
) -> bool {
    if given.len() <= deck.len() {
        got.to_multiset().add(deck_after) == deck && pile_after == pile.add(given.to_multiset())
    } else {
        got.to_multiset().add(deck_after) == deck.add(pile) && pile_after == given.to_multiset()
    }
}

/// No card is made or lost by an exchange: the cards given up, the deck and
/// the pile before it together are the cards got, the deck and the pile after
/// it.
pub proof fn law_exchange_keeps_the_cards(
    deck: Multiset<Seq<char>>,
    pile: Multiset<Seq<char>>,
    deck_after: Multiset<Seq<char>>,
    pile_after: Multiset<Seq<char>>,
    given: Seq<Seq<char>>,
    got: Seq<Seq<char>>,
)
    requires
        exchanged(deck, pile, deck_after, pile_after, given, got),
    ensures
        got.to_multiset().add(deck_after).add(pile_after) == given.to_multiset().add(deck).add(
            pile,
        ),
{
    assert(got.to_multiset().add(deck_after).add(pile_after) =~= given.to_multiset().add(deck).add(
        pile,
    ));
}

/// An exchange of as many cards as are given up leaves the deck smaller by
/// those cards, and the pile larger by them, where the deck held cards enough;
/// where it did not, the deck has taken in the pile first, and the pile holds
/// the cards given up and no others.
pub proof fn law_exchange_counts(
    deck: Multiset<Seq<char>>,
    pile: Multiset<Seq<char>>,
    deck_after: Multiset<Seq<char>>,
    pile_after: Multiset<Seq<char>>,
    given: Seq<Seq<char>>,
    got: Seq<Seq<char>>,
)
    requires
        exchanged(deck, pile, deck_after, pile_after, given, got),
        given.len() == got.len(),
    ensures
        given.len() <= deck.len() ==> deck_after.len() == deck.len() - got.len()
            && pile_after.len() == pile.len() + given.len(),
        given.len() > deck.len() ==> deck_after.len() == deck.len() + pile.len() - got.len()
            && pile_after.len() == given.len(),
{
    broadcast use vstd::multiset::group_multiset_axioms;

    vstd::seq_lib::to_multiset_len(given);
    vstd::seq_lib::to_multiset_len(got);
    assert(got.to_multiset().add(deck_after).len() == got.len() + deck_after.len());
    assert(pile.add(given.to_multiset()).len() == pile.len() + given.len());
    assert(deck.add(pile).len() == deck.len() + pile.len());
}

/// The strengths of the hands that are still in play, by seat.
pub open spec fn showdown_ranks(players: Map<usize, Player>) -> Map<usize, u64> {
    Map::new(
        |k: usize|
            players.contains_key(k) && players[k].is_in_hand && high_hand_strength(
                texts_of(players[k].hand@),
            ) is Some,
        |k: usize| high_hand_strength(texts_of(players[k].hand@))->0 as u64,
    )
}

/// The first place of a card is within the hand or just past it, and no
/// earlier place holds the card.
pub proof fn lemma_first_place(hand: Seq<Card>, card: Card)
    ensures
        0 <= first_place(hand, card) <= hand.len(),
        first_place(hand, card) < hand.len() ==> hand[first_place(hand, card)] == card,
        forall|j: int| 0 <= j < first_place(hand, card) ==> hand[j] != card,
    decreases hand.len(),
{
    if hand.len() > 0 && hand[0] != card {
        let rest = hand.drop_first();
        lemma_first_place(rest, card);
        assert forall|j: int| 0 <= j < first_place(hand, card) implies hand[j] != card by {
            if j > 0 {
                assert(rest[j - 1] == hand[j]);
            }
        }
    }
}

/// The cards kept and the cards given up are the cards of the hand.
pub proof fn lemma_kept_and_given(hand: Seq<Card>, discards: Seq<Card>)
    requires
        without_all(hand, discards) is Some,
    ensures
        texts_of(without_all(hand, discards)->0).to_multiset().add(
            texts_of(discards).to_multiset(),
        ) == texts_of(hand).to_multiset(),
    decreases discards.len(),
{
    broadcast use vstd::multiset::group_multiset_axioms;

    let given = texts_of(discards);
    if discards.len() == 0 {
        vstd::seq_lib::to_multiset_len(given);
        assert(given.to_multiset() =~= Multiset::empty());
        assert(texts_of(hand).to_multiset().add(given.to_multiset()) =~= texts_of(
            hand,
        ).to_multiset());
    } else {
        let card = discards[0];
        let j = first_place(hand, card);
        lemma_first_place(hand, card);
        let fewer = hand.remove(j);
        let rest = discards.drop_first();
        lemma_kept_and_given(fewer, rest);
        assert(texts_of(fewer) =~= texts_of(hand).remove(j));
        assert(texts_of(rest) =~= given.remove(0));
        vstd::seq_lib::to_multiset_remove(texts_of(hand), j);
        vstd::seq_lib::to_multiset_remove(given, 0);
        vstd::seq_lib::to_multiset_contains(texts_of(hand), text_of(card));
        vstd::seq_lib::to_multiset_contains(given, text_of(card));
        assert(texts_of(hand)[j] == text_of(card));
        assert(given[0] == text_of(card));
        let text = text_of(card);
        let kept = texts_of(without_all(hand, discards)->0).to_multiset();
        let all = texts_of(hand).to_multiset();
        let thrown = given.to_multiset();
        assert(texts_of(hand).contains(text));
        assert(given.contains(text));
        assert(kept.add(thrown.remove(text)) == all.remove(text));
        assert forall|x: Seq<char>| #[trigger] kept.add(thrown).count(x) == all.count(x) by {
            assert(kept.add(thrown.remove(text)).count(x) == all.remove(text).count(x));
            assert(Multiset::singleton(text).count(x) == if x == text {
                1nat
            } else {
                0nat
            });
        }
        assert(kept.add(thrown) =~= all);
    }
}

/// Where some cards have been taken off a deck, the deck holds that many
/// fewer.
pub proof fn lemma_dealt_off(
    dealt: Seq<Seq<char>>,
    left: Multiset<Seq<char>>,
    full: Multiset<Seq<char>>,
)
    requires
        dealt.to_multiset().add(left) == full,
    ensures
        full.len() == dealt.len() + left.len(),
{
    broadcast use vstd::seq_lib::to_multiset_len;

}

/// Where no card is held more than once, two players who are present hold no
/// card in common.
pub proof fn law_no_card_in_two_hands(
    players: Map<usize, Player>,
    one: usize,
    other: usize,
    a: int,
    b: int,
)
    requires
        forall|text: Seq<char>| times_held(players, text) <= 1,
        entrants(players).contains_key(one),
        entrants(players).contains_key(other),
        one != other,
        0 <= a < players[one].hand@.len(),
        0 <= b < players[other].hand@.len(),
    ensures
        players[one].hand@[a] != players[other].hand@[b],
{
    broadcast use vstd::seq_lib::to_multiset_contains;

    let card = players[one].hand@[a];
    if card == players[other].hand@[b] {
        let text = text_of(card);
        let f = held_by(players, text);
        let g = |k: int|
            if k == one {
                0int
            } else {
                f(k)
            };
        assert(texts_of(players[one].hand@)[a] == text);
        assert(texts_of(players[other].hand@)[b] == text);
        assert(texts_of(players[one].hand@).contains(text));
        assert(texts_of(players[other].hand@).contains(text));
        assert(f(one as int) >= 1 && f(other as int) >= 1);
        lemma_sum_below_update(g, f, one as int, seat_limit());
        assert forall|k: int| 0 <= k < seat_limit() implies #[trigger] g(k) >= 0 by {}
        crate::chips::lemma_sum_below_bounds_term(g, other as int, seat_limit());
        assert(times_held(players, text) >= 2);
    }
}

/// The encodings of a hand.
pub fn card_texts(hand: &Vec<Card>) -> (texts: Vec<String>)
    ensures
        views_of(texts@) == texts_of(hand@),
        all_cards(texts@),
{
    let mut texts: Vec<String> = Vec::new();
    let mut i: usize = 0;
    while i < hand.len()
        invariant
            i <= hand@.len(),
            texts@.len() == i,
            forall|j: int| 0 <= j < i ==> (#[trigger] texts@[j])@ == text_of(hand@[j]),
        decreases hand@.len() - i,
    {
        texts.push(hand[i].to_text());
        i += 1;
    }
    assert(views_of(texts@) =~= texts_of(hand@));
    texts
}

/// The cards that a list of encodings stands for, or nothing where one of
/// them stands for no card.
pub fn read_cards(texts: &Vec<String>) -> (cards: Option<Vec<Card>>)
    ensures
        cards is Some <==> forall|j: int|
            0 <= j < texts@.len() ==> card_of((#[trigger] texts@[j])@) is Some,
        cards matches Some(read) ==> read@.len() == texts@.len() && forall|j: int|
            0 <= j < texts@.len() ==> Some(#[trigger] read@[j]) == card_of(texts@[j]@),
{
    let mut cards: Vec<Card> = Vec::new();
    let mut i: usize = 0;
    while i < texts.len()
        invariant
            i <= texts@.len(),
            cards@.len() == i,
            forall|j: int| 0 <= j < i ==> Some(#[trigger] cards@[j]) == card_of(texts@[j]@),
        decreases texts@.len() - i,
    {
        match Card::from_text(texts[i].as_str()) {
            Some(card) => {
                cards.push(card);
            },
            None => {
                assert(card_of(texts@[i as int]@) is None);
                return None;
            },
        }
        i += 1;
    }
    proof {
        assert forall|j: int| 0 <= j < texts@.len() implies card_of(
            (#[trigger] texts@[j])@,
        ) is Some by {
            assert(Some(cards@[j]) == card_of(texts@[j]@));
        }
    }
    Some(cards)
}

/// A copy of a list of cards.
pub fn copy_cards(cards: &Vec<Card>) -> (copy: Vec<Card>)
    ensures
        copy@ == cards@,
{
    let mut copy: Vec<Card> = Vec::new();
    let mut i: usize = 0;
    while i < cards.len()
        invariant
            i <= cards@.len(),
            copy@ == cards@.take(i as int),
        decreases cards@.len() - i,
    {
        copy.push(cards[i]);
        proof {
            assert(cards@.take(i + 1) =~= cards@.take(i as int).push(cards@[i as int]));
        }
        i += 1;
    }
    proof {
        assert(cards@.take(i as int) =~= cards@);
    }
    copy
}

impl FiveCardDraw {
    /// Whether the game holds a deck. It takes one when a hand starts.
    pub closed spec fn has_deck(&self) -> bool {
        self.deck is Some
    }

    /// The cards on the board.
    pub closed spec fn on_board(&self) -> Seq<Card> {
        self.board@
    }

    /// The cards in the deck, by their encodings; none where there is no
    /// deck.
    pub closed spec fn in_deck(&self) -> Multiset<Seq<char>> {
        match self.deck {
            Some(deck) => deck_holds(deck),
            None => Multiset::empty(),
        }
    }

    /// The cards on the discard pile, by their encodings.
    pub closed spec fn on_pile(&self) -> Multiset<Seq<char>> {
        match self.deck {
            Some(deck) => pile_holds(deck),
            None => Multiset::empty(),
        }
    }

    /// The number of cards in the deck.
    pub open spec fn cards_left(&self) -> nat {
        self.in_deck().len()
    }

    /// A game before its first hand: without a deck or a discard pile, and
    /// with an empty board.
    pub fn new() -> (game: FiveCardDraw)
        ensures
            !game.has_deck(),
            game.on_board() == Seq::<Card>::empty(),
            game.in_deck() == Multiset::<Seq<char>>::empty(),
            game.on_pile() == Multiset::<Seq<char>>::empty(),
    {
        FiveCardDraw { deck: None, board: Vec::new() }
    }

    /// Whether a hand can be dealt to `count` players.
    pub fn check_player_condition(count: usize) -> (ok: bool)
        ensures
            ok == player_count_ok(count as int),
    {
        count >= MIN_PLAYER_COUNT && count <= MAX_PLAYER_COUNT
    }

    /// Starts a hand: takes a fresh shuffled deck and deals five cards to each
    /// player who is not away.
    ///
    /// Fails, changing nothing, where fewer than two or more than six players
    /// enter. It fails as well where the deck cannot be shuffled, and in no
    /// other way: a deck has cards enough for six hands. The hands come off
    /// one deck, so no card is dealt twice. Whatever happens, nothing but the
    /// cards of the players changes.
    pub fn start_normal(&mut self, players: &mut HashMap<usize, Player>, btn_idx: usize) -> (res:
        Result<(), GameError>)
        ensures
            !player_count_ok(entrants(old(players)@).dom().len() as int) ==> res == Err::<
                (),
                GameError,
            >(GameError::PlayerCount) && final(players)@ == old(players)@,
            player_count_ok(entrants(old(players)@).dom().len() as int) ==> res != Err::<
                (),
                GameError,
            >(GameError::PlayerCount) && res != Err::<(), GameError>(GameError::CardNotHeld),
            res is Ok || res == Err::<(), GameError>(GameError::PlayerCount) || res == Err::<
                (),
                GameError,
            >(GameError::DeckUnavailable),
            only_hands_differ(old(players)@, final(players)@),
            res is Ok ==> forall|k: usize|
                entrants(old(players)@).contains_key(k) ==> (#[trigger] final(players)@[k]).hand@.len()
                    == HAND_SIZE,
            res is Ok ==> final(self).has_deck() && final(self).on_board() == Seq::<Card>::empty(),
            res is Ok ==> final(self).cards_left() == 52 - HAND_SIZE * entrants(
                old(players)@,
            ).dom().len() && final(self).on_pile() == Multiset::<Seq<char>>::empty(),
            res is Ok ==> forall|text: Seq<char>|
                times_held(final(players)@, text) + final(self).in_deck().count(text) <= 1,
            res is Err ==> final(players)@ == old(players)@ && final(self).has_deck() == old(self).has_deck() && final(self).on_board() == old(self).on_board() && final(self).in_deck() == old(self).in_deck() && final(self).on_pile() == old(self).on_pile(),
    {
        let seats = entrant_seats(players);
        if !Self::check_player_condition(seats.len()) {
            return Err(GameError::PlayerCount);
        }
        let mut deck = new_deck().unwrap();
        if !shuffle_deck(&mut deck) {
            return Err(GameError::DeckUnavailable);
        }
        self.board = Vec::new();
        let ghost pack = deck_holds(deck);
        proof {
            assert(pile_holds(deck) =~= Multiset::empty());
            assert forall|text: Seq<char>|
                sum_all(#[trigger] dealt_to(players@, seats@, 0, text)) + deck_holds(deck).count(
                    text,
                ) == pack.count(text) by {
                lemma_sum_below_zero(dealt_to(players@, seats@, 0, text), seat_limit());
            }
        }
        let mut i: usize = 0;
        while i < seats.len()
            invariant
                i <= seats@.len(),
                seats@.to_set() == entrants(old(players)@).dom(),
                player_count_ok(entrants(old(players)@).dom().len() as int),
                seats@.len() <= MAX_PLAYER_COUNT,
                seats@.no_duplicates(),
                seats@.len() == entrants(old(players)@).dom().len(),
                pile_holds(deck) == Multiset::<Seq<char>>::empty(),
                deck_holds(deck).len() == 52 - HAND_SIZE * i,
                forall|text: Seq<char>| pack.count(text) <= 1,
                forall|text: Seq<char>|
                    sum_all(#[trigger] dealt_to(players@, seats@, i as int, text)) + deck_holds(
                        deck,
                    ).count(text) == pack.count(text),
                self.board@ == Seq::<Card>::empty(),
                only_hands_differ(old(players)@, players@),
                forall|j: int|
                    0 <= j < i ==> (#[trigger] players@[seats@[j]]).hand@.len() == HAND_SIZE,
            decreases seats@.len() - i,
        {
            let seat = seats[i];
            proof {
                assert(seats@.to_set().contains(seat));
            }
            let ghost full = deck_holds(deck);
            let texts = deal_texts(&mut deck, HAND_SIZE).unwrap();
            proof {
                lemma_dealt_off(views_of(texts@), deck_holds(deck), full);
            }
            let hand = read_cards(&texts).unwrap();
            let ghost before = players@;
            let ghost rest = deck_holds(deck);
            let ghost dealt = views_of(texts@);
            proof {
                assert(texts_of(hand@) =~= dealt) by {
                    assert forall|j: int| 0 <= j < dealt.len() implies text_of(hand@[j])
                        == #[trigger] dealt[j] by {
                        law_card_text_unique(texts@[j]@);
                    }
                }
            }
            let taken = players.remove(&seat);
            assert(taken is Some);
            let mut player = taken.unwrap();
            player.set_new_hand(hand);
            players.insert(seat, player);
            proof {
                assert(players@.dom() =~= before.dom());
                assert forall|j: int| 0 <= j < i implies (#[trigger] players@[seats@[j]]).hand@.len()
                    == HAND_SIZE by {
                    if seats@[j] != seat {
                        assert(players@[seats@[j]] == before[seats@[j]]);
                    }
                }
                assert(!among_first(seats@, i as int, seat));
                assert forall|p: usize| among_first(seats@, i + 1, p) <==> among_first(
                    seats@,
                    i as int,
                    p,
                ) || p == seat by {}
                assert forall|text: Seq<char>|
                    sum_all(#[trigger] dealt_to(players@, seats@, i + 1, text)) + rest.count(text)
                        == pack.count(text) by {
                    let f = dealt_to(before, seats@, i as int, text);
                    let g = dealt_to(players@, seats@, i + 1, text);
                    assert(sum_all(f) + full.count(text) == pack.count(text));
                    assert(full.count(text) == dealt.to_multiset().count(text) + rest.count(text));
                    lemma_sum_below_update(f, g, seat as int, seat_limit());
                }
            }
            i += 1;
        }
        proof {
            assert forall|k: usize| entrants(old(players)@).contains_key(k) implies (
            #[trigger] players@[k]).hand@.len() == HAND_SIZE by {
                assert(seats@.to_set().contains(k));
                let j = choose|j: int| 0 <= j < seats@.len() && seats@[j] == k;
                assert(players@[seats@[j]].hand@.len() == HAND_SIZE);
            }
            assert(entrants(players@).dom() =~= entrants(old(players)@).dom());
            assert forall|text: Seq<char>|
                times_held(players@, text) + deck_holds(deck).count(text) <= 1 by {
                let f = dealt_to(players@, seats@, i as int, text);
                assert(sum_all(f) + deck_holds(deck).count(text) == pack.count(text));
                assert forall|k: int| 0 <= k < seat_limit() implies #[trigger] f(k) == held_by(
                    players@,
                    text,
                )(k) by {
                    if entrants(players@).contains_key(k as usize) {
                        assert(seats@.to_set().contains(k as usize));
                    }
                    if among_first(seats@, i as int, k as usize) {
                        assert(seats@.to_set().contains(k as usize));
                    }
                }
                lemma_sum_below_agree(f, held_by(players@, text), seat_limit());
            }
        }
        self.deck = Some(deck);
        Ok(())
    }

    /// Exchanges cards: the player gives up `discards` and gets as many cards
    /// from the deck. Where the deck runs out, the discard pile is shuffled
    /// back into it. Returns the new cards.
    ///
    /// Fails where the player does not hold every card it gives up, once for
    /// each time it is listed; where the game has no deck; where deck and pile
    /// together hold fewer cards than are asked for; and where the pile is
    /// needed and cannot be shuffled. With cards enough in the deck the
    /// exchange goes through. A failure leaves the player, the deck and the
    /// pile as they were.
    pub fn draw(&mut self, player: &mut Player, discards: &Vec<Card>) -> (res: Result<
        Vec<Card>,
        GameError,
    >)
        ensures
            res == Err::<Vec<Card>, GameError>(GameError::CardNotHeld) <==> without_all(
                old(player).hand@,
                discards@,
            ) is None,
            without_all(old(player).hand@, discards@) is Some && !old(self).has_deck() ==> res
                == Err::<Vec<Card>, GameError>(GameError::DeckUnavailable),
            without_all(old(player).hand@, discards@) is Some && old(self).has_deck()
                && discards@.len() <= old(self).cards_left() ==> res is Ok,
            without_all(old(player).hand@, discards@) is Some && old(self).has_deck() ==> (res
                == Err::<Vec<Card>, GameError>(GameError::DeckExhausted) <==> discards@.len() > old(self).cards_left() + old(self).on_pile().len()),
            res is Ok || res == Err::<Vec<Card>, GameError>(GameError::CardNotHeld) || res == Err::<
                Vec<Card>,
                GameError,
            >(GameError::DeckUnavailable) || res == Err::<Vec<Card>, GameError>(
                GameError::DeckExhausted,
            ),
            final(self).has_deck() == old(self).has_deck(),
            final(self).on_board() == old(self).on_board(),
            res is Err ==> *final(player) == *old(player) && final(self).in_deck() == old(self).in_deck() && final(self).on_pile() == old(self).on_pile(),
            res matches Ok(drawn) ==> drawn@.len() == discards@.len() && *final(player) == (Player {
                hand: final(player).hand,
                ..*old(player)
            }) && final(player).hand@ == without_all(old(player).hand@, discards@)->0 + drawn@
                && exchanged(
                old(self).in_deck(),
                old(self).on_pile(),
                final(self).in_deck(),
                final(self).on_pile(),
                texts_of(discards@),
                texts_of(drawn@),
            ),
            res is Ok ==> texts_of(final(player).hand@).to_multiset().add(
                final(self).in_deck(),
            ).add(final(self).on_pile()) == texts_of(old(player).hand@).to_multiset().add(
                old(self).in_deck(),
            ).add(old(self).on_pile()),
            res is Ok && discards@.len() <= old(self).cards_left() ==> final(self).cards_left()
                == old(self).cards_left() - discards@.len() && final(self).on_pile().len() == old(
                self,
            ).on_pile().len() + discards@.len(),
    {
        let ghost deck_before = self.in_deck();
        let mut kept: Vec<Card> = copy_cards(&player.hand);
        assert(discards@.skip(0) =~= discards@);
        let mut i: usize = 0;
        while i < discards.len()
            invariant
                i <= discards@.len(),
                without_all(kept@, discards@.skip(i as int)) == without_all(
                    old(player).hand@,
                    discards@,
                ),
                *player == *old(player),
            decreases discards@.len() - i,
        {
            let card = discards[i];
            let ghost rest = discards@.skip(i as int);
            let mut j: usize = 0;
            while j < kept.len() && !(kept[j] == card)
                invariant
                    j <= kept@.len(),
                    forall|k: int| 0 <= k < j ==> kept@[k] != card,
                decreases kept@.len() - j,
            {
                j += 1;
            }
            proof {
                lemma_first_place(kept@, card);
                assert(rest[0] == card);
                assert(rest.drop_first() =~= discards@.skip(i + 1));
                assert(first_place(kept@, card) == j) by {
                    if first_place(kept@, card) < j {
                        assert(kept@[first_place(kept@, card)] != card);
                    }
                }
            }
            if j == kept.len() {
                return Err(GameError::CardNotHeld);
            }
            kept.remove(j);
            i += 1;
        }
        proof {
            assert(discards@.skip(i as int) =~= Seq::<Card>::empty());
        }
        let thrown = card_texts(discards);
        let ghost pile = self.on_pile();
        let deck = match &mut self.deck {
            Some(deck) => deck,
            None => {
                return Err(GameError::DeckUnavailable);
            },
        };
        let texts = match deal_texts(deck, discards.len()) {
            Some(texts) => texts,
            None => {
                if !can_deal_with_pile(deck, discards.len()) {
                    return Err(GameError::DeckExhausted);
                }
                if !reshuffle_discards(deck) {
                    return Err(GameError::DeckUnavailable);
                }
                proof {
                    assert(pile_holds(*deck) =~= Multiset::empty());
                }
                deal_texts(deck, discards.len()).unwrap()
            },
        };
        muck_texts(deck, &thrown);
        let drawn = read_cards(&texts).unwrap();
        proof {
            assert(texts_of(drawn@) =~= views_of(texts@)) by {
                assert forall|j: int| 0 <= j < texts@.len() implies text_of(drawn@[j])
                    == #[trigger] views_of(texts@)[j] by {
                    law_card_text_unique(texts@[j]@);
                }
            }
            assert(Multiset::<Seq<char>>::empty().add(views_of(thrown@).to_multiset())
                =~= views_of(thrown@).to_multiset());
        }
        let mut i: usize = 0;
        let ghost held = kept@;
        while i < drawn.len()
            invariant
                i <= drawn@.len(),
                kept@ == held + drawn@.take(i as int),
            decreases drawn@.len() - i,
        {
            kept.push(drawn[i]);
            proof {
                assert(drawn@.take(i + 1) =~= drawn@.take(i as int).push(drawn@[i as int]));
                assert(kept@ =~= held + drawn@.take(i + 1));
            }
            i += 1;
        }
        proof {
            assert(drawn@.take(i as int) =~= drawn@);
        }
        player.set_new_hand(kept);
        proof {
            broadcast use vstd::multiset::group_multiset_axioms;

            lemma_kept_and_given(old(player).hand@, discards@);
            assert(texts_of(held + drawn@) =~= texts_of(held) + texts_of(drawn@));
            vstd::seq_lib::lemma_multiset_commutative(texts_of(held), texts_of(drawn@));
            law_exchange_keeps_the_cards(
                deck_before,
                pile,
                self.in_deck(),
                self.on_pile(),
                texts_of(discards@),
                texts_of(drawn@),
            );
            let mine = texts_of(held).to_multiset();
            let given = texts_of(discards@).to_multiset();
            let got = texts_of(drawn@).to_multiset();
            assert(held == without_all(old(player).hand@, discards@)->0);
            assert(player.hand@ == held + drawn@);
            assert(texts_of(player.hand@).to_multiset() == mine.add(got));
            assert(mine.add(given) == texts_of(old(player).hand@).to_multiset());
            assert(got.add(self.in_deck()).add(self.on_pile()) == given.add(deck_before).add(pile));
            assert forall|x: Seq<char>| #[trigger]
                mine.add(got).add(self.in_deck()).add(self.on_pile()).count(x) == mine.add(
                    given,
                ).add(deck_before).add(pile).count(x) by {
                assert(got.add(self.in_deck()).add(self.on_pile()).count(x) == given.add(
                    deck_before,
                ).add(pile).count(x));
            }
            assert(texts_of(player.hand@).to_multiset().add(self.in_deck()).add(self.on_pile())
                =~= texts_of(old(player).hand@).to_multiset().add(deck_before).add(pile));
            law_exchange_counts(
                deck_before,
                pile,
                self.in_deck(),
                self.on_pile(),
                texts_of(discards@),
                texts_of(drawn@),
            );
        }
        Ok(drawn)
    }

    /// The strength of the best high hand among `cards`, as the evaluator
    /// gives it, or nothing where it gives none. A greater strength is a
    /// better hand.
    pub fn rank_hand(cards: &Vec<Card>) -> (rank: Option<u64>)
        ensures
            rank == match high_hand_strength(texts_of(cards@)) {
                Some(strength) => Some(strength as u64),
                None => None,
            },
    {
        let texts = card_texts(cards);
        match high_strength(&texts) {
            Some(strength) => Some(strength as u64),
            None => None,
        }
    }

    /// The strengths of the hands that are still in play, by seat. A seat
    /// whose cards make no hand gets none.
    pub fn rank_showdown(&self, players: &HashMap<usize, Player>) -> (ranks: HashMap<usize, u64>)
        ensures
            ranks@ == showdown_ranks(players@),
    {
        let keys = seat_keys(players);
        let mut ranks: HashMap<usize, u64> = HashMap::new();
        let mut i: usize = 0;
        while i < keys.len()
            invariant
                i <= keys@.len(),
                keys@.to_set() == players@.dom(),
                forall|k: usize| #[trigger]
                    ranks@.contains_key(k) <==> among_first(keys@, i as int, k)
                        && showdown_ranks(players@).contains_key(k),
                forall|k: usize|
                    ranks@.contains_key(k) ==> #[trigger] ranks@[k] == showdown_ranks(players@)[k],
            decreases keys@.len() - i,
        {
            let seat = keys[i];
            proof {
                assert(keys@.to_set().contains(seat));
                assert forall|p: usize| among_first(keys@, i + 1, p) <==> among_first(
                    keys@,
                    i as int,
                    p,
                ) || p == seat by {}
            }
            let player = players.get(&seat);
            assert(player is Some);
            let player = player.unwrap();
            if player.is_in_hand {
                match Self::rank_hand(&player.hand) {
                    Some(rank) => {
                        ranks.insert(seat, rank);
                    },
                    None => {},
                }
            }
            i += 1;
        }
        proof {
            assert forall|k: usize| ranks@.contains_key(k) <==> showdown_ranks(
                players@,
            ).contains_key(k) by {
                if showdown_ranks(players@).contains_key(k) {
                    assert(keys@.to_set().contains(k));
                }
            }
            assert(ranks@ =~= showdown_ranks(players@));
        }
        ranks
    }
}

} // verus!
