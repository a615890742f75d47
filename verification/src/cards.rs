//! Playing cards and their two-character encoding.

use vstd::prelude::*;
use vstd::string::*;

verus! {

/// The rank of a card, from the deuce up to the ace.
#[derive(Debug, Clone, Copy, PartialEq, Eq, Hash, Structural)]
pub enum Rank {
    Two,
    Three,
    Four,
    Five,
    Six,
    Seven,
    Eight,
    Nine,
    Ten,
    Jack,
    Queen,
    King,
    Ace,
}

/// The suit of a card.
#[derive(Debug, Clone, Copy, PartialEq, Eq, Hash, Structural)]
pub enum Suit {
    Spade,
    Heart,
    Diamond,
    Club,
}

/// A playing card.
#[derive(Debug, Clone, Copy, PartialEq, Eq, Hash, Structural)]
pub struct Card {
    pub rank: Rank,
    pub suit: Suit,
}

/// The rank that a character stands for: `2` to `9`, `T`, `J`, `Q`, `K`, `A`.
pub open spec fn rank_of(c: char) -> Option<Rank> {
    if c == '2' {
        Some(Rank::Two)
    } else if c == '3' {
        Some(Rank::Three)
    } else if c == '4' {
        Some(Rank::Four)
    } else if c == '5' {
        Some(Rank::Five)
    } else if c == '6' {
        Some(Rank::Six)
    } else if c == '7' {
        Some(Rank::Seven)
    } else if c == '8' {
        Some(Rank::Eight)
    } else if c == '9' {
        Some(Rank::Nine)
    } else if c == 'T' {
        Some(Rank::Ten)
    } else if c == 'J' {
        Some(Rank::Jack)
    } else if c == 'Q' {
        Some(Rank::Queen)
    } else if c == 'K' {
        Some(Rank::King)
    } else if c == 'A' {
        Some(Rank::Ace)
    } else {
        None
    }
}

/// The suit that a character stands for: `s`, `h`, `d`, `c`.
pub open spec fn suit_of(c: char) -> Option<Suit> {
    if c == 's' {
        Some(Suit::Spade)
    } else if c == 'h' {
        Some(Suit::Heart)
    } else if c == 'd' {
        Some(Suit::Diamond)
    } else if c == 'c' {
        Some(Suit::Club)
    } else {
        None
    }
}

/// The card that a text stands for: exactly two characters, the rank first.
pub open spec fn card_of(text: Seq<char>) -> Option<Card> {
    if text.len() == 2 && rank_of(text[0]) is Some && suit_of(text[1]) is Some {
        Some(Card { rank: rank_of(text[0])->0, suit: suit_of(text[1])->0 })
    } else {
        None
    }
}

impl Rank {
    /// The rank that `c` stands for.
    pub fn from_char(c: char) -> (rank: Option<Rank>)
        ensures
            rank == rank_of(c),
    {
        if c == '2' {
            Some(Rank::Two)
        } else if c == '3' {
            Some(Rank::Three)
        } else if c == '4' {
            Some(Rank::Four)
        } else if c == '5' {
            Some(Rank::Five)
        } else if c == '6' {
            Some(Rank::Six)
        } else if c == '7' {
            Some(Rank::Seven)
        } else if c == '8' {
            Some(Rank::Eight)
        } else if c == '9' {
            Some(Rank::Nine)
        } else if c == 'T' {
            Some(Rank::Ten)
        } else if c == 'J' {
            Some(Rank::Jack)
        } else if c == 'Q' {
            Some(Rank::Queen)
        } else if c == 'K' {
            Some(Rank::King)
        } else if c == 'A' {
            Some(Rank::Ace)
        } else {
            None
        }
    }

    /// The character that stands for the rank.
    pub fn get_char(&self) -> (c: char)
        ensures
            rank_of(c) == Some(*self),
    {
        match self {
            Rank::Two => '2',
            Rank::Three => '3',
            Rank::Four => '4',
            Rank::Five => '5',
            Rank::Six => '6',
            Rank::Seven => '7',
            Rank::Eight => '8',
            Rank::Nine => '9',
            Rank::Ten => 'T',
            Rank::Jack => 'J',
            Rank::Queen => 'Q',
            Rank::King => 'K',
            Rank::Ace => 'A',
        }
    }
}

impl Suit {
    /// The suit that `c` stands for.
    pub fn from_char(c: char) -> (suit: Option<Suit>)
        ensures
            suit == suit_of(c),
    {
        if c == 's' {
            Some(Suit::Spade)
        } else if c == 'h' {
            Some(Suit::Heart)
        } else if c == 'd' {
            Some(Suit::Diamond)
        } else if c == 'c' {
            Some(Suit::Club)
        } else {
            None
        }
    }

    /// The character that stands for the suit.
    pub fn get_char(&self) -> (c: char)
        ensures
            suit_of(c) == Some(*self),
    {
        match self {
            Suit::Spade => 's',
            Suit::Heart => 'h',
            Suit::Diamond => 'd',
            Suit::Club => 'c',
        }
    }
}

/// The character that stands for a rank.
pub open spec fn rank_char(rank: Rank) -> char {
    match rank {
        Rank::Two => '2',
        Rank::Three => '3',
        Rank::Four => '4',
        Rank::Five => '5',
        Rank::Six => '6',
        Rank::Seven => '7',
        Rank::Eight => '8',
        Rank::Nine => '9',
        Rank::Ten => 'T',
        Rank::Jack => 'J',
        Rank::Queen => 'Q',
        Rank::King => 'K',
        Rank::Ace => 'A',
    }
}

/// The character that stands for a suit.
pub open spec fn suit_char(suit: Suit) -> char {
    match suit {
        Suit::Spade => 's',
        Suit::Heart => 'h',
        Suit::Diamond => 'd',
        Suit::Club => 'c',
    }
}

/// The two-character encoding of a card.
pub open spec fn text_of(card: Card) -> Seq<char> {
    seq![rank_char(card.rank), suit_char(card.suit)]
}

/// The encodings of a list of cards.
pub open spec fn texts_of(cards: Seq<Card>) -> Seq<Seq<char>> {
    Seq::new(cards.len(), |i: int| text_of(cards[i]))
}

/// Reading the encoding of a card gives the card back.
pub proof fn law_card_round_trip(card: Card)
    ensures
        card_of(text_of(card)) == Some(card),
{
}

/// A text that reads as a card is the encoding of that card.
pub proof fn law_card_text_unique(text: Seq<char>)
    requires
        card_of(text) is Some,
    ensures
        text == text_of(card_of(text)->0),
{
    assert(text =~= text_of(card_of(text)->0));
}

impl Rank {
    /// The text of the character that stands for the rank.
    pub fn text(&self) -> (text: &'static str)
        ensures
            text@ == seq![rank_char(*self)],
    {
        proof {
            reveal_strlit("2");
            reveal_strlit("3");
            reveal_strlit("4");
            reveal_strlit("5");
            reveal_strlit("6");
            reveal_strlit("7");
            reveal_strlit("8");
            reveal_strlit("9");
            reveal_strlit("T");
            reveal_strlit("J");
            reveal_strlit("Q");
            reveal_strlit("K");
            reveal_strlit("A");
        }
        let text = match self {
            Rank::Two => "2",
            Rank::Three => "3",
            Rank::Four => "4",
            Rank::Five => "5",
            Rank::Six => "6",
            Rank::Seven => "7",
            Rank::Eight => "8",
            Rank::Nine => "9",
            Rank::Ten => "T",
            Rank::Jack => "J",
            Rank::Queen => "Q",
            Rank::King => "K",
            Rank::Ace => "A",
        };
        assert(text@ =~= seq![rank_char(*self)]);
        text
    }
}

impl Suit {
    /// The text of the character that stands for the suit.
    pub fn text(&self) -> (text: &'static str)
        ensures
            text@ == seq![suit_char(*self)],
    {
        proof {
            reveal_strlit("s");
            reveal_strlit("h");
            reveal_strlit("d");
            reveal_strlit("c");
        }
        let text = match self {
            Suit::Spade => "s",
            Suit::Heart => "h",
            Suit::Diamond => "d",
            Suit::Club => "c",
        };
        assert(text@ =~= seq![suit_char(*self)]);
        text
    }
}

impl Card {
    /// The two-character encoding of the card.
    pub fn to_text(&self) -> (text: String)
        ensures
            text@ == text_of(*self),
    {
        let mut text = String::from_str(self.rank.text());
        text.append(self.suit.text());
        assert(text@ =~= text_of(*self));
        text
    }

    /// Reads a card from its two-character encoding.
    pub fn from_text(text: &str) -> (card: Option<Card>)
        ensures
            card == card_of(text@),
    {
        let mut chars = text.chars();
        let first = chars.next();
        let second = chars.next();
        let third = chars.next();
        match (first, second, third) {
            (Some(a), Some(b), None) => {
                match (Rank::from_char(a), Suit::from_char(b)) {
                    (Some(rank), Some(suit)) => Some(Card { rank, suit }),
                    _ => None,
                }
            },
            _ => None,
        }
    }
}

} // verus!
