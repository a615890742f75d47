//! Why a pot operation was refused.

use vstd::prelude::*;
use vstd::string::*;

verus! {

/// The reason a pot operation left the pot unchanged.
#[derive(Debug, Clone, Copy, PartialEq, Eq, Structural)]
pub enum PotError {
    /// A bomb pot was asked for with an ante of zero.
    BombPotWithoutAnte,
    /// One of the blinds is zero.
    ZeroBlind,
    /// The small blind is larger than the big blind.
    SmallBlindAboveBigBlind,
    /// A player who is to enter the hand is filed under a seat that is not
    /// the position it holds.
    MisplacedPlayer,
    /// The entrants hold more chips together than a chip count can express.
    TooManyChips,
    /// Blinds are to be posted and nobody has entered the hand.
    NoEntrants,
    /// A blind was to be posted at a seat that holds no entrant.
    InvalidBlindPositions,
    /// No entrant sits at the position.
    UnknownSeat { position: usize },
    /// The seat has already acted on the latest legal raise and may only
    /// call or fold.
    CappedAction,
    /// The bet is under the minimum raise, which the seat's stack cannot
    /// exceed: the only raise open to it is all of its chips.
    MustShove { bet: u64 },
    /// The bet is under the minimum raise.
    BetTooSmall { bet: u64, min_raise: u64 },
}

/// The character that stands for a digit.
pub open spec fn digit_char(d: int) -> char {
    if d == 0 {
        '0'
    } else if d == 1 {
        '1'
    } else if d == 2 {
        '2'
    } else if d == 3 {
        '3'
    } else if d == 4 {
        '4'
    } else if d == 5 {
        '5'
    } else if d == 6 {
        '6'
    } else if d == 7 {
        '7'
    } else if d == 8 {
        '8'
    } else {
        '9'
    }
}

/// A number written in decimal digits.
pub open spec fn decimal(n: nat) -> Seq<char>
    decreases n,
{
    if n < 10 {
        seq![digit_char(n as int)]
    } else {
        decimal(n / 10).push(digit_char((n % 10) as int))
    }
}

/// What an error says, in words.
pub open spec fn error_text(e: PotError) -> Seq<char> {
    match e {
        PotError::BombPotWithoutAnte => "Ante must be non-zero for bomb pots"@,
        PotError::ZeroBlind => "Blinds must be a positive non-zero amount"@,
        PotError::SmallBlindAboveBigBlind => "Small blind cannot be larger than the big blind"@,
        PotError::MisplacedPlayer => "A player is not at the seat it is filed under"@,
        PotError::TooManyChips => "Stacks hold more chips than can be counted"@,
        PotError::NoEntrants => "No player has entered the hand"@,
        PotError::InvalidBlindPositions => "Positions are not valid positions"@,
        PotError::UnknownSeat { position } => "Could not find player stack in position "@
            + decimal(position as nat),
        PotError::CappedAction => "You already called the latest legal bet, so you are no longer allowed to raise"@,
        PotError::MustShove { bet } => "Bet of "@ + decimal(bet as nat)
            + " is too small (must shove)"@,
        PotError::BetTooSmall { bet, min_raise } => "Bet of "@ + decimal(bet as nat)
            + " is too small (must be at least "@ + decimal(min_raise as nat) + ")"@,
    }
}

/// The text of one digit.
fn digit_text(d: u64) -> (text: &'static str)
    requires
        d < 10,
    ensures
        text@ == seq![digit_char(d as int)],
{
    proof {
        reveal_strlit("0");
        reveal_strlit("1");
        reveal_strlit("2");
        reveal_strlit("3");
        reveal_strlit("4");
        reveal_strlit("5");
        reveal_strlit("6");
        reveal_strlit("7");
        reveal_strlit("8");
        reveal_strlit("9");
    }
    let text = if d == 0 {
        "0"
    } else if d == 1 {
        "1"
    } else if d == 2 {
        "2"
    } else if d == 3 {
        "3"
    } else if d == 4 {
        "4"
    } else if d == 5 {
        "5"
    } else if d == 6 {
        "6"
    } else if d == 7 {
        "7"
    } else if d == 8 {
        "8"
    } else {
        "9"
    };
    assert(text@ =~= seq![digit_char(d as int)]);
    text
}

/// Appends a number in decimal digits.
fn push_decimal(text: &mut String, n: u64)
    ensures
        final(text)@ == old(text)@ + decimal(n as nat),
    decreases n,
{
    if n >= 10 {
        push_decimal(text, n / 10);
    }
    text.append(digit_text(n % 10));
    proof {
        if n >= 10 {
            assert(final(text)@ =~= old(text)@ + decimal(n as nat));
        } else {
            assert(final(text)@ =~= old(text)@ + decimal(n as nat));
        }
    }
}

impl PotError {
    /// What the error says, in words.
    pub fn message(&self) -> (text: String)
        ensures
            text@ == error_text(*self),
    {
        match self {
            PotError::BombPotWithoutAnte => String::from_str("Ante must be non-zero for bomb pots"),
            PotError::ZeroBlind => String::from_str("Blinds must be a positive non-zero amount"),
            PotError::SmallBlindAboveBigBlind => String::from_str(
                "Small blind cannot be larger than the big blind",
            ),
            PotError::MisplacedPlayer => String::from_str(
                "A player is not at the seat it is filed under",
            ),
            PotError::TooManyChips => String::from_str("Stacks hold more chips than can be counted"),
            PotError::NoEntrants => String::from_str("No player has entered the hand"),
            PotError::InvalidBlindPositions => String::from_str("Positions are not valid positions"),
            PotError::UnknownSeat { position } => {
                let mut text = String::from_str("Could not find player stack in position ");
                push_decimal(&mut text, *position as u64);
                text
            },
            PotError::CappedAction => String::from_str(
                "You already called the latest legal bet, so you are no longer allowed to raise",
            ),
            PotError::MustShove { bet } => {
                let mut text = String::from_str("Bet of ");
                push_decimal(&mut text, *bet);
                text.append(" is too small (must shove)");
                text
            },
            PotError::BetTooSmall { bet, min_raise } => {
                let mut text = String::from_str("Bet of ");
                push_decimal(&mut text, *bet);
                text.append(" is too small (must be at least ");
                push_decimal(&mut text, *min_raise);
                text.append(")");
                text
            },
        }
    }
}

} // verus!
