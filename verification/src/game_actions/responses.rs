//! What a table tells the players about a request.

use crate::action::SessionId;
use crate::cards::Card;
use crate::pots::error::PotError;
use crate::pots::error::error_text;
use vstd::prelude::*;

verus! {

/// How a request fared.
#[derive(Debug, Clone, Copy, PartialEq, Eq, Structural)]
pub enum StatusCode {
    OK,
    NotYourTurn,
    InvalidBet,
    Paused,
    CappedAction,
}

/// The number that stands for a status on the wire.
pub open spec fn status_code_of(status: StatusCode) -> u8 {
    match status {
        StatusCode::OK => 0,
        StatusCode::NotYourTurn => 1,
        StatusCode::InvalidBet => 2,
        StatusCode::Paused => 3,
        StatusCode::CappedAction => 4,
    }
}

impl StatusCode {
    /// The number that stands for this status on the wire.
    pub fn code(&self) -> (code: u8)
        ensures
            code == status_code_of(*self),
    {
        match self {
            StatusCode::OK => 0,
            StatusCode::NotYourTurn => 1,
            StatusCode::InvalidBet => 2,
            StatusCode::Paused => 3,
            StatusCode::CappedAction => 4,
        }
    }
}

/// Told to the other seats: a seat has bet.
#[derive(Debug, Clone, Copy, PartialEq, Eq, Structural)]
pub struct PublicBetRaiseResponse {
    pub position: usize,
    pub bet_amount: u64,
}

/// Told to the seat that bet: how the bet fared, the chips committed or, for
/// a bet that was too small, the least bet that would be taken, and the pot's
/// reason where it refused.
#[derive(Debug, Clone, Copy, PartialEq, Eq, Structural)]
pub struct PersonalBetRaiseResponse {
    pub msg_id: SessionId,
    pub status: StatusCode,
    pub bet_amount: u64,
    pub error: Option<PotError>,
}

impl PersonalBetRaiseResponse {
    /// The words for the player on why the bet was refused, if the pot
    /// refused it.
    pub fn error_text(&self) -> (text: Option<String>)
        ensures
            match text {
                Some(words) => self.error is Some && words@ == error_text(self.error->0),
                None => self.error is None,
            },
    {
        match self.error {
            Some(e) => Some(e.message()),
            None => None,
        }
    }
}

/// Told to the other seats: a seat has checked or called.
#[derive(Debug, Clone, Copy, PartialEq, Eq, Structural)]
pub struct PublicCheckCallResponse {
    pub position: usize,
}

/// Told to the seat that checked or called.
#[derive(Debug, Clone, Copy, PartialEq, Eq, Structural)]
pub struct PersonalCheckCallResponse {
    pub req_id: SessionId,
    pub status: StatusCode,
}

/// Told to the other seats: a seat has exchanged cards.
#[derive(Debug, Clone, Copy, PartialEq, Eq, Structural)]
pub struct PublicDrawResponse {
    pub position: usize,
    pub discard_count: usize,
    pub cards_recieved: usize,
}

/// Told to the seat that exchanged cards: the cards it got.
#[derive(Debug, PartialEq)]
pub struct PersonalDrawResponse {
    pub req_id: SessionId,
    pub status: StatusCode,
    pub new_cards: Vec<Card>,
}

/// Told to the other seats: a seat has folded.
#[derive(Debug, Clone, Copy, PartialEq, Eq, Structural)]
pub struct PublicFoldResponse {
    pub position: usize,
}

/// Told to the seat that folded.
#[derive(Debug, Clone, Copy, PartialEq, Eq, Structural)]
pub struct PersonalFoldResponse {
    pub req_id: SessionId,
    pub status: StatusCode,
}

/// Told to a seat at the start of a hand: its cards.
#[derive(Debug, PartialEq)]
pub struct StartingHandResponse {
    pub hand: Vec<Card>,
}

/// A snapshot of a table for its players.
#[derive(Debug, PartialEq)]
pub struct GameState {
    pub action_idx: usize,
    pub btn_idx: usize,
    pub big_blind_idx: usize,
    pub is_paused: bool,
    pub largest_bet: u64,
    pub pot_amounts: Vec<u64>,
    pub stacks_bets: Vec<(usize, u64, u64)>,
}

} // verus!
