//! Requests as a table takes them, and responses by audience.

use crate::action::SessionId;
use crate::game_actions::requests::BetAction;
use crate::game_actions::requests::DrawAction;
use crate::game_actions::responses::GameState;
use crate::game_actions::responses::PersonalBetRaiseResponse;
use crate::game_actions::responses::PersonalCheckCallResponse;
use crate::game_actions::responses::PersonalDrawResponse;
use crate::game_actions::responses::PersonalFoldResponse;
use crate::game_actions::responses::PublicBetRaiseResponse;
use crate::game_actions::responses::PublicCheckCallResponse;
use crate::game_actions::responses::PublicDrawResponse;
use crate::game_actions::responses::PublicFoldResponse;
use crate::game_actions::responses::StartingHandResponse;
use vstd::prelude::*;

verus! {

/// A move in the hand, with the session that makes it.
#[derive(Debug, PartialEq)]
pub enum GameAction {
    Pot(SessionId, PotAction),
    Draw(SessionId, DrawAction),
}

/// A move that concerns the pot.
#[derive(Debug, Clone, Copy, PartialEq, Eq, Structural)]
pub enum PotAction {
    Fold,
    CheckCall,
    BetRaise(BetAction),
}

/// A response and whom it is for.
#[derive(Debug, PartialEq)]
pub enum GameResponse {
    /// For every session.
    Broadcast(Broadcast),
    /// For every session but the one named.
    Multicast(SessionId, Multicast),
    /// For the session named.
    SingleResponse(SessionId, SingleResponse),
}

/// A response for everybody.
#[derive(Debug, PartialEq)]
pub enum Broadcast {
    State(GameState),
}

/// A response for the sessions that did not act. It holds only what all may
/// know.
#[derive(Debug, Clone, Copy, PartialEq, Eq, Structural)]
pub enum Multicast {
    DrawResponse(PublicDrawResponse),
    BetRaiseResponse(PublicBetRaiseResponse),
    CheckCallResponse(PublicCheckCallResponse),
    FoldResponse(PublicFoldResponse),
}

/// A response for the session that acted.
#[derive(Debug, PartialEq)]
pub enum SingleResponse {
    State(GameState),
    DrawResponse(PersonalDrawResponse),
    BetRaiseResponse(PersonalBetRaiseResponse),
    CheckCallResponse(PersonalCheckCallResponse),
    FoldResponse(PersonalFoldResponse),
    StartingHandResponse(StartingHandResponse),
}

} // verus!
