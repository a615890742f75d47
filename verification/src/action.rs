//! The kinds of request a session can send, and the reply to one.

use crate::game_actions::game_action::GameAction;
use crate::game_actions::game_action::PotAction;
use crate::game_actions::requests::BetAction;
use crate::game_actions::requests::DrawAction;
use crate::game_actions::requests::RequestError;
use crate::game_actions::requests::bet_of;
use crate::game_actions::requests::discards_of;
use crate::json::Json;
use crate::json::find_member;
use crate::json::find_member_index;
use crate::json::member;
use crate::json::parse_json;
use crate::json::parsed_json;
use vstd::prelude::*;
use vstd::string::*;

verus! {

/// The identifier of a session, as the router knows it.
#[derive(Debug, Clone, Copy, PartialEq, Eq, Hash, Structural)]
pub struct SessionId {
    pub id: u128,
}

/// What a request asks for.
#[derive(Debug, Clone, Copy, PartialEq, Eq, Structural)]
pub enum ActionType {
    CheckCall,
    BetRaise,
    Fold,
    Draw,
    StartGame,
    StopGame,
    PauseGame,
    ResumeGame,
}

/// The kind of request that a number on the wire stands for. Five stands for
/// none.
pub open spec fn action_of_code(code: u64) -> Option<ActionType> {
    if code == 0 {
        Some(ActionType::CheckCall)
    } else if code == 1 {
        Some(ActionType::BetRaise)
    } else if code == 2 {
        Some(ActionType::Fold)
    } else if code == 3 {
        Some(ActionType::Draw)
    } else if code == 4 {
        Some(ActionType::StartGame)
    } else if code == 6 {
        Some(ActionType::StopGame)
    } else if code == 7 {
        Some(ActionType::PauseGame)
    } else if code == 8 {
        Some(ActionType::ResumeGame)
    } else {
        None
    }
}

impl ActionType {
    /// The kind of request that `code` stands for.
    pub fn from_code(code: u64) -> (kind: Option<ActionType>)
        ensures
            kind == action_of_code(code),
    {
        if code == 0 {
            Some(ActionType::CheckCall)
        } else if code == 1 {
            Some(ActionType::BetRaise)
        } else if code == 2 {
            Some(ActionType::Fold)
        } else if code == 3 {
            Some(ActionType::Draw)
        } else if code == 4 {
            Some(ActionType::StartGame)
        } else if code == 6 {
            Some(ActionType::StopGame)
        } else if code == 7 {
            Some(ActionType::PauseGame)
        } else if code == 8 {
            Some(ActionType::ResumeGame)
        } else {
            None
        }
    }

    /// The number that stands for this kind of request on the wire.
    pub fn code(&self) -> (code: u8)
        ensures
            action_of_code(code as u64) == Some(*self),
    {
        match self {
            ActionType::CheckCall => 0,
            ActionType::BetRaise => 1,
            ActionType::Fold => 2,
            ActionType::Draw => 3,
            ActionType::StartGame => 4,
            ActionType::StopGame => 6,
            ActionType::PauseGame => 7,
            ActionType::ResumeGame => 8,
        }
    }

    /// Whether the request is a move in the hand, as opposed to an instruction
    /// to the table.
    pub open spec fn is_game_action_spec(&self) -> bool {
        *self is CheckCall || *self is BetRaise || *self is Fold || *self is Draw
    }

    /// Whether the request is a move in the hand, as opposed to an instruction
    /// to the table.
    #[verifier::when_used_as_spec(is_game_action_spec)]
    pub fn is_game_action(&self) -> (game: bool)
        ensures
            game == self.is_game_action_spec(),
    {
        match self {
            ActionType::CheckCall | ActionType::BetRaise | ActionType::Fold | ActionType::Draw => true,
            _ => false,
        }
    }
}

/// A reply in text form.
#[derive(Debug, PartialEq)]
pub struct ActionResponse(pub String);

/// A request as a session sends it, with the session's identifier.
#[derive(Debug, PartialEq)]
pub struct ActionRequest {
    pub id: SessionId,
    pub action_type: ActionType,
    pub data: Vec<(String, Json)>,
}

/// A request that could not be read: why, and the words for the session.
#[derive(Debug, PartialEq)]
pub struct ParseFailure {
    pub kind: RequestError,
    pub detail: String,
}

/// What a JSON value asks for: it must be an object whose `actionType` is the
/// number of a kind of request and whose `data` is an object.
pub open spec fn request_of(json: Json) -> Result<(ActionType, Seq<(String, Json)>), RequestError> {
    match json {
        Json::Object(fields) => match member(fields@, "actionType"@) {
            Some(Json::Number(Some(code))) => match action_of_code(code) {
                Some(kind) => match member(fields@, "data"@) {
                    Some(Json::Object(data)) => Ok((kind, data@)),
                    Some(_) => Err(RequestError::DataNotAnObject),
                    None => Err(RequestError::MissingData),
                },
                None => Err(RequestError::UnknownActionType),
            },
            Some(_) => Err(RequestError::ActionTypeNotANumber),
            None => Err(RequestError::MissingActionType),
        },
        _ => Err(RequestError::NotAnObject),
    }
}

/// Reads a request from a JSON value.
pub fn read_request(id: SessionId, json: Json) -> (res: Result<ActionRequest, RequestError>)
    ensures
        match res {
            Ok(request) => request.id == id && request_of(json) == Ok::<
                (ActionType, Seq<(String, Json)>),
                RequestError,
            >((request.action_type, request.data@)),
            Err(e) => request_of(json) == Err::<(ActionType, Seq<(String, Json)>), RequestError>(e),
        },
{
    let mut fields = match json {
        Json::Object(fields) => fields,
        _ => {
            return Err(RequestError::NotAnObject);
        },
    };
    let action_type = match find_member(&fields, "actionType") {
        Some(Json::Number(Some(code))) => match ActionType::from_code(*code) {
            Some(kind) => kind,
            None => {
                return Err(RequestError::UnknownActionType);
            },
        },
        Some(_) => {
            return Err(RequestError::ActionTypeNotANumber);
        },
        None => {
            return Err(RequestError::MissingActionType);
        },
    };
    let at = match find_member_index(&fields, "data") {
        Some(at) => at,
        None => {
            return Err(RequestError::MissingData);
        },
    };
    let entry = fields.remove(at);
    match entry.1 {
        Json::Object(data) => Ok(ActionRequest { id, action_type, data }),
        _ => Err(RequestError::DataNotAnObject),
    }
}

/// Reads a request from the text of a frame.
pub fn decode_request(id: SessionId, text: &str) -> (res: Result<ActionRequest, ParseFailure>)
    ensures
        match parsed_json(text@) {
            Err(detail) => res == Err::<ActionRequest, ParseFailure>(
                ParseFailure { kind: RequestError::Malformed, detail },
            ),
            Ok(json) => match res {
                Ok(request) => request.id == id && request_of(json) == Ok::<
                    (ActionType, Seq<(String, Json)>),
                    RequestError,
                >((request.action_type, request.data@)),
                Err(failure) => request_of(json) == Err::<
                    (ActionType, Seq<(String, Json)>),
                    RequestError,
                >(failure.kind) && failure.detail@ == crate::game_actions::requests::request_error_text(
                    failure.kind,
                ),
            },
        },
{
    match parse_json(text) {
        Err(detail) => Err(ParseFailure { kind: RequestError::Malformed, detail }),
        Ok(json) => match read_request(id, json) {
            Ok(request) => Ok(request),
            Err(kind) => Err(ParseFailure { kind, detail: String::from_str(kind.message()) }),
        },
    }
}

/// What becomes of a request.
#[derive(Debug, PartialEq)]
pub enum Routed {
    /// A move for the hand in play.
    Forward(GameAction),
    /// An instruction to the table.
    Control(ActionType),
    /// A move whose data could not be read.
    Invalid(RequestError),
    /// A move while no hand is played.
    Dropped,
}

/// Decides what becomes of a request. While hands are being played a move
/// goes to the hand, if its data can be read; an instruction goes to the
/// table at any time; a move while no hands are played is dropped.
pub fn route(request: &ActionRequest, game_running: bool) -> (routed: Routed)
    ensures
        !request.action_type.is_game_action_spec() ==> routed == Routed::Control(
            request.action_type,
        ),
        request.action_type.is_game_action_spec() && !game_running ==> routed == Routed::Dropped,
        game_running && request.action_type is CheckCall ==> routed == Routed::Forward(
            GameAction::Pot(request.id, PotAction::CheckCall),
        ),
        game_running && request.action_type is Fold ==> routed == Routed::Forward(
            GameAction::Pot(request.id, PotAction::Fold),
        ),
        game_running && request.action_type is BetRaise ==> match bet_of(request.data@) {
            Ok(bet) => routed == Routed::Forward(
                GameAction::Pot(request.id, PotAction::BetRaise(bet)),
            ),
            Err(e) => routed == Routed::Invalid(e),
        },
        game_running && request.action_type is Draw ==> match discards_of(request.data@) {
            Ok(cards) => routed matches Routed::Forward(GameAction::Draw(id, draw)) && id
                == request.id && draw.cards_to_discard@ == cards,
            Err(e) => routed == Routed::Invalid(e),
        },
{
    if !request.action_type.is_game_action() {
        return Routed::Control(request.action_type);
    }
    if !game_running {
        return Routed::Dropped;
    }
    match request.action_type {
        ActionType::CheckCall => Routed::Forward(GameAction::Pot(request.id, PotAction::CheckCall)),
        ActionType::Fold => Routed::Forward(GameAction::Pot(request.id, PotAction::Fold)),
        ActionType::BetRaise => match BetAction::try_from(&request.data) {
            Ok(bet) => Routed::Forward(GameAction::Pot(request.id, PotAction::BetRaise(bet))),
            Err(e) => Routed::Invalid(e),
        },
        ActionType::Draw => match DrawAction::try_from(&request.data) {
            Ok(draw) => Routed::Forward(GameAction::Draw(request.id, draw)),
            Err(e) => Routed::Invalid(e),
        },
        _ => Routed::Dropped,
    }
}

} // verus!
