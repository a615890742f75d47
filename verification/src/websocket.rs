//! What a session does with a frame that arrives on its socket.

use crate::action::ActionRequest;
use crate::action::SessionId;
use crate::action::decode_request;
use crate::action::request_of;
use crate::game_actions::requests::RequestError;
use crate::game_actions::requests::request_error_text;
use crate::json::Json;
use crate::json::is_empty_object;
use crate::json::parsed_json;
use vstd::prelude::*;
use vstd::string::*;

verus! {

/// A frame as it arrives on a socket.
#[derive(Debug, PartialEq)]
pub enum Frame {
    Ping(Vec<u8>),
    Text(String),
    Binary(Vec<u8>),
    Close,
    Other,
}

/// A response as it goes out on a socket.
#[derive(Debug, PartialEq)]
pub struct WebsocketResponse {
    pub action_type: String,
    pub error: Option<String>,
    pub data: Json,
}

/// What a session is to do about a frame.
#[derive(Debug, PartialEq)]
pub enum SocketStep {
    /// Answer a ping with its payload.
    Pong(Vec<u8>),
    /// Pass the request on to the router.
    Forward(ActionRequest),
    /// Tell the session why its frame was not understood.
    Reply(WebsocketResponse),
    /// Send the bytes back.
    Echo(Vec<u8>),
    /// Close the socket and stop.
    CloseAndStop,
    /// Do nothing.
    Nothing,
}

/// The session at one end of a socket.
#[derive(Debug, Clone, Copy, PartialEq, Eq, Structural)]
pub struct PlayerSocket {
    pub id: SessionId,
}

/// The reply that tells a session that what it sent was not understood, with
/// the reason: a parse error without data.
pub open spec fn is_parse_error(reply: WebsocketResponse, detail: Seq<char>) -> bool {
    &&& reply.action_type@ == "parse error"@
    &&& reply.error is Some
    &&& reply.error->0@ == detail
    &&& is_empty_object(reply.data)
}

/// The reply to a session whose frame or request could not be read, with the
/// reason in the parser's or the library's words.
pub fn parse_error_reply(detail: String) -> (reply: WebsocketResponse)
    ensures
        is_parse_error(reply, detail@),
        reply.error == Some(detail),
{
    WebsocketResponse {
        action_type: String::from_str("parse error"),
        error: Some(detail),
        data: Json::Object(Vec::new()),
    }
}

/// The reply to a session whose request has data of the wrong shape: a parse
/// error that says what is wrong.
pub fn invalid_request_reply(e: RequestError) -> (reply: WebsocketResponse)
    ensures
        is_parse_error(reply, request_error_text(e)),
{
    parse_error_reply(String::from_str(e.message()))
}

impl PlayerSocket {
    /// The session with the given identifier.
    pub fn new(id: SessionId) -> (socket: PlayerSocket)
        ensures
            socket.id == id,
    {
        PlayerSocket { id }
    }

    /// Decides what to do about a frame. A ping is answered, bytes are sent
    /// back, a close closes. A text is read as a request and passed on under
    /// the session's identifier; where it cannot be read the session is told
    /// so, with the reason, as a parse error.
    pub fn on_frame(&self, frame: Frame) -> (step: SocketStep)
        ensures
            frame matches Frame::Ping(payload) ==> step == SocketStep::Pong(payload),
            frame matches Frame::Binary(bytes) ==> step == SocketStep::Echo(bytes),
            frame is Close ==> step is CloseAndStop,
            frame is Other ==> step is Nothing,
            frame matches Frame::Text(text) ==> match parsed_json(text@) {
                Err(detail) => step matches SocketStep::Reply(reply) && is_parse_error(
                    reply,
                    detail@,
                ) && reply.error == Some(detail),
                Ok(json) => match request_of(json) {
                    Ok((kind, data)) => step matches SocketStep::Forward(request) && request.id
                        == self.id && request.action_type == kind && request.data@ == data,
                    Err(e) => step matches SocketStep::Reply(reply) && is_parse_error(
                        reply,
                        request_error_text(e),
                    ),
                },
            },
    {
        match frame {
            Frame::Ping(payload) => SocketStep::Pong(payload),
            Frame::Binary(bytes) => SocketStep::Echo(bytes),
            Frame::Close => SocketStep::CloseAndStop,
            Frame::Other => SocketStep::Nothing,
            Frame::Text(text) => match decode_request(self.id, text.as_str()) {
                Ok(request) => SocketStep::Forward(request),
                Err(failure) => SocketStep::Reply(parse_error_reply(failure.detail)),
            },
        }
    }
}

} // verus!
