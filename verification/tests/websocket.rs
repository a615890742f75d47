use poker_engine::action::{ActionRequest, ActionType, SessionId};
use poker_engine::json::Json;
use poker_engine::game_actions::requests::RequestError;
use poker_engine::websocket::{
    invalid_request_reply, parse_error_reply, Frame, PlayerSocket, SocketStep, WebsocketResponse,
};

#[test]
fn frames_are_answered() {
    let socket = PlayerSocket::new(SessionId { id: 5 });
    assert_eq!(socket.on_frame(Frame::Ping(vec![1, 2])), SocketStep::Pong(vec![1, 2]));
    assert_eq!(socket.on_frame(Frame::Binary(vec![9])), SocketStep::Echo(vec![9]));
    assert_eq!(socket.on_frame(Frame::Close), SocketStep::CloseAndStop);
    assert_eq!(socket.on_frame(Frame::Other), SocketStep::Nothing);
}

#[test]
fn requests_are_passed_on_under_the_session() {
    let socket = PlayerSocket::new(SessionId { id: 5 });
    let text = "{\"actionType\": 3, \"data\": {\"cardsToDiscard\": []}}".to_string();
    assert_eq!(
        socket.on_frame(Frame::Text(text)),
        SocketStep::Forward(ActionRequest {
            id: SessionId { id: 5 },
            action_type: ActionType::Draw,
            data: vec![("cardsToDiscard".to_string(), Json::Array(Vec::new()))],
        })
    );
}

#[test]
fn unreadable_frames_get_a_parse_error() {
    let socket = PlayerSocket::new(SessionId { id: 5 });
    assert_eq!(
        socket.on_frame(Frame::Text("7".to_string())),
        SocketStep::Reply(WebsocketResponse {
            action_type: "parse error".to_string(),
            error: Some("Root of JSON was not of object type".to_string()),
            data: Json::Object(Vec::new()),
        })
    );
    match socket.on_frame(Frame::Text("{\"actionType\":".to_string())) {
        SocketStep::Reply(reply) => {
            assert_eq!(reply.action_type, "parse error");
            assert!(reply.error.unwrap().contains("EOF"));
            assert_eq!(reply.data, Json::Object(Vec::new()));
        }
        other => panic!("{:?}", other),
    }
}

#[test]
fn a_request_with_data_of_the_wrong_shape_gets_a_parse_error() {
    assert_eq!(
        invalid_request_reply(RequestError::AmountNotANumber),
        WebsocketResponse {
            action_type: "parse error".to_string(),
            error: Some("Amount is not a number".to_string()),
            data: Json::Object(Vec::new()),
        }
    );
    assert_eq!(
        parse_error_reply("why".to_string()),
        WebsocketResponse {
            action_type: "parse error".to_string(),
            error: Some("why".to_string()),
            data: Json::Object(Vec::new()),
        }
    );
}
