use poker_engine::action::{
    decode_request, read_request, route, ActionRequest, ActionType, Routed, SessionId,
};
use poker_engine::cards::{Card, Rank, Suit};
use poker_engine::game_actions::game_action::{GameAction, PotAction};
use poker_engine::game_actions::requests::{
    BetAction, DrawAction, FlatAction, FoldAction, RequestError,
};
use poker_engine::game_actions::responses::StatusCode;
use poker_engine::json::Json;

const ME: SessionId = SessionId { id: 77 };

fn data_of(text: &str) -> Vec<(String, Json)> {
    let request = format!("{{\"actionType\": 0, \"data\": {}}}", text);
    decode_request(ME, &request).expect("An error occurred!").data
}

fn cards(text: &str) -> Vec<Card> {
    text.as_bytes()
        .chunks(2)
        .map(|pair| Card::from_text(std::str::from_utf8(pair).unwrap()).unwrap())
        .collect()
}

#[test]
fn deserialize_from_json_int() {
    let value = data_of("{\"amount\": 42069}");
    let action: BetAction = BetAction::try_from(&value).expect("An error occurred!");
    let expected = BetAction { amount: 42069 };
    assert_eq!(expected, action);
}

#[test]
#[should_panic]
fn deserialize_from_json_string() {
    let value = data_of("{\"amount\": \"42069\"}");
    let _: BetAction = BetAction::try_from(&value).expect("An error occurred!");
}

#[test]
fn deserialize_from_json_array_of_strings() {
    let value = data_of("{\"cardsToDiscard\": [\"2s\", \"7d\", \"Ts\"]}");
    let action: DrawAction = DrawAction::try_from(&value).expect("An error occurred!");
    let expected = DrawAction {
        cards_to_discard: cards("2s7dTs"),
    };
    assert_eq!(expected, action);
}

#[test]
#[should_panic]
fn deserialize_from_bad_array() {
    let value = data_of("{\"cardsToDiscard\": [\"3d\", \"2d\", \"lmao\"]}");
    let _: DrawAction = DrawAction::try_from(&value).expect("An error occurred!");
}

#[test]
fn bets_say_why_they_cannot_be_read() {
    assert_eq!(
        BetAction::try_from(&data_of("{\"amount\": \"42069\"}")),
        Err(RequestError::AmountNotANumber)
    );
    assert_eq!(
        BetAction::try_from(&data_of("{\"amount\": -3}")),
        Err(RequestError::AmountNotUnsigned)
    );
    assert_eq!(
        BetAction::try_from(&data_of("{\"amount\": 1.5}")),
        Err(RequestError::AmountNotUnsigned)
    );
    assert_eq!(
        BetAction::try_from(&data_of("{\"Amount\": 3}")),
        Err(RequestError::MissingField)
    );
    assert_eq!(
        BetAction::try_from(&data_of("{\"amount\": 18446744073709551615}")),
        Ok(BetAction { amount: u64::MAX })
    );
    assert_eq!(FlatAction::try_from(&data_of("{\"amount\": 3}")), Ok(FlatAction {}));
    assert_eq!(FoldAction::try_from(&data_of("{}")), Ok(FoldAction {}));
}

#[test]
fn discards_say_why_they_cannot_be_read() {
    let read = |text: &str| DrawAction::try_from(&data_of(text));
    assert_eq!(read("{\"cardsToDiscard\": [\"3d\", \"lmao\", 4]}"), Err(RequestError::DiscardMalformed));
    assert_eq!(read("{\"cardsToDiscard\": [\"3d\", 4, \"lmao\"]}"), Err(RequestError::DiscardNotText));
    assert_eq!(read("{\"cardsToDiscard\": \"3d\"}"), Err(RequestError::DiscardsNotAnArray));
    assert_eq!(read("{\"cards\": []}"), Err(RequestError::MissingField));
    assert_eq!(read("{\"cardsToDiscard\": [\"3D\"]}"), Err(RequestError::DiscardMalformed));
    assert_eq!(read("{\"cardsToDiscard\": [\"td\"]}"), Err(RequestError::DiscardMalformed));
    assert_eq!(
        read("{\"cardsToDiscard\": []}"),
        Ok(DrawAction { cards_to_discard: Vec::new() })
    );
}

#[test]
fn cards_are_two_characters_rank_first() {
    assert_eq!(
        Card::from_text("Ah"),
        Some(Card { rank: Rank::Ace, suit: Suit::Heart })
    );
    assert_eq!(
        Card::from_text("2s"),
        Some(Card { rank: Rank::Two, suit: Suit::Spade })
    );
    assert_eq!(
        Card::from_text("Td"),
        Some(Card { rank: Rank::Ten, suit: Suit::Diamond })
    );
    assert_eq!(Card::from_text("hA"), None);
    assert_eq!(Card::from_text("A"), None);
    assert_eq!(Card::from_text("Ahh"), None);
    assert_eq!(Card::from_text(""), None);
    assert_eq!(Card::from_text("1c"), None);
    assert_eq!(Card::from_text("Ax"), None);
    let ranks = "23456789TJQKA";
    let suits = "shdc";
    for rank in ranks.chars() {
        for suit in suits.chars() {
            let text = format!("{}{}", rank, suit);
            let card = Card::from_text(&text).unwrap();
            assert_eq!(card.to_text(), text);
            assert_eq!(card.rank.get_char(), rank);
            assert_eq!(card.suit.get_char(), suit);
            assert_eq!(Rank::from_char(rank), Some(card.rank));
            assert_eq!(Suit::from_char(suit), Some(card.suit));
        }
    }
}

#[test]
fn action_types_have_their_numbers() {
    let kinds = [
        (0, ActionType::CheckCall),
        (1, ActionType::BetRaise),
        (2, ActionType::Fold),
        (3, ActionType::Draw),
        (4, ActionType::StartGame),
        (6, ActionType::StopGame),
        (7, ActionType::PauseGame),
        (8, ActionType::ResumeGame),
    ];
    for (code, kind) in kinds {
        assert_eq!(ActionType::from_code(code), Some(kind));
        assert_eq!(kind.code() as u64, code);
        assert_eq!(kind.is_game_action(), code < 4);
    }
    assert_eq!(ActionType::from_code(5), None);
    assert_eq!(ActionType::from_code(9), None);
}

#[test]
fn status_codes_have_their_numbers() {
    assert_eq!(StatusCode::OK.code(), 0);
    assert_eq!(StatusCode::NotYourTurn.code(), 1);
    assert_eq!(StatusCode::InvalidBet.code(), 2);
    assert_eq!(StatusCode::Paused.code(), 3);
    assert_eq!(StatusCode::CappedAction.code(), 4);
}

#[test]
fn requests_are_read_from_text() {
    let request = decode_request(ME, "{\"actionType\": 1, \"data\": {\"amount\": 20}}").unwrap();
    assert_eq!(
        request,
        ActionRequest {
            id: ME,
            action_type: ActionType::BetRaise,
            data: vec![("amount".to_string(), Json::Number(Some(20)))],
        }
    );
    let kind = |text: &str| decode_request(ME, text).unwrap_err().kind;
    assert_eq!(kind("{\"actionType\": 1"), RequestError::Malformed);
    assert_eq!(kind("[1, 2]"), RequestError::NotAnObject);
    assert_eq!(kind("{\"data\": {}}"), RequestError::MissingActionType);
    assert_eq!(kind("{\"actionType\": \"1\", \"data\": {}}"), RequestError::ActionTypeNotANumber);
    assert_eq!(kind("{\"actionType\": 5, \"data\": {}}"), RequestError::UnknownActionType);
    assert_eq!(kind("{\"actionType\": 2}"), RequestError::MissingData);
    assert_eq!(kind("{\"actionType\": 2, \"data\": [1]}"), RequestError::DataNotAnObject);
    let failure = decode_request(ME, "[]").unwrap_err();
    assert_eq!(failure.detail, "Root of JSON was not of object type");
    assert_eq!(failure.detail, failure.kind.message());
    let failure = decode_request(ME, "{").unwrap_err();
    assert!(failure.detail.contains("line 1"));
}

#[test]
fn requests_are_read_from_values() {
    let nested = Json::Object(vec![
        ("data".to_string(), Json::Object(vec![("x".to_string(), Json::Null)])),
        ("actionType".to_string(), Json::Number(Some(8))),
    ]);
    assert_eq!(
        read_request(ME, nested),
        Ok(ActionRequest {
            id: ME,
            action_type: ActionType::ResumeGame,
            data: vec![("x".to_string(), Json::Null)],
        })
    );
    assert_eq!(read_request(ME, Json::Array(Vec::new())), Err(RequestError::NotAnObject));
    assert_eq!(
        read_request(ME, Json::Object(vec![("actionType".to_string(), Json::Number(None))])),
        Err(RequestError::ActionTypeNotANumber)
    );
}

#[test]
fn parsed_values_keep_their_shape() {
    let data = data_of("{\"a\": [true, null, \"x\", 7, -7, {\"b\": false}]}");
    assert_eq!(
        data,
        vec![(
            "a".to_string(),
            Json::Array(vec![
                Json::Bool(true),
                Json::Null,
                Json::Text("x".to_string()),
                Json::Number(Some(7)),
                Json::Number(None),
                Json::Object(vec![("b".to_string(), Json::Bool(false))]),
            ])
        )]
    );
}

#[test]
fn requests_are_routed() {
    let request = |kind: ActionType, text: &str| ActionRequest {
        id: ME,
        action_type: kind,
        data: data_of(text),
    };
    assert_eq!(
        route(&request(ActionType::CheckCall, "{}"), true),
        Routed::Forward(GameAction::Pot(ME, PotAction::CheckCall))
    );
    assert_eq!(
        route(&request(ActionType::Fold, "{}"), true),
        Routed::Forward(GameAction::Pot(ME, PotAction::Fold))
    );
    assert_eq!(
        route(&request(ActionType::BetRaise, "{\"amount\": 9}"), true),
        Routed::Forward(GameAction::Pot(ME, PotAction::BetRaise(BetAction { amount: 9 })))
    );
    assert_eq!(
        route(&request(ActionType::BetRaise, "{}"), true),
        Routed::Invalid(RequestError::MissingField)
    );
    assert_eq!(
        route(&request(ActionType::Draw, "{\"cardsToDiscard\": [\"Kc\"]}"), true),
        Routed::Forward(GameAction::Draw(ME, DrawAction { cards_to_discard: cards("Kc") }))
    );
    assert_eq!(
        route(&request(ActionType::Draw, "{\"cardsToDiscard\": 3}"), true),
        Routed::Invalid(RequestError::DiscardsNotAnArray)
    );
    assert_eq!(route(&request(ActionType::Fold, "{}"), false), Routed::Dropped);
    assert_eq!(route(&request(ActionType::BetRaise, "{}"), false), Routed::Dropped);
    for running in [false, true] {
        for kind in [
            ActionType::StartGame,
            ActionType::StopGame,
            ActionType::PauseGame,
            ActionType::ResumeGame,
        ] {
            assert_eq!(route(&request(kind, "{}"), running), Routed::Control(kind));
        }
    }
}
