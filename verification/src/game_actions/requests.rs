//! What a player can ask for in a hand, and how it is read from the data of a
//! request.

use crate::cards::Card;
use crate::cards::card_of;
use crate::json::Json;
use crate::json::find_member;
use crate::json::member;
use vstd::prelude::*;
use vstd::string::*;

verus! {

/// Why the data of a request could not be read.
#[derive(Debug, Clone, Copy, PartialEq, Eq, Structural)]
pub enum RequestError {
    /// The text is no JSON.
    Malformed,
    /// The request is no JSON object.
    NotAnObject,
    /// The request does not say what it asks for.
    MissingActionType,
    /// What the request asks for is not given as a number.
    ActionTypeNotANumber,
    /// The number stands for no kind of request.
    UnknownActionType,
    /// The request has no data.
    MissingData,
    /// The data of the request is no JSON object.
    DataNotAnObject,
    /// The data lacks the field that the request needs.
    MissingField,
    /// The amount is no number.
    AmountNotANumber,
    /// The amount is a number, but no unsigned integer of 64 bits.
    AmountNotUnsigned,
    /// The cards to discard are no list.
    DiscardsNotAnArray,
    /// One of the cards to discard is no text.
    DiscardNotText,
    /// One of the cards to discard is no card.
    DiscardMalformed,
}

/// What an error says, in words.
pub open spec fn request_error_text(e: RequestError) -> Seq<char> {
    match e {
        RequestError::Malformed => "Text is not JSON"@,
        RequestError::NotAnObject => "Root of JSON was not of object type"@,
        RequestError::MissingActionType => "Request has no actionType"@,
        RequestError::ActionTypeNotANumber => "actionType is not a number"@,
        RequestError::UnknownActionType => "actionType stands for no action"@,
        RequestError::MissingData => "Request has no data"@,
        RequestError::DataNotAnObject => "data is not an object"@,
        RequestError::MissingField => "String keys could not map to BetAction fields"@,
        RequestError::AmountNotANumber => "Amount is not a number"@,
        RequestError::AmountNotUnsigned => "Amount is a number, but an unsigned 64-bit"@,
        RequestError::DiscardsNotAnArray => "cardsToDiscard is not an array"@,
        RequestError::DiscardNotText => "Entry in cardsToDiscard is not a String"@,
        RequestError::DiscardMalformed => "String entry in cardsToDiscard is not properly formatted"@,
    }
}

impl RequestError {
    /// What the error says, in words.
    pub fn message(&self) -> (text: &'static str)
        ensures
            text@ == request_error_text(*self),
    {
        match self {
            RequestError::Malformed => "Text is not JSON",
            RequestError::NotAnObject => "Root of JSON was not of object type",
            RequestError::MissingActionType => "Request has no actionType",
            RequestError::ActionTypeNotANumber => "actionType is not a number",
            RequestError::UnknownActionType => "actionType stands for no action",
            RequestError::MissingData => "Request has no data",
            RequestError::DataNotAnObject => "data is not an object",
            RequestError::MissingField => "String keys could not map to BetAction fields",
            RequestError::AmountNotANumber => "Amount is not a number",
            RequestError::AmountNotUnsigned => "Amount is a number, but an unsigned 64-bit",
            RequestError::DiscardsNotAnArray => "cardsToDiscard is not an array",
            RequestError::DiscardNotText => "Entry in cardsToDiscard is not a String",
            RequestError::DiscardMalformed => "String entry in cardsToDiscard is not properly formatted",
        }
    }
}

/// A bet or raise to `amount` chips.
#[derive(Debug, Clone, Copy, PartialEq, Eq, Structural)]
pub struct BetAction {
    pub amount: u64,
}

/// A check or call.
#[derive(Debug, Clone, Copy, PartialEq, Eq, Structural)]
pub struct FlatAction {}

/// A fold.
#[derive(Debug, Clone, Copy, PartialEq, Eq, Structural)]
pub struct FoldAction {}

/// An exchange of cards: the cards the player gives up.
#[derive(Debug, PartialEq)]
pub struct DrawAction {
    pub cards_to_discard: Vec<Card>,
}

/// The bet that the data of a request asks for: its `amount`, which must be
/// an unsigned integer.
pub open spec fn bet_of(fields: Seq<(String, Json)>) -> Result<BetAction, RequestError> {
    match member(fields, "amount"@) {
        Some(Json::Number(Some(amount))) => Ok(BetAction { amount }),
        Some(Json::Number(None)) => Err(RequestError::AmountNotUnsigned),
        Some(_) => Err(RequestError::AmountNotANumber),
        None => Err(RequestError::MissingField),
    }
}

/// The cards that a list of JSON values names: each must be the text of a
/// card. The first entry that is not decides the error.
pub open spec fn cards_from(entries: Seq<Json>) -> Result<Seq<Card>, RequestError>
    decreases entries.len(),
{
    if entries.len() == 0 {
        Ok(Seq::empty())
    } else {
        match entries[0] {
            Json::Text(text) => match card_of(text@) {
                Some(card) => match cards_from(entries.drop_first()) {
                    Ok(rest) => Ok(seq![card] + rest),
                    Err(e) => Err(e),
                },
                None => Err(RequestError::DiscardMalformed),
            },
            _ => Err(RequestError::DiscardNotText),
        }
    }
}

/// The cards that the data of a request asks to exchange: its
/// `cardsToDiscard`, which must be a list of cards.
pub open spec fn discards_of(fields: Seq<(String, Json)>) -> Result<Seq<Card>, RequestError> {
    match member(fields, "cardsToDiscard"@) {
        Some(Json::Array(entries)) => cards_from(entries@),
        Some(_) => Err(RequestError::DiscardsNotAnArray),
        None => Err(RequestError::MissingField),
    }
}

impl BetAction {
    /// Reads a bet from the data of a request.
    pub fn try_from(fields: &Vec<(String, Json)>) -> (res: Result<BetAction, RequestError>)
        ensures
            res == bet_of(fields@),
    {
        match find_member(fields, "amount") {
            Some(Json::Number(Some(amount))) => Ok(BetAction { amount: *amount }),
            Some(Json::Number(None)) => Err(RequestError::AmountNotUnsigned),
            Some(_) => Err(RequestError::AmountNotANumber),
            None => Err(RequestError::MissingField),
        }
    }
}

impl FlatAction {
    /// Reads a check or call from the data of a request: any data will do.
    pub fn try_from(fields: &Vec<(String, Json)>) -> (res: Result<FlatAction, RequestError>)
        ensures
            res == Ok::<FlatAction, RequestError>(FlatAction {  }),
    {
        Ok(FlatAction {  })
    }
}

impl FoldAction {
    /// Reads a fold from the data of a request: any data will do.
    pub fn try_from(fields: &Vec<(String, Json)>) -> (res: Result<FoldAction, RequestError>)
        ensures
            res == Ok::<FoldAction, RequestError>(FoldAction {  }),
    {
        Ok(FoldAction {  })
    }
}

impl DrawAction {
    /// Reads an exchange of cards from the data of a request.
    pub fn try_from(fields: &Vec<(String, Json)>) -> (res: Result<DrawAction, RequestError>)
        ensures
            match res {
                Ok(action) => discards_of(fields@) == Ok::<Seq<Card>, RequestError>(
                    action.cards_to_discard@,
                ),
                Err(e) => discards_of(fields@) == Err::<Seq<Card>, RequestError>(e),
            },
    {
        let entries = match find_member(fields, "cardsToDiscard") {
            Some(Json::Array(entries)) => entries,
            Some(_) => {
                return Err(RequestError::DiscardsNotAnArray);
            },
            None => {
                return Err(RequestError::MissingField);
            },
        };
        let mut cards: Vec<Card> = Vec::new();
        let mut i: usize = 0;
        assert(entries@.skip(0) =~= entries@);
        while i < entries.len()
            invariant
                i <= entries@.len(),
                discards_of(fields@) == cards_from(entries@),
                match cards_from(entries@.skip(i as int)) {
                    Ok(rest) => cards_from(entries@) == Ok::<Seq<Card>, RequestError>(
                        cards@ + rest,
                    ),
                    Err(e) => cards_from(entries@) == Err::<Seq<Card>, RequestError>(e),
                },
            decreases entries@.len() - i,
        {
            proof {
                assert(entries@.skip(i as int)[0] == entries@[i as int]);
                assert(entries@.skip(i as int).drop_first() =~= entries@.skip(i + 1));
            }
            match &entries[i] {
                Json::Text(text) => {
                    match Card::from_text(text.as_str()) {
                        Some(card) => {
                            let ghost before = cards@;
                            cards.push(card);
                            proof {
                                match cards_from(entries@.skip(i + 1)) {
                                    Ok(rest) => {
                                        assert(before + (seq![card] + rest) =~= cards@ + rest);
                                    },
                                    Err(_) => {},
                                }
                            }
                        },
                        None => {
                            return Err(RequestError::DiscardMalformed);
                        },
                    }
                },
                _ => {
                    return Err(RequestError::DiscardNotText);
                },
            }
            i += 1;
        }
        proof {
            assert(entries@.skip(i as int) =~= Seq::<Json>::empty());
            assert(cards@ + Seq::<Card>::empty() =~= cards@);
        }
        Ok(DrawAction { cards_to_discard: cards })
    }
}

} // verus!
