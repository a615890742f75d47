//! Game variations: how a hand is dealt and how hands are ranked.

pub mod deck;
pub mod five_card_draw;
pub mod gamevariation;
