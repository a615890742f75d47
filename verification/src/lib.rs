//! Bet accounting, side-pot settlement and table sequencing for a no-limit
//! poker server.
//!
//! Every executable item carries a contract over a mathematical model of the
//! state it touches, and the conservation and eligibility laws of the pot
//! engine are proved against those contracts.

pub mod action;
pub mod cards;
pub mod chips;
pub mod game_actions;
pub mod games;
pub mod json;
pub mod ordered;
pub mod player;
pub mod pot;
pub mod pots;
pub mod table;
pub mod websocket;
