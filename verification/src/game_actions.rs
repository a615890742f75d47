//! The typed requests that reach a table and the typed responses it gives.

pub mod game_action;
pub mod requests;
pub mod responses;
