//! The pot engine: bet collection, side pots and distribution.

pub mod error;
pub mod invariants;
pub mod laws;
pub mod model;
pub mod partial_pot;
pub mod pot;
pub mod pot_limit_pot;
pub mod no_limit_pot;
pub mod showdown;
