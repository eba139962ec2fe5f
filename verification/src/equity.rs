//! The equity engines.

pub mod blocker;
pub mod holdem;
pub mod laws;
pub mod omaha;
pub mod removal;
