//! Weighted ranges of hands.

pub mod holdem;
pub mod omaha;
