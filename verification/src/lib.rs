//! Poker equity for Texas Hold'em and Omaha over an externally supplied
//! rank table.
//!
//! A hand or a range of hands is scored against a weighted villain range on
//! a board of 3, 4 or 5 cards. The answer is a triple of masses (win, tie,
//! lose): sums of villain weight, not probabilities. Weights are whole
//! numbers of units; a caller who thinks in fractions picks the unit.
//!
//! - [`cards`]: cards as integers below 52, card sets as bit masks, and the
//!   numbering of the 1326 two-card combos.
//! - [`evaluator`]: the rank of a hand, read off the rank table by a chain
//!   of lookups.
//! - [`range`]: the dense Hold'em range and the Omaha list of hands.
//! - [`equity`]: the engines, with the laws they obey.
//! - [`calculator`]: a rank table with ranges set on it, and queries that
//!   check a request's shape first.

pub mod calculator;
pub mod cards;
pub mod combinations;
pub mod equity;
pub mod evaluator;
pub mod range;
pub mod sums;
pub mod types;

pub use calculator::EquityCalculator;
pub use cards::{
    board_to_mask, card_to_string, cards_to_mask, hand_to_string, string_to_card, RANKS, SUITS,
};
pub use equity::blocker::ComboInfo;
pub use equity::holdem::{calculate_equity_vs_range, calculate_leaf_equity};
pub use equity::omaha::{
    calculate_omaha_equity_monte_carlo_flop, calculate_omaha_equity_vs_range,
    calculate_omaha_leaf_equity, RunoutEquities,
};
pub use evaluator::{fast_eval, final_p, gen_board_eval, next_p, BoardEval};
pub use range::holdem::{HoldemRange, RangeError};
pub use range::omaha::OmahaRange;
pub use types::{Equity, EquityError, EquityResult, Outcome};
