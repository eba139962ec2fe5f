//! Result types shared by the Hold'em and Omaha engines.

use vstd::prelude::*;

verus! {

/// Win, tie and lose mass of one hand against a weighted range. The three
/// are sums of weights, not probabilities.
#[derive(Debug, Clone, Copy, PartialEq, Eq, Structural)]
pub struct Equity {
    pub win: u128,
    pub tie: u128,
    pub lose: u128,
}

impl Default for Equity {
    fn default() -> (e: Self)
        ensures
            e == (Equity { win: 0, tie: 0, lose: 0 }),
    {
        Equity { win: 0, tie: 0, lose: 0 }
    }
}

impl Equity {
    /// Mass of the opposing hands that this hand beats.
    pub fn win(&self) -> (mass: u128)
        ensures
            mass == self.win,
    {
        self.win
    }

    /// Mass of the opposing hands of equal rank.
    pub fn tie(&self) -> (mass: u128)
        ensures
            mass == self.tie,
    {
        self.tie
    }

    /// Mass of the opposing hands that beat this hand.
    pub fn lose(&self) -> (mass: u128)
        ensures
            mass == self.lose,
    {
        self.lose
    }
}

/// One of the three ways a showdown ends for the hero.
#[derive(Debug, Clone, Copy, PartialEq, Eq, Structural)]
pub enum Outcome {
    Win,
    Tie,
    Lose,
}

/// Why a query was refused: its shape is wrong, or a range it needs was
/// never set.
#[derive(Debug, Clone, Copy, PartialEq, Eq, Structural)]
pub enum EquityError {
    /// The board holds neither 3, 4 nor 5 cards.
    BoardLength,
    /// A query on a finished board got a board that does not hold 5 cards.
    LeafBoardLength,
    /// A query on a flop got a board that does not hold 3 cards.
    FlopLength,
    /// The hero's Omaha hand holds neither 4, 5 nor 6 cards.
    HandSize { got: usize },
    /// The hero's Omaha hand and the hands of the range differ in size.
    HandSizeMismatch { hero: usize, range: usize },
    /// No hero range was set.
    NoHeroRange,
    /// No villain range was set.
    NoVillainRange,
    /// No Omaha range was set.
    NoOmahaRange,
}

/// The equity of one Hold'em combo: its two cards, its slot, its masses.
#[derive(Debug, Clone, Copy, PartialEq, Eq)]
pub struct EquityResult {
    pub combo: [u8; 2],
    pub hand_idx: usize,
    pub equity: Equity,
}

impl EquityResult {
    /// The two cards of the combo, lower card first.
    pub fn combo(&self) -> (cards: Vec<u8>)
        ensures
            cards@ == self.combo@,
    {
        let mut cards: Vec<u8> = Vec::with_capacity(2);
        cards.push(self.combo[0]);
        cards.push(self.combo[1]);
        assert(cards@ =~= self.combo@);
        cards
    }

    /// The masses of the combo.
    pub fn equity(&self) -> (equity: Equity)
        ensures
            equity == self.equity,
    {
        self.equity
    }

    /// The slot of the combo among the 1326.
    pub fn hand_idx(&self) -> (idx: usize)
        ensures
            idx == self.hand_idx,
    {
        self.hand_idx
    }
}

} // verus!
