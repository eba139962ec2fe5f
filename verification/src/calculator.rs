//! The calculator: a rank table with the ranges set on it, and the queries
//! that check a request's shape before they hand it to an engine.

use vstd::prelude::*;
use crate::cards::valid_cards;
use crate::equity::holdem::{
    calculate_equity_vs_range, calculate_leaf_equity, leaf_results, runout_results,
};
use crate::equity::omaha::{
    boards_to_come, calculate_omaha_equity_monte_carlo_flop, calculate_omaha_equity_vs_range,
    calculate_omaha_leaf_equity, omaha_shape_error, runout_matches, runouts_match, sampled_runout,
    RunoutEquities,
};
use crate::range::holdem::HoldemRange;
use crate::range::omaha::OmahaRange;
use crate::types::{EquityError, EquityResult};

verus! {

/// A rank table together with the ranges that queries are answered from.
pub struct EquityCalculator {
    hand_ranks_data: Vec<u8>,
    cached_hero_range: Option<HoldemRange>,
    cached_vs_range: Option<HoldemRange>,
    cached_omaha_range: Option<OmahaRange>,
}

impl EquityCalculator {
    #[verifier::type_invariant]
    spec fn well_formed(&self) -> bool {
        self.cached_omaha_range matches Some(range) ==> range.wf()
    }

    /// The bytes of the rank table.
    pub closed spec fn table(&self) -> Seq<u8> {
        self.hand_ranks_data@
    }

    /// The weights of the hero's Hold'em range, once set.
    pub closed spec fn hero_range(&self) -> Option<Seq<u64>> {
        match self.cached_hero_range {
            Some(range) => Some(range@),
            None => None,
        }
    }

    /// The weights of the villain's Hold'em range, once set.
    pub closed spec fn vs_range(&self) -> Option<Seq<u64>> {
        match self.cached_vs_range {
            Some(range) => Some(range@),
            None => None,
        }
    }

    /// The entries of the villain's Omaha range, once set.
    pub closed spec fn omaha_range(&self) -> Option<Seq<(Seq<u8>, u64)>> {
        match self.cached_omaha_range {
            Some(range) => Some(range@),
            None => None,
        }
    }

    /// The hand size of the villain's Omaha range; 0 before one is set.
    pub closed spec fn omaha_hand_size(&self) -> int {
        match self.cached_omaha_range {
            Some(range) => range.cards_per_hand(),
            None => 0,
        }
    }

    /// A calculator over the given rank table, with no range set.
    pub fn new(data: Vec<u8>) -> (calculator: Self)
        ensures
            calculator.table() == data@,
            calculator.hero_range() is None,
            calculator.vs_range() is None,
            calculator.omaha_range() is None,
    {
        EquityCalculator {
            hand_ranks_data: data,
            cached_hero_range: None,
            cached_vs_range: None,
            cached_omaha_range: None,
        }
    }

    /// Sets the hero's Hold'em range.
    pub fn set_hero_range(&mut self, range: HoldemRange)
        ensures
            final(self).hero_range() == Some(range@),
            final(self).table() == old(self).table(),
            final(self).vs_range() == old(self).vs_range(),
            final(self).omaha_range() == old(self).omaha_range(),
            final(self).omaha_hand_size() == old(self).omaha_hand_size(),
    {
        proof {
            use_type_invariant(&*self);
        }
        self.cached_hero_range = Some(range);
    }

    /// Sets the villain's Hold'em range.
    pub fn set_vs_range(&mut self, range: HoldemRange)
        ensures
            final(self).vs_range() == Some(range@),
            final(self).table() == old(self).table(),
            final(self).hero_range() == old(self).hero_range(),
            final(self).omaha_range() == old(self).omaha_range(),
            final(self).omaha_hand_size() == old(self).omaha_hand_size(),
    {
        proof {
            use_type_invariant(&*self);
        }
        self.cached_vs_range = Some(range);
    }

    /// Sets the villain's Omaha range.
    pub fn set_omaha_range(&mut self, range: OmahaRange)
        requires
            range.wf(),
        ensures
            final(self).omaha_range() == Some(range@),
            final(self).omaha_hand_size() == range.cards_per_hand(),
            final(self).table() == old(self).table(),
            final(self).hero_range() == old(self).hero_range(),
            final(self).vs_range() == old(self).vs_range(),
    {
        proof {
            use_type_invariant(&*self);
        }
        self.cached_omaha_range = Some(range);
    }

    /// Hold'em equity of every hero combo on a board of 3, 4 or 5 cards.
    /// Refused while a range is missing (the hero's is looked for first)
    /// and on a board of another length.
    pub fn equity_vs_range(&self, board: &[u8]) -> (outcome: Result<Vec<EquityResult>, EquityError>)
        requires
            valid_cards(board@),
        ensures
            self.hero_range() is None ==> outcome == Err::<Vec<EquityResult>, EquityError>(
                EquityError::NoHeroRange,
            ),
            self.hero_range() is Some && self.vs_range() is None ==> outcome == Err::<
                Vec<EquityResult>,
                EquityError,
            >(EquityError::NoVillainRange),
            self.hero_range() is Some && self.vs_range() is Some && !(3 <= board@.len() <= 5)
                ==> outcome == Err::<Vec<EquityResult>, EquityError>(EquityError::BoardLength),
            self.hero_range() is Some && self.vs_range() is Some && board@.len() == 5 ==> outcome is Ok
                && leaf_results(
                self.table(),
                self.hero_range()->Some_0,
                self.vs_range()->Some_0,
                board@,
                outcome->Ok_0@,
            ),
            self.hero_range() is Some && self.vs_range() is Some && 3 <= board@.len() <= 4
                ==> outcome is Ok && runout_results(
                self.table(),
                self.hero_range()->Some_0,
                self.vs_range()->Some_0,
                board@,
                outcome->Ok_0@,
            ),
    {
        match &self.cached_hero_range {
            None => Err(EquityError::NoHeroRange),
            Some(hero_range) => match &self.cached_vs_range {
                None => Err(EquityError::NoVillainRange),
                Some(vs_range) => calculate_equity_vs_range(
                    self.hand_ranks_data.as_slice(),
                    hero_range,
                    vs_range,
                    board,
                ),
            },
        }
    }

    /// Hold'em equity of every hero combo on a finished board. Refused
    /// while a range is missing (the hero's is looked for first) and on a
    /// board that does not hold 5 cards.
    pub fn leaf_equity_vs_range(&self, board: &[u8]) -> (outcome: Result<
        Vec<EquityResult>,
        EquityError,
    >)
        requires
            valid_cards(board@),
        ensures
            self.hero_range() is None ==> outcome == Err::<Vec<EquityResult>, EquityError>(
                EquityError::NoHeroRange,
            ),
            self.hero_range() is Some && self.vs_range() is None ==> outcome == Err::<
                Vec<EquityResult>,
                EquityError,
            >(EquityError::NoVillainRange),
            self.hero_range() is Some && self.vs_range() is Some && board@.len() != 5 ==> outcome
                == Err::<Vec<EquityResult>, EquityError>(EquityError::LeafBoardLength),
            self.hero_range() is Some && self.vs_range() is Some && board@.len() == 5 ==> outcome is Ok
                && leaf_results(
                self.table(),
                self.hero_range()->Some_0,
                self.vs_range()->Some_0,
                board@,
                outcome->Ok_0@,
            ),
    {
        match &self.cached_hero_range {
            None => Err(EquityError::NoHeroRange),
            Some(hero_range) => match &self.cached_vs_range {
                None => Err(EquityError::NoVillainRange),
                Some(vs_range) => {
                    if board.len() != 5 {
                        Err(EquityError::LeafBoardLength)
                    } else {
                        Ok(
                            calculate_leaf_equity(
                                self.hand_ranks_data.as_slice(),
                                hero_range,
                                vs_range,
                                board,
                            ),
                        )
                    }
                },
            },
        }
    }

    /// Omaha equity of the hero's hand on every board that `board` can
    /// become. Refused while no Omaha range is set, and on the shapes the
    /// engine refuses.
    pub fn omaha_equity_vs_range(&self, hero_hand: &[u8], board: &[u8]) -> (outcome: Result<
        Vec<RunoutEquities>,
        EquityError,
    >)
        requires
            valid_cards(board@),
            valid_cards(hero_hand@),
        ensures
            self.omaha_range() is None ==> outcome == Err::<Vec<RunoutEquities>, EquityError>(
                EquityError::NoOmahaRange,
            ),
            self.omaha_range() is Some ==> match omaha_shape_error(
                hero_hand@.len() as int,
                self.omaha_hand_size(),
                board@.len() as int,
            ) {
                Some(error) => outcome == Err::<Vec<RunoutEquities>, EquityError>(error),
                None => outcome is Ok && runouts_match(
                    outcome->Ok_0@,
                    self.table(),
                    hero_hand@,
                    self.omaha_range()->Some_0,
                    boards_to_come(board@, hero_hand@),
                ),
            },
    {
        proof {
            use_type_invariant(self);
        }
        match &self.cached_omaha_range {
            None => Err(EquityError::NoOmahaRange),
            Some(vs_range) => calculate_omaha_equity_vs_range(
                self.hand_ranks_data.as_slice(),
                hero_hand,
                vs_range,
                board,
            ),
        }
    }

    /// Omaha equity of the hero's hand on a finished board. Refused while
    /// no Omaha range is set, for a hand that does not hold 4, 5 or 6 cards,
    /// for a range of hands of another size, and for a board that does not
    /// hold 5 cards, in that order.
    pub fn omaha_leaf_equity_vs_range(&self, hero_hand: &[u8], board: &[u8]) -> (outcome: Result<
        RunoutEquities,
        EquityError,
    >)
        ensures
            self.omaha_range() is None ==> outcome == Err::<RunoutEquities, EquityError>(
                EquityError::NoOmahaRange,
            ),
            self.omaha_range() is Some ==> match omaha_shape_error(
                hero_hand@.len() as int,
                self.omaha_hand_size(),
                5,
            ) {
                Some(error) => outcome == Err::<RunoutEquities, EquityError>(error),
                None => if board@.len() != 5 {
                    outcome == Err::<RunoutEquities, EquityError>(EquityError::LeafBoardLength)
                } else {
                    outcome is Ok && runout_matches(
                        outcome->Ok_0,
                        self.table(),
                        hero_hand@,
                        self.omaha_range()->Some_0,
                        board@,
                    )
                },
            },
    {
        proof {
            use_type_invariant(self);
        }
        match &self.cached_omaha_range {
            None => Err(EquityError::NoOmahaRange),
            Some(vs_range) => {
                if hero_hand.len() < 4 || hero_hand.len() > 6 {
                    return Err(EquityError::HandSize { got: hero_hand.len() });
                }
                if hero_hand.len() != vs_range.hand_size() {
                    return Err(
                        EquityError::HandSizeMismatch {
                            hero: hero_hand.len(),
                            range: vs_range.hand_size(),
                        },
                    );
                }
                if board.len() != 5 {
                    return Err(EquityError::LeafBoardLength);
                }
                let board_cards: [u8; 5] = [board[0], board[1], board[2], board[3], board[4]];
                assert(board_cards@ =~= board@);
                Ok(
                    calculate_omaha_leaf_equity(
                        self.hand_ranks_data.as_slice(),
                        hero_hand,
                        vs_range,
                        &board_cards,
                    ),
                )
            },
        }
    }

    /// Omaha equity of the hero's hand on `num_runouts` boards drawn at
    /// random from a flop. Refused while no Omaha range is set, for a hand
    /// that does not hold 4, 5 or 6 cards, for a range of hands of another
    /// size, and for a flop that does not hold 3 cards, in that order.
    pub fn omaha_monte_carlo_flop(&self, hero_hand: &[u8], flop: &[u8], num_runouts: usize) -> (outcome:
        Result<Vec<RunoutEquities>, EquityError>)
        requires
            valid_cards(flop@),
            valid_cards(hero_hand@),
        ensures
            self.omaha_range() is None ==> outcome == Err::<Vec<RunoutEquities>, EquityError>(
                EquityError::NoOmahaRange,
            ),
            self.omaha_range() is Some ==> match omaha_shape_error(
                hero_hand@.len() as int,
                self.omaha_hand_size(),
                3,
            ) {
                Some(error) => outcome == Err::<Vec<RunoutEquities>, EquityError>(error),
                None => if flop@.len() != 3 {
                    outcome == Err::<Vec<RunoutEquities>, EquityError>(EquityError::FlopLength)
                } else {
                    &&& outcome is Ok
                    &&& outcome->Ok_0@.len() == num_runouts
                    &&& forall|k: int|
                        0 <= k < outcome->Ok_0@.len() ==> sampled_runout(
                            #[trigger] outcome->Ok_0@[k],
                            self.table(),
                            hero_hand@,
                            self.omaha_range()->Some_0,
                            flop@,
                        )
                },
            },
    {
        proof {
            use_type_invariant(self);
        }
        match &self.cached_omaha_range {
            None => Err(EquityError::NoOmahaRange),
            Some(vs_range) => {
                if hero_hand.len() < 4 || hero_hand.len() > 6 {
                    return Err(EquityError::HandSize { got: hero_hand.len() });
                }
                if hero_hand.len() != vs_range.hand_size() {
                    return Err(
                        EquityError::HandSizeMismatch {
                            hero: hero_hand.len(),
                            range: vs_range.hand_size(),
                        },
                    );
                }
                if flop.len() != 3 {
                    return Err(EquityError::FlopLength);
                }
                let flop_cards: [u8; 3] = [flop[0], flop[1], flop[2]];
                assert(flop_cards@ =~= flop@);
                Ok(
                    calculate_omaha_equity_monte_carlo_flop(
                        self.hand_ranks_data.as_slice(),
                        hero_hand,
                        vs_range,
                        &flop_cards,
                        num_runouts,
                    ),
                )
            },
        }
    }
}

} // verus!
