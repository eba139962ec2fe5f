//! A Hold'em range: one weight for each of the 1326 combos.

use vstd::prelude::*;
use crate::cards::{
    combo_cards, combo_index, lemma_index_of_combo, lemma_triangle_step, triangle, COMBO_COUNT,
};

verus! {

/// Why a hand could not be entered into a range.
#[derive(Debug, Clone, Copy, PartialEq, Eq, Structural)]
pub enum RangeError {
    /// The hand does not hold exactly two cards.
    HandLength,
    /// The two cards name no slot below 1326.
    InvalidHand,
}

/// A dense vector of 1326 weights; a weight of 0 means the combo is absent.
#[derive(Debug, PartialEq, Eq)]
pub struct HoldemRange {
    range: Vec<u64>,
}

impl View for HoldemRange {
    type V = Seq<u64>;

    closed spec fn view(&self) -> Seq<u64> {
        Seq::new(COMBO_COUNT as nat, |i: int| self.range@[i])
    }
}

impl Clone for HoldemRange {
    fn clone(&self) -> (r: Self)
        ensures
            r@ == self@,
    {
        proof {
            use_type_invariant(self);
        }
        let r = HoldemRange { range: self.range.clone() };
        assert(r@ =~= self@);
        r
    }
}

impl Default for HoldemRange {
    fn default() -> (r: Self)
        ensures
            r@ == Seq::new(COMBO_COUNT as nat, |i: int| 0u64),
    {
        let range: Vec<u64> = vec![0u64; COMBO_COUNT];
        let r = HoldemRange { range };
        assert(r@ =~= Seq::new(COMBO_COUNT as nat, |i: int| 0u64));
        r
    }
}

impl HoldemRange {
    #[verifier::type_invariant]
    spec fn well_formed(&self) -> bool {
        self.range@.len() == COMBO_COUNT
    }

    /// A range has a weight for each of the 1326 slots.
    pub proof fn lemma_slots(&self)
        ensures
            self@.len() == COMBO_COUNT,
    {
    }

    /// The slot that `hand` names: the triangular formula on its larger and
    /// smaller card.
    pub open spec fn slot_of(hand: Seq<u8>) -> int {
        if hand[0] < hand[1] {
            combo_index(hand[0] as int, hand[1] as int)
        } else {
            combo_index(hand[1] as int, hand[0] as int)
        }
    }

    /// The range in which every combo is absent.
    pub fn new() -> (r: Self)
        ensures
            r@ == Seq::new(COMBO_COUNT as nat, |i: int| 0u64),
    {
        Self::default()
    }

    /// A copy of the 1326 weights.
    pub fn get_range(&self) -> (weights: Vec<u64>)
        ensures
            weights@ == self@,
    {
        proof {
            use_type_invariant(self);
        }
        let weights = self.range.clone();
        assert(weights@ =~= self@);
        weights
    }

    /// The weight in slot `idx`; 0 where there is no such slot.
    pub fn get_weight(&self, idx: usize) -> (weight: u64)
        ensures
            weight == (if idx < COMBO_COUNT { self@[idx as int] } else { 0 }),
    {
        proof {
            use_type_invariant(self);
        }
        if idx < self.range.len() {
            self.range[idx]
        } else {
            0
        }
    }

    /// Puts `weight` in slot `idx`; does nothing where there is no such slot.
    pub fn set(&mut self, idx: usize, weight: u64)
        ensures
            final(self)@ == (if idx < COMBO_COUNT {
                old(self)@.update(idx as int, weight)
            } else {
                old(self)@
            }),
    {
        proof {
            use_type_invariant(&*self);
        }
        if idx < self.range.len() {
            self.range[idx] = weight;
        }
        assert(self@ =~= (if idx < COMBO_COUNT {
            old(self)@.update(idx as int, weight)
        } else {
            old(self)@
        }));
    }

    /// Sets the weight of a two-card hand. Refused where the hand does not
    /// hold two cards or its cards name no slot.
    pub fn set_hand(&mut self, hand: &[u8], weight: u64) -> (done: Result<(), RangeError>)
        ensures
            hand@.len() != 2 ==> done == Err::<(), RangeError>(RangeError::HandLength) && final(self)@
                == old(self)@,
            hand@.len() == 2 && Self::slot_of(hand@) >= COMBO_COUNT ==> done == Err::<
                (),
                RangeError,
            >(RangeError::InvalidHand) && final(self)@ == old(self)@,
            hand@.len() == 2 && Self::slot_of(hand@) < COMBO_COUNT ==> done is Ok && final(self)@
                == old(self)@.update(Self::slot_of(hand@), weight),
    {
        proof {
            use_type_invariant(&*self);
        }
        if hand.len() != 2 {
            return Err(RangeError::HandLength);
        }
        let hand_array: [u8; 2] = [hand[0], hand[1]];
        let hand_idx: usize = Self::get_hand_idx(hand_array);
        if hand_idx >= 1326 {
            return Err(RangeError::InvalidHand);
        }
        self.set(hand_idx, weight);
        Ok(())
    }

    /// The two cards of slot `idx` as a vector.
    pub fn from_hand_idx_wasm(idx: usize) -> (cards: Vec<u8>)
        ensures
            cards@ == (if idx < COMBO_COUNT { combo_cards(idx as int) } else { seq![1u8, 0u8] }),
    {
        let hand: [u8; 2] = Self::from_hand_idx(idx);
        let mut cards: Vec<u8> = Vec::with_capacity(2);
        cards.push(hand[0]);
        cards.push(hand[1]);
        assert(cards@ =~= hand@);
        cards
    }

    /// The slot of the hand made of the first two cards of `hand`.
    pub fn get_hand_idx_wasm(hand: Vec<u8>) -> (idx: usize)
        requires
            hand@.len() >= 2,
        ensures
            idx == Self::slot_of(hand@.take(2)),
    {
        let hand_array: [u8; 2] = [hand[0], hand[1]];
        assert(hand_array@ =~= hand@.take(2));
        Self::get_hand_idx(hand_array)
    }

    /// The slots below `n` that have weight, in increasing order.
    pub open spec fn weighted_slots(weights: Seq<u64>, n: int) -> Seq<int>
        decreases n,
    {
        if n <= 0 {
            Seq::empty()
        } else if weights[n - 1] > 0 {
            Self::weighted_slots(weights, n - 1).push(n - 1)
        } else {
            Self::weighted_slots(weights, n - 1)
        }
    }

    /// The weighted slots are the slots with weight, each once, in
    /// increasing order.
    pub proof fn lemma_weighted_slots(weights: Seq<u64>, n: int)
        requires
            0 <= n <= weights.len(),
        ensures
            Self::weighted_slots(weights, n).len() <= n,
            forall|k: int|
                0 <= k < Self::weighted_slots(weights, n).len() ==> {
                    let slot = #[trigger] Self::weighted_slots(weights, n)[k];
                    0 <= slot < n && weights[slot] > 0
                },
            forall|i: int, j: int|
                0 <= i < j < Self::weighted_slots(weights, n).len() ==> Self::weighted_slots(
                    weights,
                    n,
                )[i] < Self::weighted_slots(weights, n)[j],
            forall|slot: int|
                0 <= slot < n && weights[slot] > 0 ==> Self::weighted_slots(weights, n).contains(
                    slot,
                ),
        decreases n,
    {
        if n > 0 {
            Self::lemma_weighted_slots(weights, n - 1);
            let before = Self::weighted_slots(weights, n - 1);
            let now = Self::weighted_slots(weights, n);
            assert forall|slot: int| 0 <= slot < n && weights[slot] > 0 implies now.contains(
                slot,
            ) by {
                if slot < n - 1 {
                    assert(before.contains(slot));
                    let k = choose|k: int| 0 <= k < before.len() && before[k] == slot;
                    assert(now[k] == slot);
                } else {
                    assert(now[before.len() as int] == slot);
                }
            }
        }
    }

    /// The weight and the slot of every combo with weight, in slot order.
    pub fn for_each_weighted(&self) -> (pairs: Vec<(u64, usize)>)
        ensures
            pairs@.len() == Self::weighted_slots(self@, COMBO_COUNT as int).len(),
            forall|k: int|
                0 <= k < pairs@.len() ==> {
                    &&& (#[trigger] pairs@[k]).1 == Self::weighted_slots(self@, COMBO_COUNT as int)[k]
                    &&& pairs@[k].1 < COMBO_COUNT
                    &&& pairs@[k].0 == self@[pairs@[k].1 as int]
                },
    {
        proof {
            use_type_invariant(self);
        }
        let mut pairs: Vec<(u64, usize)> = Vec::new();
        let mut i: usize = 0;
        while i < 1326
            invariant
                i <= COMBO_COUNT,
                self.range@.len() == COMBO_COUNT,
                self@ =~= self.range@,
                pairs@.len() == Self::weighted_slots(self@, i as int).len(),
                forall|k: int|
                    0 <= k < pairs@.len() ==> {
                        &&& (#[trigger] pairs@[k]).1 == Self::weighted_slots(self@, i as int)[k]
                        &&& pairs@[k].1 < i
                        &&& pairs@[k].0 == self@[pairs@[k].1 as int]
                    },
            decreases COMBO_COUNT - i,
        {
            let weight: u64 = self.range[i];
            if weight > 0 {
                pairs.push((weight, i));
            }
            i += 1;
        }
        pairs
    }

    /// The two cards of slot `idx`, lower card first; `[1, 0]` where there
    /// is no such slot.
    pub fn from_hand_idx(idx: usize) -> (hand: [u8; 2])
        ensures
            hand@ == (if idx < COMBO_COUNT { combo_cards(idx as int) } else { seq![1u8, 0u8] }),
    {
        if idx >= 1326 {
            let hand: [u8; 2] = [1, 0];
            assert(hand@ =~= seq![1u8, 0u8]);
            return hand;
        }
        let mut hi: usize = 1;
        let mut base: usize = 0;
        proof {
            assert(triangle(1) == 0) by (nonlinear_arith);
            assert(triangle(52) == 1326) by (nonlinear_arith);
        }
        while base + hi <= idx
            invariant
                1 <= hi <= 51,
                base == triangle(hi as int),
                base <= idx < COMBO_COUNT,
                triangle(52) == 1326,
            decreases 52 - hi,
        {
            proof {
                lemma_triangle_step(hi as int);
                if hi == 51 {
                    lemma_triangle_step(51);
                }
            }
            base = base + hi;
            hi += 1;
        }
        let lo: usize = idx - base;
        proof {
            lemma_index_of_combo(lo as int, hi as int);
        }
        let hand: [u8; 2] = [lo as u8, hi as u8];
        assert(hand@ =~= combo_cards(idx as int));
        hand
    }

    /// Orders the two cards, larger first.
    pub fn sort_two_cards_desc(hand: &mut [u8; 2])
        ensures
            final(hand)@ == (if old(hand)@[0] < old(hand)@[1] {
                seq![old(hand)@[1], old(hand)@[0]]
            } else {
                old(hand)@
            }),
    {
        if hand[0] < hand[1] {
            let first: u8 = hand[0];
            hand[0] = hand[1];
            hand[1] = first;
            assert(hand@ =~= seq![old(hand)@[1], old(hand)@[0]]);
        }
    }

    /// The slot of a two-card hand, whichever way round it is given.
    pub fn get_hand_idx(hand: [u8; 2]) -> (idx: usize)
        ensures
            idx == Self::slot_of(hand@),
    {
        let mut hand = hand;
        Self::sort_two_cards_desc(&mut hand);
        let hi: usize = hand[0] as usize;
        let lo: usize = hand[1] as usize;
        if hi == 0 {
            assert(triangle(0) == 0) by (nonlinear_arith);
            lo
        } else {
            assert(hi * (hi - 1) <= 255 * 254) by (nonlinear_arith)
                requires
                    1 <= hi <= 255,
            ;
            (hi * (hi - 1)) / 2 + lo
        }
    }
}

} // verus!
