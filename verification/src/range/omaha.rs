//! An Omaha range: a list of hands of one size, each with a weight.

use vstd::prelude::*;
use vstd::slice::slice_subrange;

verus! {

/// Hands of 4, 5 or 6 hole cards with their weights, in the order they were
/// added. A hand may occur more than once; each occurrence counts.
#[derive(Debug, PartialEq, Eq)]
pub struct OmahaRange {
    hands: Vec<[u8; 6]>,
    weights: Vec<u64>,
    hand_size: usize,
}

impl View for OmahaRange {
    type V = Seq<(Seq<u8>, u64)>;

    closed spec fn view(&self) -> Seq<(Seq<u8>, u64)> {
        Seq::new(
            self.hands@.len(),
            |i: int| (self.hands@[i]@.take(self.hand_size as int), self.weights@[i]),
        )
    }
}

impl Clone for OmahaRange {
    fn clone(&self) -> (r: Self)
        ensures
            r@ == self@,
            r.cards_per_hand() == self.cards_per_hand(),
            self.wf() ==> r.wf(),
    {
        let r = OmahaRange {
            hands: self.hands.clone(),
            weights: self.weights.clone(),
            hand_size: self.hand_size,
        };
        assert(r@ =~= self@);
        r
    }
}

impl Default for OmahaRange {
    fn default() -> (r: Self)
        ensures
            r.wf(),
            r.cards_per_hand() == 4,
            r@ == Seq::<(Seq<u8>, u64)>::empty(),
    {
        Self::new(4)
    }
}

impl OmahaRange {
    /// The size every hand of the range has.
    pub closed spec fn cards_per_hand(&self) -> int {
        self.hand_size as int
    }

    /// The range is well formed: its hand size is 4, 5 or 6, each hand has
    /// its weight, and each hand holds that many cards.
    pub closed spec fn wf(&self) -> bool {
        &&& 4 <= self.hand_size <= 6
        &&& self.hands@.len() == self.weights@.len()
    }

    /// In a well-formed range every hand has the range's size.
    pub proof fn lemma_hand_sizes(&self)
        requires
            self.wf(),
        ensures
            4 <= self.cards_per_hand() <= 6,
            forall|i: int| 0 <= i < self@.len() ==> (#[trigger] self@[i]).0.len() == self.cards_per_hand(),
    {
    }

    /// An empty range for hands of `hand_size` cards.
    pub fn new(hand_size: usize) -> (r: Self)
        requires
            4 <= hand_size <= 6,
        ensures
            r.wf(),
            r.cards_per_hand() == hand_size,
            r@ == Seq::<(Seq<u8>, u64)>::empty(),
    {
        let r = OmahaRange { hands: Vec::new(), weights: Vec::new(), hand_size };
        assert(r@ =~= Seq::<(Seq<u8>, u64)>::empty());
        r
    }

    /// Appends a hand with its weight.
    pub fn add_hand(&mut self, hand: &[u8], weight: u64)
        requires
            old(self).wf(),
            hand@.len() == old(self).cards_per_hand(),
        ensures
            final(self).wf(),
            final(self).cards_per_hand() == old(self).cards_per_hand(),
            final(self)@ == old(self)@.push((hand@, weight)),
    {
        let mut hand_array: [u8; 6] = [0u8; 6];
        let mut i: usize = 0;
        while i < hand.len()
            invariant
                i <= hand@.len() <= 6,
                forall|j: int| 0 <= j < i ==> hand_array@[j] == hand@[j],
            decreases hand@.len() - i,
        {
            hand_array[i] = hand[i];
            i += 1;
        }
        self.hands.push(hand_array);
        self.weights.push(weight);
        proof {
            assert(hand_array@.take(self.hand_size as int) =~= hand@);
            assert(self@ =~= old(self)@.push((hand@, weight)));
        }
    }

    /// Number of hands in the range.
    pub fn len(&self) -> (n: usize)
        ensures
            n == self@.len(),
    {
        self.hands.len()
    }

    /// Whether the range holds no hand.
    pub fn is_empty(&self) -> (empty: bool)
        ensures
            empty == (self@.len() == 0),
    {
        self.hands.len() == 0
    }

    /// The size every hand of the range has.
    pub fn hand_size(&self) -> (size: usize)
        ensures
            size == self.cards_per_hand(),
    {
        self.hand_size
    }

    /// The size every hand of the range has.
    pub fn get_hand_size(&self) -> (size: usize)
        ensures
            size == self.cards_per_hand(),
    {
        self.hand_size
    }

    /// The cards of hand `idx`, if there is one.
    pub fn get_hand(&self, idx: usize) -> (hand: Option<&[u8]>)
        requires
            self.wf(),
        ensures
            idx < self@.len() ==> hand is Some && hand->Some_0@ == self@[idx as int].0,
            idx >= self@.len() ==> hand is None,
    {
        if idx < self.hands.len() {
            Some(slice_subrange(self.hands[idx].as_slice(), 0, self.hand_size))
        } else {
            None
        }
    }

    /// The weight of hand `idx`, if there is one.
    pub fn get_weight(&self, idx: usize) -> (weight: Option<u64>)
        requires
            self.wf(),
        ensures
            weight == (if idx < self@.len() { Some(self@[idx as int].1) } else { None }),
    {
        if idx < self.weights.len() {
            Some(self.weights[idx])
        } else {
            None
        }
    }

    /// Every hand with its weight, in the order they were added.
    pub fn iter(&self) -> (entries: Vec<(&[u8], u64)>)
        requires
            self.wf(),
        ensures
            entries@.len() == self@.len(),
            forall|i: int|
                0 <= i < entries@.len() ==> (#[trigger] entries@[i]).0@ == self@[i].0 && entries@[i].1
                    == self@[i].1,
    {
        let mut entries: Vec<(&[u8], u64)> = Vec::with_capacity(self.hands.len());
        let mut i: usize = 0;
        while i < self.hands.len()
            invariant
                self.wf(),
                i <= self.hands@.len(),
                entries@.len() == i,
                forall|j: int|
                    0 <= j < i ==> (#[trigger] entries@[j]).0@ == self@[j].0 && entries@[j].1
                        == self@[j].1,
            decreases self.hands@.len() - i,
        {
            let hand: &[u8] = slice_subrange(self.hands[i].as_slice(), 0, self.hand_size);
            entries.push((hand, self.weights[i]));
            i += 1;
        }
        entries
    }
}

} // verus!
