//! The ways to pick two hole cards and three board cards, as index tables.

use vstd::prelude::*;

verus! {

/// The 6 ways to pick 2 of 4 hole cards, by position.
pub const HOLE_COMBOS_2_FROM_4: [[usize; 2]; 6] = [[0, 1], [0, 2], [0, 3], [1, 2], [1, 3], [2, 3]];

/// The 10 ways to pick 2 of 5 hole cards, by position.
pub const HOLE_COMBOS_2_FROM_5: [[usize; 2]; 10] = [
    [0, 1],
    [0, 2],
    [0, 3],
    [0, 4],
    [1, 2],
    [1, 3],
    [1, 4],
    [2, 3],
    [2, 4],
    [3, 4],
];

/// The 15 ways to pick 2 of 6 hole cards, by position.
pub const HOLE_COMBOS_2_FROM_6: [[usize; 2]; 15] = [
    [0, 1],
    [0, 2],
    [0, 3],
    [0, 4],
    [0, 5],
    [1, 2],
    [1, 3],
    [1, 4],
    [1, 5],
    [2, 3],
    [2, 4],
    [2, 5],
    [3, 4],
    [3, 5],
    [4, 5],
];

/// The 10 ways to pick 3 of the 5 board cards, by position.
pub const BOARD_COMBOS_3_FROM_5: [[usize; 3]; 10] = [
    [0, 1, 2],
    [0, 1, 3],
    [0, 1, 4],
    [0, 2, 3],
    [0, 2, 4],
    [0, 3, 4],
    [1, 2, 3],
    [1, 2, 4],
    [1, 3, 4],
    [2, 3, 4],
];

/// Number of pairs among `hand_size` hole cards.
pub open spec fn pair_count(hand_size: int) -> int {
    if hand_size == 4 {
        6
    } else if hand_size == 5 {
        10
    } else {
        15
    }
}

/// The table of pairs for a hand of `hand_size` cards.
pub open spec fn pair_table(hand_size: int) -> Seq<[usize; 2]> {
    if hand_size == 4 {
        HOLE_COMBOS_2_FROM_4@
    } else if hand_size == 5 {
        HOLE_COMBOS_2_FROM_5@
    } else {
        HOLE_COMBOS_2_FROM_6@
    }
}

/// The row of the pair table that holds the positions `first < second`.
pub open spec fn pair_row(hand_size: int, first: int, second: int) -> int {
    let before = if first == 0 {
        0
    } else if first == 1 {
        hand_size - 1
    } else if first == 2 {
        2 * hand_size - 3
    } else if first == 3 {
        3 * hand_size - 6
    } else {
        4 * hand_size - 10
    };
    before + (second - first - 1)
}

/// The row of the triple table that holds the positions `b1 < b2 < b3`.
pub open spec fn triple_row(b1: int, b2: int, b3: int) -> int {
    if b1 == 0 {
        if b2 == 1 {
            b3 - 2
        } else if b2 == 2 {
            b3
        } else {
            5
        }
    } else if b1 == 1 {
        if b2 == 2 {
            b3 + 3
        } else {
            8
        }
    } else {
        9
    }
}

/// Every row of a pair table holds two positions of the hand, the lower
/// first, and every such pair of positions has its row.
pub proof fn lemma_pair_table(hand_size: int)
    requires
        4 <= hand_size <= 6,
    ensures
        pair_table(hand_size).len() == pair_count(hand_size),
        forall|row: int|
            0 <= row < pair_table(hand_size).len() ==> (#[trigger] pair_table(hand_size)[row])@[0]
                < pair_table(hand_size)[row]@[1] < hand_size,
        forall|first: int, second: int|
            0 <= first < second < hand_size ==> {
                let row = #[trigger] pair_row(hand_size, first, second);
                &&& 0 <= row < pair_table(hand_size).len()
                &&& pair_table(hand_size)[row]@[0] == first
                &&& pair_table(hand_size)[row]@[1] == second
            },
{
}

/// Every row of the triple table holds three board positions in increasing
/// order, and every such triple of positions has its row.
pub proof fn lemma_triple_table()
    ensures
        forall|row: int|
            0 <= row < 10 ==> (#[trigger] BOARD_COMBOS_3_FROM_5@[row])@[0] < BOARD_COMBOS_3_FROM_5@[row]@[1]
                < BOARD_COMBOS_3_FROM_5@[row]@[2] < 5,
        forall|b1: int, b2: int, b3: int|
            0 <= b1 < b2 < b3 < 5 ==> {
                let row = #[trigger] triple_row(b1, b2, b3);
                &&& 0 <= row < 10
                &&& BOARD_COMBOS_3_FROM_5@[row]@[0] == b1
                &&& BOARD_COMBOS_3_FROM_5@[row]@[1] == b2
                &&& BOARD_COMBOS_3_FROM_5@[row]@[2] == b3
            },
{
}

/// The positions of the pair in row `row` of the table for `hand_size`.
pub fn hole_pair(hand_size: usize, row: usize) -> (pair: (usize, usize))
    requires
        4 <= hand_size <= 6,
        row < pair_count(hand_size as int),
    ensures
        pair.0 == pair_table(hand_size as int)[row as int]@[0],
        pair.1 == pair_table(hand_size as int)[row as int]@[1],
        pair.0 < pair.1 < hand_size,
{
    proof {
        lemma_pair_table(hand_size as int);
    }
    if hand_size == 4 {
        (HOLE_COMBOS_2_FROM_4[row][0], HOLE_COMBOS_2_FROM_4[row][1])
    } else if hand_size == 5 {
        (HOLE_COMBOS_2_FROM_5[row][0], HOLE_COMBOS_2_FROM_5[row][1])
    } else {
        (HOLE_COMBOS_2_FROM_6[row][0], HOLE_COMBOS_2_FROM_6[row][1])
    }
}

/// Number of rows in the pair table for `hand_size`.
pub fn hole_pair_count(hand_size: usize) -> (count: usize)
    requires
        4 <= hand_size <= 6,
    ensures
        count == pair_count(hand_size as int),
{
    if hand_size == 4 {
        6
    } else if hand_size == 5 {
        10
    } else {
        15
    }
}

} // verus!
