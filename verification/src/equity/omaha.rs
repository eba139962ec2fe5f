//! Omaha equity: one hero hand against a weighted range of hands, where a
//! hand is made of exactly two hole cards and exactly three board cards.

use rand::rngs::ThreadRng;
use rand::Rng;
use vstd::prelude::*;
use crate::cards::{
    cards_to_mask, has_card, mask_contains, mask_has, mask_of, mask_union, valid_cards, DECK_SIZE,
};
use crate::combinations::{
    hole_pair, hole_pair_count, lemma_pair_table, lemma_triple_table, pair_count, pair_row,
    pair_table, triple_row, BOARD_COMBOS_3_FROM_5,
};
use crate::evaluator::{gen_board_eval, hand_rank};
use crate::range::omaha::OmahaRange;
use crate::sums::seq_sum;
use crate::types::{Equity, EquityError, Outcome};

verus! {

/// The equity of the hero's hand on one finished board.
#[derive(Debug, Clone, Copy, PartialEq, Eq)]
pub struct RunoutEquities {
    pub board: [u8; 5],
    pub equity: Equity,
}

impl RunoutEquities {
    /// The five cards of the board.
    pub fn board(&self) -> (cards: Vec<u8>)
        ensures
            cards@ == self.board@,
    {
        let mut cards: Vec<u8> = Vec::with_capacity(5);
        let mut i: usize = 0;
        while i < 5
            invariant
                i <= 5,
                cards@.len() == i,
                forall|j: int| 0 <= j < i ==> cards@[j] == self.board@[j],
            decreases 5 - i,
        {
            cards.push(self.board[i]);
            i += 1;
        }
        assert(cards@ =~= self.board@);
        cards
    }

    /// The masses of the hero's hand on this board.
    pub fn equity(&self) -> (equity: Equity)
        ensures
            equity == self.equity,
    {
        self.equity
    }
}

/// Whether the positions name a hand of two hole cards and three board
/// cards.
pub open spec fn is_sub_hand(hole_len: int, b1: int, b2: int, b3: int, h1: int, h2: int) -> bool {
    0 <= b1 < b2 < b3 < 5 && 0 <= h1 < h2 < hole_len
}

/// The rank of the hand made of the hole cards at `h1`, `h2` and the board
/// cards at `b1`, `b2`, `b3`.
pub open spec fn sub_rank(
    table: Seq<u8>,
    hole: Seq<u8>,
    board: Seq<u8>,
    b1: int,
    b2: int,
    b3: int,
    h1: int,
    h2: int,
) -> int {
    hand_rank(table, seq![board[b1], board[b2], board[b3]], seq![hole[h1], hole[h2]]) as int
}

/// Whether `rank` is the best rank among the hands of two hole cards and
/// three board cards.
pub open spec fn is_omaha_rank(table: Seq<u8>, hole: Seq<u8>, board: Seq<u8>, rank: int) -> bool {
    &&& exists|b1: int, b2: int, b3: int, h1: int, h2: int|
        is_sub_hand(hole.len() as int, b1, b2, b3, h1, h2) && #[trigger] sub_rank(
            table,
            hole,
            board,
            b1,
            b2,
            b3,
            h1,
            h2,
        ) == rank
    &&& forall|b1: int, b2: int, b3: int, h1: int, h2: int|
        is_sub_hand(hole.len() as int, b1, b2, b3, h1, h2) ==> #[trigger] sub_rank(
            table,
            hole,
            board,
            b1,
            b2,
            b3,
            h1,
            h2,
        ) <= rank
}

/// The rank of an Omaha hand on a finished board: the best rank among its
/// hands of two hole cards and three board cards.
pub open spec fn omaha_rank(table: Seq<u8>, hole: Seq<u8>, board: Seq<u8>) -> int {
    choose|rank: int| is_omaha_rank(table, hole, board, rank)
}

/// A hand has one best rank only.
pub proof fn lemma_omaha_rank_unique(table: Seq<u8>, hole: Seq<u8>, board: Seq<u8>, rank: int)
    requires
        is_omaha_rank(table, hole, board, rank),
    ensures
        omaha_rank(table, hole, board) == rank,
{
    let other = omaha_rank(table, hole, board);
    assert(is_omaha_rank(table, hole, board, other));
}

/// The best rank that `hole_cards` reach on `board` with exactly two hole
/// cards and exactly three board cards.
pub fn eval_omaha_hand(ranks_data: &[u8], hole_cards: &[u8], board: &[u8; 5]) -> (best_rank: i32)
    requires
        4 <= hole_cards@.len() <= 6,
    ensures
        is_omaha_rank(ranks_data@, hole_cards@, board@, best_rank as int),
        best_rank == omaha_rank(ranks_data@, hole_cards@, board@),
{
    let hand_size: usize = hole_cards.len();
    let pairs: usize = hole_pair_count(hand_size);
    let ghost table = ranks_data@;
    let ghost hole = hole_cards@;
    let mut best_rank: i32 = i32::MIN;
    let ghost mut best_triple: int = 0;
    let ghost mut best_pair: int = 0;
    proof {
        lemma_triple_table();
        lemma_pair_table(hand_size as int);
    }
    let mut t: usize = 0;
    while t < 10
        invariant
            t <= 10,
            hand_size == hole.len(),
            4 <= hand_size <= 6,
            pairs == pair_count(hand_size as int),
            pairs == pair_table(hand_size as int).len(),
            table == ranks_data@,
            hole == hole_cards@,
            t == 0 ==> best_rank == i32::MIN,
            t > 0 ==> 0 <= best_triple < t && 0 <= best_pair < pairs && best_rank == row_rank(
                table,
                hole,
                board@,
                best_triple,
                best_pair,
            ),
            forall|row: int, q: int|
                0 <= row < t && 0 <= q < pairs ==> #[trigger] row_rank(table, hole, board@, row, q)
                    <= best_rank,
        decreases 10 - t,
    {
        let b1: usize = BOARD_COMBOS_3_FROM_5[t][0];
        let b2: usize = BOARD_COMBOS_3_FROM_5[t][1];
        let b3: usize = BOARD_COMBOS_3_FROM_5[t][2];
        let board_triple: [u8; 3] = [board[b1], board[b2], board[b3]];
        let hand_eval = gen_board_eval(ranks_data, board_triple.as_slice());
        let mut q: usize = 0;
        while q < pairs
            invariant
                t < 10,
                q <= pairs,
                hand_size == hole.len(),
                4 <= hand_size <= 6,
                pairs == pair_count(hand_size as int),
                pairs == pair_table(hand_size as int).len(),
                table == ranks_data@,
                hole == hole_cards@,
                hand_eval.binds(table, board_triple@),
                board_triple@ == seq![
                    board@[BOARD_COMBOS_3_FROM_5@[t as int]@[0] as int],
                    board@[BOARD_COMBOS_3_FROM_5@[t as int]@[1] as int],
                    board@[BOARD_COMBOS_3_FROM_5@[t as int]@[2] as int],
                ],
                t == 0 && q == 0 ==> best_rank == i32::MIN,
                t > 0 || q > 0 ==> 0 <= best_triple <= t && 0 <= best_pair < pairs && (best_triple
                    == t ==> best_pair < q) && best_rank == row_rank(
                    table,
                    hole,
                    board@,
                    best_triple,
                    best_pair,
                ),
                forall|row: int, p: int|
                    0 <= row < t && 0 <= p < pairs ==> #[trigger] row_rank(table, hole, board@, row, p)
                        <= best_rank,
                forall|p: int| 0 <= p < q ==> #[trigger] row_rank(table, hole, board@, t as int, p) <= best_rank,
            decreases pairs - q,
        {
            let pair = hole_pair(hand_size, q);
            let hole_pair_cards: [u8; 2] = [hole_cards[pair.0], hole_cards[pair.1]];
            let rank: i32 = hand_eval.eval(hole_pair_cards.as_slice());
            proof {
                assert(hole_pair_cards@ =~= seq![hole[pair.0 as int], hole[pair.1 as int]]);
                assert(rank == hand_rank(table, board_triple@, hole_pair_cards@));
                assert(rank == row_rank(table, hole, board@, t as int, q as int));
            }
            if rank >= best_rank {
                best_rank = rank;
                proof {
                    best_triple = t as int;
                    best_pair = q as int;
                }
            }
            q += 1;
        }
        t += 1;
    }
    proof {
        let rank = best_rank as int;
        let b1 = BOARD_COMBOS_3_FROM_5@[best_triple]@[0] as int;
        let b2 = BOARD_COMBOS_3_FROM_5@[best_triple]@[1] as int;
        let b3 = BOARD_COMBOS_3_FROM_5@[best_triple]@[2] as int;
        let h1 = pair_table(hand_size as int)[best_pair]@[0] as int;
        let h2 = pair_table(hand_size as int)[best_pair]@[1] as int;
        assert(is_sub_hand(hole.len() as int, b1, b2, b3, h1, h2));
        assert(sub_rank(table, hole, board@, b1, b2, b3, h1, h2) == rank);
        assert forall|b1: int, b2: int, b3: int, h1: int, h2: int|
            is_sub_hand(hole.len() as int, b1, b2, b3, h1, h2) implies #[trigger] sub_rank(
            table,
            hole,
            board@,
            b1,
            b2,
            b3,
            h1,
            h2,
        ) <= rank by {
            let row = triple_row(b1, b2, b3);
            let q = pair_row(hand_size as int, h1, h2);
            assert(row_rank(table, hole, board@, row, q) <= best_rank);
        }
        lemma_omaha_rank_unique(table, hole, board@, rank);
    }
    best_rank
}

/// The rank of the hand named by row `row` of the triple table and row
/// `q` of the pair table for the hand's size.
pub open spec fn row_rank(table: Seq<u8>, hole: Seq<u8>, board: Seq<u8>, row: int, q: int) -> int {
    sub_rank(
        table,
        hole,
        board,
        BOARD_COMBOS_3_FROM_5@[row]@[0] as int,
        BOARD_COMBOS_3_FROM_5@[row]@[1] as int,
        BOARD_COMBOS_3_FROM_5@[row]@[2] as int,
        pair_table(hole.len() as int)[q]@[0] as int,
        pair_table(hole.len() as int)[q]@[1] as int,
    )
}

/// Whether the two hands have a card in common.
pub open spec fn share_card(a: Seq<u8>, b: Seq<u8>) -> bool {
    exists|i: int, j: int| 0 <= i < a.len() && 0 <= j < b.len() && #[trigger] a[i] == #[trigger] b[j]
}

/// Whether two hands have a card in common.
pub fn hands_overlap(hand1: &[u8], hand2: &[u8]) -> (overlap: bool)
    ensures
        overlap == share_card(hand1@, hand2@),
{
    let mut i: usize = 0;
    while i < hand1.len()
        invariant
            i <= hand1@.len(),
            forall|a: int, b: int|
                0 <= a < i && 0 <= b < hand2@.len() ==> #[trigger] hand1@[a] != #[trigger] hand2@[b],
        decreases hand1@.len() - i,
    {
        let mut j: usize = 0;
        while j < hand2.len()
            invariant
                i < hand1@.len(),
                j <= hand2@.len(),
                forall|b: int| 0 <= b < j ==> hand1@[i as int] != #[trigger] hand2@[b],
            decreases hand2@.len() - j,
        {
            if hand1[i] == hand2[j] {
                return true;
            }
            j += 1;
        }
        i += 1;
    }
    false
}

/// Whether a hand has a card in common with a finished board.
pub fn hand_overlaps_board(hand: &[u8], board: &[u8; 5]) -> (overlap: bool)
    ensures
        overlap == share_card(hand@, board@),
{
    hands_overlap(hand, board.as_slice())
}

/// The weight of a villain entry where the showdown ends in `outcome`; 0
/// where the villain's hand shares a card with the hero's or with the board.
pub open spec fn omaha_term(
    outcome: Outcome,
    table: Seq<u8>,
    hero: Seq<u8>,
    board: Seq<u8>,
) -> spec_fn((Seq<u8>, u64)) -> int {
    |entry: (Seq<u8>, u64)|
        {
            let hero_rank = omaha_rank(table, hero, board);
            let villain_rank = omaha_rank(table, entry.0, board);
            let hit = match outcome {
                Outcome::Win => hero_rank > villain_rank,
                Outcome::Tie => hero_rank == villain_rank,
                Outcome::Lose => hero_rank < villain_rank,
            };
            if !share_card(hero, entry.0) && !share_card(entry.0, board) && hit {
                entry.1 as int
            } else {
                0
            }
        }
}

/// The mass of one outcome for the hero's hand against the range on a
/// finished board.
pub open spec fn omaha_mass(
    outcome: Outcome,
    table: Seq<u8>,
    hero: Seq<u8>,
    range: Seq<(Seq<u8>, u64)>,
    board: Seq<u8>,
) -> int {
    seq_sum(range, omaha_term(outcome, table, hero, board))
}

/// Whether `runout` carries `board` and the three masses of the hero's hand
/// on it.
pub open spec fn runout_matches(
    runout: RunoutEquities,
    table: Seq<u8>,
    hero: Seq<u8>,
    range: Seq<(Seq<u8>, u64)>,
    board: Seq<u8>,
) -> bool {
    &&& runout.board@ == board
    &&& runout.equity.win == omaha_mass(Outcome::Win, table, hero, range, board)
    &&& runout.equity.tie == omaha_mass(Outcome::Tie, table, hero, range, board)
    &&& runout.equity.lose == omaha_mass(Outcome::Lose, table, hero, range, board)
}

/// Equity of one hero hand against the range on one finished board. A
/// villain hand that shares a card with the hero's hand or with the board
/// counts for nothing; every other adds its weight to the mass of the
/// outcome that the two best ranks decide.
pub fn calculate_omaha_leaf_equity(
    ranks_data: &[u8],
    hero_hand: &[u8],
    vs_range: &OmahaRange,
    board: &[u8; 5],
) -> (runout: RunoutEquities)
    requires
        vs_range.wf(),
        4 <= hero_hand@.len() <= 6,
    ensures
        runout_matches(runout, ranks_data@, hero_hand@, vs_range@, board@),
{
    let hero_rank: i32 = eval_omaha_hand(ranks_data, hero_hand, board);
    let ghost table = ranks_data@;
    let ghost hero = hero_hand@;
    let ghost range = vs_range@;
    let mut win_weight: u128 = 0;
    let mut tie_weight: u128 = 0;
    let mut lose_weight: u128 = 0;
    let entries: Vec<(&[u8], u64)> = vs_range.iter();
    let mut i: usize = 0;
    proof {
        vs_range.lemma_hand_sizes();
        assert(range.take(0) =~= Seq::<(Seq<u8>, u64)>::empty());
    }
    while i < entries.len()
        invariant
            i <= entries@.len(),
            entries@.len() == range.len(),
            table == ranks_data@,
            hero == hero_hand@,
            4 <= hero.len() <= 6,
            hero_rank == omaha_rank(table, hero, board@),
            forall|k: int|
                0 <= k < entries@.len() ==> (#[trigger] entries@[k]).0@ == range[k].0 && entries@[k].1
                    == range[k].1,
            forall|k: int| 0 <= k < range.len() ==> 4 <= (#[trigger] range[k]).0.len() <= 6,
            win_weight == seq_sum(range.take(i as int), omaha_term(Outcome::Win, table, hero, board@)),
            tie_weight == seq_sum(range.take(i as int), omaha_term(Outcome::Tie, table, hero, board@)),
            lose_weight == seq_sum(
                range.take(i as int),
                omaha_term(Outcome::Lose, table, hero, board@),
            ),
            win_weight + tie_weight + lose_weight <= i * u64::MAX,
        decreases entries@.len() - i,
    {
        let villain_hand: &[u8] = entries[i].0;
        let weight: u64 = entries[i].1;
        proof {
            let now = range.take(i + 1);
            assert(now.drop_last() =~= range.take(i as int));
            assert(now.last() == range[i as int]);
            assert(villain_hand@ == range[i as int].0);
        }
        if !(hands_overlap(hero_hand, villain_hand) || hand_overlaps_board(villain_hand, board)) {
            let villain_rank: i32 = eval_omaha_hand(ranks_data, villain_hand, board);
            if hero_rank > villain_rank {
                win_weight = win_weight + weight as u128;
            } else if hero_rank == villain_rank {
                tie_weight = tie_weight + weight as u128;
            } else {
                lose_weight = lose_weight + weight as u128;
            }
        }
        i += 1;
    }
    proof {
        assert(range.take(i as int) =~= range);
    }
    RunoutEquities {
        board: *board,
        equity: Equity { win: win_weight, tie: tie_weight, lose: lose_weight },
    }
}

/// The cards from `from` up to but not including `upto` that are not in
/// `used`, in increasing order.
pub open spec fn open_cards(used: Seq<u8>, from: int, upto: int) -> Seq<u8>
    decreases upto - from,
{
    if upto <= from {
        Seq::empty()
    } else if has_card(used, upto - 1) {
        open_cards(used, from, upto - 1)
    } else {
        open_cards(used, from, upto - 1).push((upto - 1) as u8)
    }
}

/// The boards that `board` becomes with each open card from `from` up to
/// `upto` as its last card, in increasing order of that card.
pub open spec fn river_boards(board: Seq<u8>, used: Seq<u8>, from: int, upto: int) -> Seq<Seq<u8>> {
    open_cards(used, from, upto).map_values(|river: u8| board.push(river))
}

/// The boards that `flop` becomes with each unordered pair of open cards,
/// the lower as turn and below `upto`, in increasing order of turn, then of
/// river.
pub open spec fn flop_boards(flop: Seq<u8>, used: Seq<u8>, upto: int) -> Seq<Seq<u8>>
    decreases upto,
{
    if upto <= 0 {
        Seq::empty()
    } else if has_card(used, upto - 1) {
        flop_boards(flop, used, upto - 1)
    } else {
        flop_boards(flop, used, upto - 1) + river_boards(
            flop.push((upto - 1) as u8),
            used,
            upto,
            DECK_SIZE as int,
        )
    }
}

/// Whether `runouts` holds, board by board, the equity of the hero's hand
/// on each of `boards`.
pub open spec fn runouts_match(
    runouts: Seq<RunoutEquities>,
    table: Seq<u8>,
    hero: Seq<u8>,
    range: Seq<(Seq<u8>, u64)>,
    boards: Seq<Seq<u8>>,
) -> bool {
    &&& runouts.len() == boards.len()
    &&& forall|k: int|
        0 <= k < runouts.len() ==> runout_matches(#[trigger] runouts[k], table, hero, range, boards[k])
}

/// Scores `board` completed by each open river from `from` on and appends
/// the runouts.
fn push_rivers(
    ranks_data: &[u8],
    hero_hand: &[u8],
    vs_range: &OmahaRange,
    board: &[u8; 4],
    used_mask: u64,
    from: u8,
    results: &mut Vec<RunoutEquities>,
    Ghost(used): Ghost<Seq<u8>>,
    Ghost(before): Ghost<Seq<Seq<u8>>>,
)
    requires
        vs_range.wf(),
        4 <= hero_hand@.len() <= 6,
        from <= DECK_SIZE,
        mask_of(used_mask, used),
        runouts_match(old(results)@, ranks_data@, hero_hand@, vs_range@, before),
    ensures
        runouts_match(
            final(results)@,
            ranks_data@,
            hero_hand@,
            vs_range@,
            before + river_boards(board@, used, from as int, DECK_SIZE as int),
        ),
{
    let mut river: u8 = from;
    proof {
        assert(before + river_boards(board@, used, from as int, from as int) =~= before);
    }
    while river < 52
        invariant
            from <= river <= DECK_SIZE,
            vs_range.wf(),
            4 <= hero_hand@.len() <= 6,
            mask_of(used_mask, used),
            runouts_match(
                results@,
                ranks_data@,
                hero_hand@,
                vs_range@,
                before + river_boards(board@, used, from as int, river as int),
            ),
        decreases 52 - river,
    {
        proof {
            assert(mask_has(used_mask, river as int) <==> has_card(used, river as int));
        }
        if !mask_contains(used_mask, river) {
            let full_board: [u8; 5] = [board[0], board[1], board[2], board[3], river];
            let runout = calculate_omaha_leaf_equity(ranks_data, hero_hand, vs_range, &full_board);
            let ghost old_results = results@;
            results.push(runout);
            proof {
                let sofar = before + river_boards(board@, used, from as int, river as int);
                let next = before + river_boards(board@, used, from as int, river + 1);
                assert(full_board@ =~= board@.push(river));
                assert(open_cards(used, from as int, river + 1) == open_cards(
                    used,
                    from as int,
                    river as int,
                ).push(river));
                assert(next =~= sofar.push(board@.push(river)));
                assert forall|k: int| 0 <= k < results@.len() implies runout_matches(
                    #[trigger] results@[k],
                    ranks_data@,
                    hero_hand@,
                    vs_range@,
                    next[k],
                ) by {
                    if k < old_results.len() {
                        assert(results@[k] == old_results[k]);
                        assert(next[k] == sofar[k]);
                    }
                }
            }
        }
        river += 1;
    }
}

/// The equity of the hero's hand on the turn board completed by each river
/// that is neither on the board nor in the hero's hand.
pub fn calculate_omaha_equity_from_turn(
    ranks_data: &[u8],
    hero_hand: &[u8],
    vs_range: &OmahaRange,
    board: &[u8; 4],
) -> (results: Vec<RunoutEquities>)
    requires
        vs_range.wf(),
        4 <= hero_hand@.len() <= 6,
        valid_cards(board@),
        valid_cards(hero_hand@),
    ensures
        runouts_match(
            results@,
            ranks_data@,
            hero_hand@,
            vs_range@,
            river_boards(board@, board@ + hero_hand@, 0, DECK_SIZE as int),
        ),
{
    let used_mask: u64 = mask_union(cards_to_mask(board.as_slice()), cards_to_mask(hero_hand));
    let mut results: Vec<RunoutEquities> = Vec::with_capacity(44);
    let ghost used = board@ + hero_hand@;
    let ghost before = Seq::<Seq<u8>>::empty();
    proof {
        assert(mask_of(used_mask, board@ + hero_hand@));
    }
    push_rivers(
        ranks_data,
        hero_hand,
        vs_range,
        board,
        used_mask,
        0,
        &mut results,
        Ghost(used),
        Ghost(before),
    );
    proof {
        assert(before + river_boards(board@, used, 0, DECK_SIZE as int) =~= river_boards(
            board@,
            used,
            0,
            DECK_SIZE as int,
        ));
    }
    results
}

/// The equity of the hero's hand on the flop completed by each unordered
/// pair of turn and river that are neither on the flop nor in the hero's
/// hand.
pub fn calculate_omaha_equity_from_flop(
    ranks_data: &[u8],
    hero_hand: &[u8],
    vs_range: &OmahaRange,
    board: &[u8; 3],
) -> (results: Vec<RunoutEquities>)
    requires
        vs_range.wf(),
        4 <= hero_hand@.len() <= 6,
        valid_cards(board@),
        valid_cards(hero_hand@),
    ensures
        runouts_match(
            results@,
            ranks_data@,
            hero_hand@,
            vs_range@,
            flop_boards(board@, board@ + hero_hand@, DECK_SIZE as int),
        ),
{
    let used_mask: u64 = mask_union(cards_to_mask(board.as_slice()), cards_to_mask(hero_hand));
    let mut results: Vec<RunoutEquities> = Vec::with_capacity(1980);
    let ghost used = board@ + hero_hand@;
    proof {
        assert(mask_of(used_mask, board@ + hero_hand@));
    }
    let mut turn: u8 = 0;
    while turn < 52
        invariant
            turn <= DECK_SIZE,
            vs_range.wf(),
            4 <= hero_hand@.len() <= 6,
            used == board@ + hero_hand@,
            mask_of(used_mask, used),
            runouts_match(
                results@,
                ranks_data@,
                hero_hand@,
                vs_range@,
                flop_boards(board@, used, turn as int),
            ),
        decreases 52 - turn,
    {
        proof {
            assert(mask_has(used_mask, turn as int) <==> has_card(used, turn as int));
        }
        if !mask_contains(used_mask, turn) {
            let with_turn: [u8; 4] = [board[0], board[1], board[2], turn];
            proof {
                assert(with_turn@ =~= board@.push(turn));
            }
            push_rivers(
                ranks_data,
                hero_hand,
                vs_range,
                &with_turn,
                used_mask,
                turn + 1,
                &mut results,
                Ghost(used),
                Ghost(flop_boards(board@, used, turn as int)),
            );
        }
        turn += 1;
    }
    results
}

/// The boards that a board of 3, 4 or 5 cards can become for a hero who
/// holds `hero`: the board itself where it is finished.
pub open spec fn boards_to_come(board: Seq<u8>, hero: Seq<u8>) -> Seq<Seq<u8>> {
    if board.len() == 5 {
        seq![board]
    } else if board.len() == 4 {
        river_boards(board, board + hero, 0, DECK_SIZE as int)
    } else {
        flop_boards(board, board + hero, DECK_SIZE as int)
    }
}

/// Why the shape of an Omaha query is refused, if it is: the hero's hand
/// size is looked at first, then its match with the range, then the board.
pub open spec fn omaha_shape_error(hero_len: int, range_size: int, board_len: int) -> Option<
    EquityError,
> {
    if !(4 <= hero_len <= 6) {
        Some(EquityError::HandSize { got: hero_len as usize })
    } else if hero_len != range_size {
        Some(EquityError::HandSizeMismatch { hero: hero_len as usize, range: range_size as usize })
    } else if !(3 <= board_len <= 5) {
        Some(EquityError::BoardLength)
    } else {
        None
    }
}

/// The equity of the hero's hand against the range on every board that
/// `board` can become: one runout for a finished board, one per river for a
/// turn board, one per unordered pair of turn and river for a flop. A hand
/// that does not hold 4, 5 or 6 cards, a range of hands of another size, and
/// a board of another length are refused.
pub fn calculate_omaha_equity_vs_range(
    ranks_data: &[u8],
    hero_hand: &[u8],
    vs_range: &OmahaRange,
    board: &[u8],
) -> (outcome: Result<Vec<RunoutEquities>, EquityError>)
    requires
        vs_range.wf(),
        valid_cards(board@),
        valid_cards(hero_hand@),
    ensures
        match omaha_shape_error(
            hero_hand@.len() as int,
            vs_range.cards_per_hand(),
            board@.len() as int,
        ) {
            Some(error) => outcome == Err::<Vec<RunoutEquities>, EquityError>(error),
            None => outcome is Ok && runouts_match(
                outcome->Ok_0@,
                ranks_data@,
                hero_hand@,
                vs_range@,
                boards_to_come(board@, hero_hand@),
            ),
        },
{
    if hero_hand.len() < 4 || hero_hand.len() > 6 {
        return Err(EquityError::HandSize { got: hero_hand.len() });
    }
    if hero_hand.len() != vs_range.get_hand_size() {
        return Err(
            EquityError::HandSizeMismatch { hero: hero_hand.len(), range: vs_range.get_hand_size() },
        );
    }
    if board.len() == 3 {
        let board_cards: [u8; 3] = [board[0], board[1], board[2]];
        assert(board_cards@ =~= board@);
        Ok(calculate_omaha_equity_from_flop(ranks_data, hero_hand, vs_range, &board_cards))
    } else if board.len() == 4 {
        let board_cards: [u8; 4] = [board[0], board[1], board[2], board[3]];
        assert(board_cards@ =~= board@);
        Ok(calculate_omaha_equity_from_turn(ranks_data, hero_hand, vs_range, &board_cards))
    } else if board.len() == 5 {
        let board_cards: [u8; 5] = [board[0], board[1], board[2], board[3], board[4]];
        assert(board_cards@ =~= board@);
        let runout = calculate_omaha_leaf_equity(ranks_data, hero_hand, vs_range, &board_cards);
        let mut results: Vec<RunoutEquities> = Vec::with_capacity(1);
        results.push(runout);
        Ok(results)
    } else {
        Err(EquityError::BoardLength)
    }
}

/// The generator handle of the `rand` crate that is local to the thread.
/// Nothing is known of what it holds.
#[verifier::external_type_specification]
#[verifier::external_body]
pub struct ExThreadRng(ThreadRng);

/// Calls `rand::rng`, which hands out the thread's generator. Nothing is
/// claimed of it.
#[verifier::external_body]
fn thread_rng() -> ThreadRng {
    rand::rng()
}

/// Calls `Rng::random_range` on the half-open range from 0 to `bound`.
/// Believed of it: the number drawn lies in that range. Which number comes
/// is left open; an empty range, on which the call panics, is excluded.
#[verifier::external_body]
fn random_below(rng: &mut ThreadRng, bound: usize) -> (index: usize)
    requires
        bound > 0,
    ensures
        index < bound,
{
    rng.random_range(0..bound)
}

/// Whether at least two cards of the deck are outside the set `mask`.
pub open spec fn two_free(mask: u64) -> bool {
    exists|a: int, b: int|
        0 <= a < b < DECK_SIZE && !#[trigger] mask_has(mask, a) && !#[trigger] mask_has(mask, b)
}

/// Takes the card at position `first` out of `available`, moving the last
/// card into its place, then the card at position `second` of what is left.
pub fn pick_two(available: Vec<u8>, first: usize, second: usize) -> (pair: [u8; 2])
    requires
        first < available@.len(),
        second < available@.len() - 1,
    ensures
        pair@ == seq![
            available@[first as int],
            available@.update(first as int, available@.last()).drop_last()[second as int],
        ],
{
    let mut available = available;
    let card1: u8 = available.swap_remove(first);
    let card2: u8 = available.swap_remove(second);
    let pair: [u8; 2] = [card1, card2];
    assert(pair@ =~= seq![card1, card2]);
    pair
}

/// Draws two different cards from outside the set `used_mask`; none where
/// fewer than two cards are outside it.
pub fn sample_two_cards(used_mask: u64) -> (drawn: Option<[u8; 2]>)
    ensures
        drawn is Some <==> two_free(used_mask),
        drawn matches Some(pair) ==> {
            &&& pair@[0] != pair@[1]
            &&& pair@[0] < DECK_SIZE && pair@[1] < DECK_SIZE
            &&& !mask_has(used_mask, pair@[0] as int)
            &&& !mask_has(used_mask, pair@[1] as int)
        },
{
    let mut available: Vec<u8> = Vec::with_capacity(52);
    let mut card: u8 = 0;
    while card < 52
        invariant
            card <= DECK_SIZE,
            forall|k: int|
                0 <= k < available@.len() ==> (#[trigger] available@[k]) < card && !mask_has(
                    used_mask,
                    available@[k] as int,
                ),
            forall|i: int, j: int| 0 <= i < j < available@.len() ==> available@[i] < available@[j],
            forall|c: int|
                0 <= c < card && !#[trigger] mask_has(used_mask, c) ==> exists|k: int|
                    0 <= k < available@.len() && #[trigger] available@[k] == c,
        decreases 52 - card,
    {
        if !mask_contains(used_mask, card) {
            let ghost before = available@;
            available.push(card);
            proof {
                assert forall|c: int| 0 <= c < card + 1 && !#[trigger] mask_has(
                    used_mask,
                    c,
                ) implies exists|k: int| 0 <= k < available@.len() && #[trigger] available@[k] == c by {
                    if c < card {
                        let k = choose|k: int| 0 <= k < before.len() && #[trigger] before[k] == c;
                        assert(available@[k] == c);
                    } else {
                        assert(available@[before.len() as int] == c);
                    }
                }
            }
        }
        card += 1;
    }
    if available.len() < 2 {
        proof {
            if two_free(used_mask) {
                let (a, b) = choose|a: int, b: int|
                    0 <= a < b < DECK_SIZE && !#[trigger] mask_has(used_mask, a) && !#[trigger] mask_has(
                        used_mask,
                        b,
                    );
                let ka = choose|k: int| 0 <= k < available@.len() && #[trigger] available@[k] == a;
                let kb = choose|k: int| 0 <= k < available@.len() && #[trigger] available@[k] == b;
                assert(ka != kb);
            }
        }
        return None;
    }
    proof {
        let a = available@[0] as int;
        let b = available@[1] as int;
        assert(!mask_has(used_mask, a) && !mask_has(used_mask, b));
    }
    let mut rng: ThreadRng = thread_rng();
    let idx1: usize = random_below(&mut rng, available.len());
    let idx2: usize = random_below(&mut rng, available.len() - 1);
    Some(pick_two(available, idx1, idx2))
}

/// Whether `runout` is the equity of the hero's hand on the flop completed
/// by some two different cards that are neither on the flop nor in the
/// hero's hand.
pub open spec fn sampled_runout(
    runout: RunoutEquities,
    table: Seq<u8>,
    hero: Seq<u8>,
    range: Seq<(Seq<u8>, u64)>,
    flop: Seq<u8>,
) -> bool {
    exists|turn: u8, river: u8|
        {
            &&& turn != river
            &&& turn < DECK_SIZE && river < DECK_SIZE
            &&& !has_card(flop + hero, turn as int)
            &&& !has_card(flop + hero, river as int)
            &&& #[trigger] runout_matches(runout, table, hero, range, flop.push(turn).push(river))
        }
}

/// Whether at least two cards of the deck are not in `used`.
pub open spec fn two_open(used: Seq<u8>) -> bool {
    exists|a: int, b: int|
        0 <= a < b < DECK_SIZE && !#[trigger] has_card(used, a) && !#[trigger] has_card(used, b)
}

/// Number of cards below `n` that are in `used`.
pub open spec fn used_below(used: Seq<u8>, n: int) -> int
    decreases n,
{
    if n <= 0 {
        0
    } else {
        used_below(used, n - 1) + if has_card(used, n - 1) {
            1int
        } else {
            0int
        }
    }
}

proof fn lemma_used_below_grows(used: Seq<u8>, n: int)
    requires
        used.len() > 0,
    ensures
        used_below(used, n) <= used_below(used.drop_last(), n) + if used.last() < n {
            1int
        } else {
            0int
        },
    decreases n,
{
    if n > 0 {
        lemma_used_below_grows(used, n - 1);
        if has_card(used, n - 1) && n - 1 != used.last() {
            let i = choose|i: int| 0 <= i < used.len() && used[i] == n - 1;
            assert(used.drop_last()[i] == n - 1);
        }
    }
}

/// No more cards are in `used` than `used` is long.
pub proof fn lemma_used_below(used: Seq<u8>, n: int)
    ensures
        used_below(used, n) <= used.len(),
    decreases used.len(), n,
{
    if used.len() == 0 {
        if n > 0 {
            lemma_used_below(used, n - 1);
        }
    } else {
        lemma_used_below(used.drop_last(), n);
        lemma_used_below_grows(used, n);
    }
}

proof fn lemma_one_open(used: Seq<u8>, n: int) -> (a: int)
    requires
        used_below(used, n) < n,
    ensures
        0 <= a < n,
        !has_card(used, a),
    decreases n,
{
    if n <= 0 {
        0
    } else if !has_card(used, n - 1) {
        n - 1
    } else {
        lemma_one_open(used, n - 1)
    }
}

proof fn lemma_two_open_below(used: Seq<u8>, n: int) -> (pair: (int, int))
    requires
        used_below(used, n) + 1 < n,
    ensures
        0 <= pair.0 < pair.1 < n,
        !has_card(used, pair.0),
        !has_card(used, pair.1),
    decreases n,
{
    if n <= 0 {
        (0, 0)
    } else if !has_card(used, n - 1) {
        (lemma_one_open(used, n - 1), n - 1)
    } else {
        lemma_two_open_below(used, n - 1)
    }
}

/// Fifty cards or fewer leave two cards of the deck open.
pub proof fn lemma_two_open(used: Seq<u8>)
    requires
        used.len() <= 50,
    ensures
        two_open(used),
{
    lemma_used_below(used, DECK_SIZE as int);
    let pair = lemma_two_open_below(used, DECK_SIZE as int);
    assert(!has_card(used, pair.0) && !has_card(used, pair.1));
}

/// The equity of the hero's hand on `num_runouts` boards, each the flop
/// completed by a turn and a river drawn at random, without replacement,
/// from the cards that are neither on the flop nor in the hero's hand. The
/// samples come in the order drawn; a board may come more than once.
pub fn calculate_omaha_equity_monte_carlo_flop(
    ranks_data: &[u8],
    hero_hand: &[u8],
    vs_range: &OmahaRange,
    flop: &[u8; 3],
    num_runouts: usize,
) -> (results: Vec<RunoutEquities>)
    requires
        vs_range.wf(),
        4 <= hero_hand@.len() <= 6,
        valid_cards(flop@),
        valid_cards(hero_hand@),
    ensures
        results@.len() == num_runouts,
        forall|k: int|
            0 <= k < results@.len() ==> sampled_runout(
                #[trigger] results@[k],
                ranks_data@,
                hero_hand@,
                vs_range@,
                flop@,
            ),
{
    let used_mask: u64 = mask_union(cards_to_mask(flop.as_slice()), cards_to_mask(hero_hand));
    let mut results: Vec<RunoutEquities> = Vec::with_capacity(num_runouts);
    let ghost used = flop@ + hero_hand@;
    proof {
        assert(mask_of(used_mask, used));
        lemma_two_open(used);
        if two_free(used_mask) {
            let (a, b) = choose|a: int, b: int|
                0 <= a < b < DECK_SIZE && !#[trigger] mask_has(used_mask, a) && !#[trigger] mask_has(
                    used_mask,
                    b,
                );
            assert(!has_card(used, a) && !has_card(used, b));
        }
        if two_open(used) {
            let (a, b) = choose|a: int, b: int|
                0 <= a < b < DECK_SIZE && !#[trigger] has_card(used, a) && !#[trigger] has_card(used, b);
            assert(!mask_has(used_mask, a) && !mask_has(used_mask, b));
        }
    }
    let mut done: usize = 0;
    while done < num_runouts
        invariant
            done <= num_runouts,
            vs_range.wf(),
            4 <= hero_hand@.len() <= 6,
            used == flop@ + hero_hand@,
            mask_of(used_mask, used),
            two_free(used_mask) <==> two_open(used),
            results@.len() == (if two_open(used) { done as int } else { 0 }),
            forall|k: int|
                0 <= k < results@.len() ==> sampled_runout(
                    #[trigger] results@[k],
                    ranks_data@,
                    hero_hand@,
                    vs_range@,
                    flop@,
                ),
        decreases num_runouts - done,
    {
        match sample_two_cards(used_mask) {
            Some(pair) => {
                let turn: u8 = pair[0];
                let river: u8 = pair[1];
                let full_board: [u8; 5] = [flop[0], flop[1], flop[2], turn, river];
                let runout_equity = calculate_omaha_leaf_equity(
                    ranks_data,
                    hero_hand,
                    vs_range,
                    &full_board,
                );
                proof {
                    assert(full_board@ =~= flop@.push(turn).push(river));
                    assert(mask_has(used_mask, turn as int) <==> has_card(used, turn as int));
                    assert(mask_has(used_mask, river as int) <==> has_card(used, river as int));
                    assert(runout_matches(
                        runout_equity,
                        ranks_data@,
                        hero_hand@,
                        vs_range@,
                        flop@.push(turn).push(river),
                    ));
                }
                results.push(runout_equity);
            },
            None => {},
        }
        done += 1;
    }
    results
}

} // verus!
