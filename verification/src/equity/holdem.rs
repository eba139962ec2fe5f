//! Hold'em equity: every hero combo against a weighted villain range.

use vstd::prelude::*;
use crate::cards::{
    cards_to_mask, combo_cards, combo_on_board, combos_overlap, has_card, lemma_combo_of_index,
    lemma_index_of_combo, lemma_triangle_step, mask_contains, mask_has, mask_of, triangle,
    valid_cards, COMBO_COUNT, DECK_SIZE,
};
use crate::equity::blocker::{
    block_around, blocked_prefix, combo_rank, describes, held_before, lemma_held_before_step,
    prefixes_of, rank_blocks, score_combo, slots_in_play, slots_of, sort_by_rank, sorted_by_rank,
    weight_prefix, ComboInfo,
};
use crate::equity::removal::{
    arranged, lemma_masses_add_up, lemma_scores_from_prefixes, lemma_sorted_describes,
    lemma_sorted_holds, lemma_sorted_slots_differ,
};
use crate::evaluator::{gen_board_eval, hand_rank};
use crate::range::holdem::HoldemRange;
use crate::sums::{index_sum, lemma_index_sum_bounds};
use crate::types::{Equity, EquityError, EquityResult, Outcome};

verus! {

/// Whether the combo in slot `villain` can be held against the combo in slot
/// `hero` on `board`: it shares no card with the board or with the hero.
pub open spec fn opposes(board: Seq<u8>, hero: int, villain: int) -> bool {
    !combo_on_board(board, villain) && !combos_overlap(hero, villain)
}

/// The weight of a villain slot that opposes the hero and ranks below it.
pub open spec fn win_term(table: Seq<u8>, board: Seq<u8>, vs: Seq<u64>, hero: int) -> spec_fn(
    int,
) -> int {
    |v: int|
        if opposes(board, hero, v) && combo_rank(table, board, v) < combo_rank(table, board, hero) {
            vs[v] as int
        } else {
            0
        }
}

/// The weight of a villain slot that opposes the hero and ranks equal to it.
pub open spec fn tie_term(table: Seq<u8>, board: Seq<u8>, vs: Seq<u64>, hero: int) -> spec_fn(
    int,
) -> int {
    |v: int|
        if opposes(board, hero, v) && combo_rank(table, board, v) == combo_rank(table, board, hero) {
            vs[v] as int
        } else {
            0
        }
}

/// The weight of a villain slot that opposes the hero and ranks above it.
pub open spec fn lose_term(table: Seq<u8>, board: Seq<u8>, vs: Seq<u64>, hero: int) -> spec_fn(
    int,
) -> int {
    |v: int|
        if opposes(board, hero, v) && combo_rank(table, board, v) > combo_rank(table, board, hero) {
            vs[v] as int
        } else {
            0
        }
}

/// The weight of a villain slot that opposes the hero.
pub open spec fn opposing_term(board: Seq<u8>, vs: Seq<u64>, hero: int) -> spec_fn(int) -> int {
    |v: int|
        if opposes(board, hero, v) {
            vs[v] as int
        } else {
            0
        }
}

/// Villain mass that the hero's combo beats on `board`.
pub open spec fn win_mass(table: Seq<u8>, board: Seq<u8>, vs: Seq<u64>, hero: int) -> int {
    index_sum(COMBO_COUNT as int, win_term(table, board, vs, hero))
}

/// Villain mass that ties with the hero's combo on `board`.
pub open spec fn tie_mass(table: Seq<u8>, board: Seq<u8>, vs: Seq<u64>, hero: int) -> int {
    index_sum(COMBO_COUNT as int, tie_term(table, board, vs, hero))
}

/// Villain mass that beats the hero's combo on `board`.
pub open spec fn lose_mass(table: Seq<u8>, board: Seq<u8>, vs: Seq<u64>, hero: int) -> int {
    index_sum(COMBO_COUNT as int, lose_term(table, board, vs, hero))
}

/// Villain mass that the hero's combo is scored against: all that shares no
/// card with the board or with the hero.
pub open spec fn opposing_mass(board: Seq<u8>, vs: Seq<u64>, hero: int) -> int {
    index_sum(COMBO_COUNT as int, opposing_term(board, vs, hero))
}

/// Whether the combo in slot `idx` gets an entry in the output: it has
/// weight in the hero's range and is clear of the board.
pub open spec fn scored(board: Seq<u8>, hero: Seq<u64>, idx: int) -> bool {
    0 <= idx < COMBO_COUNT && hero[idx] > 0 && !combo_on_board(board, idx)
}

/// Whether `entry` carries the cards and the three masses of its slot.
pub open spec fn entry_matches(
    entry: EquityResult,
    table: Seq<u8>,
    board: Seq<u8>,
    vs: Seq<u64>,
) -> bool {
    &&& entry.combo@ == combo_cards(entry.hand_idx as int)
    &&& entry.equity.win == win_mass(table, board, vs, entry.hand_idx as int)
    &&& entry.equity.tie == tie_mass(table, board, vs, entry.hand_idx as int)
    &&& entry.equity.lose == lose_mass(table, board, vs, entry.hand_idx as int)
}

/// What the leaf engine returns: one matching entry for each scored combo
/// and no other, weakest rank first.
pub open spec fn leaf_results(
    table: Seq<u8>,
    hero: Seq<u64>,
    vs: Seq<u64>,
    board: Seq<u8>,
    results: Seq<EquityResult>,
) -> bool {
    &&& forall|k: int|
        0 <= k < results.len() ==> scored(board, hero, (#[trigger] results[k]).hand_idx as int)
            && entry_matches(results[k], table, board, vs)
    &&& forall|i: int, j: int|
        0 <= i < j < results.len() ==> (#[trigger] results[i]).hand_idx != (
        #[trigger] results[j]).hand_idx
    &&& forall|idx: int| #[trigger]
        scored(board, hero, idx) ==> exists|k: int|
            0 <= k < results.len() && (#[trigger] results[k]).hand_idx == idx
    &&& forall|i: int, j: int|
        0 <= i <= j < results.len() ==> combo_rank(table, board, (#[trigger] results[i]).hand_idx as int)
            <= combo_rank(table, board, (#[trigger] results[j]).hand_idx as int)
}

/// Collects, in slot order, the record of every combo in play on `board`.
fn gather_combos(
    hand_ranks_data: &[u8],
    hero_range: &HoldemRange,
    vs_range: &HoldemRange,
    board: &[u8],
) -> (all: Vec<ComboInfo>)
    requires
        valid_cards(board@),
    ensures
        all@.len() <= COMBO_COUNT,
        slots_of(all@) == slots_in_play(board@, hero_range@, vs_range@, COMBO_COUNT as int),
        forall|k: int|
            0 <= k < all@.len() ==> describes(
                #[trigger] all@[k],
                hand_ranks_data@,
                board@,
                hero_range@,
                vs_range@,
            ),
{
    let board_eval = gen_board_eval(hand_ranks_data, board);
    let board_mask: u64 = cards_to_mask(board);
    let mut all: Vec<ComboInfo> = Vec::with_capacity(1326);
    let mut idx: usize = 0;
    let mut hi: u8 = 1;
    proof {
        hero_range.lemma_slots();
        vs_range.lemma_slots();
        assert(triangle(1) == 0) by (nonlinear_arith);
        assert(slots_of(all@) =~= slots_in_play(board@, hero_range@, vs_range@, 0));
    }
    while hi < 52
        invariant
            1 <= hi <= 52,
            idx == triangle(hi as int),
            valid_cards(board@),
            mask_of(board_mask, board@),
            board_eval.binds(hand_ranks_data@, board@),
            hero_range@.len() == COMBO_COUNT,
            vs_range@.len() == COMBO_COUNT,
            all@.len() <= idx,
            slots_of(all@) == slots_in_play(board@, hero_range@, vs_range@, idx as int),
            forall|k: int|
                0 <= k < all@.len() ==> describes(
                    #[trigger] all@[k],
                    hand_ranks_data@,
                    board@,
                    hero_range@,
                    vs_range@,
                ),
        decreases 52 - hi,
    {
        let mut lo: u8 = 0;
        while lo < hi
            invariant
                1 <= hi < 52,
                lo <= hi,
                idx == triangle(hi as int) + lo,
                valid_cards(board@),
                mask_of(board_mask, board@),
                board_eval.binds(hand_ranks_data@, board@),
                hero_range@.len() == COMBO_COUNT,
                vs_range@.len() == COMBO_COUNT,
                all@.len() <= idx,
                slots_of(all@) == slots_in_play(board@, hero_range@, vs_range@, idx as int),
                forall|k: int|
                    0 <= k < all@.len() ==> describes(
                        #[trigger] all@[k],
                        hand_ranks_data@,
                        board@,
                        hero_range@,
                        vs_range@,
                    ),
            decreases hi - lo,
        {
            proof {
                lemma_index_of_combo(lo as int, hi as int);
                assert(mask_has(board_mask, lo as int) <==> has_card(board@, lo as int));
                assert(mask_has(board_mask, hi as int) <==> has_card(board@, hi as int));
            }
            let on_board: bool = mask_contains(board_mask, lo) || mask_contains(board_mask, hi);
            let ghost before = all@;
            if !on_board {
                let vs_weight: u64 = vs_range.get_weight(idx);
                let self_weight: u64 = hero_range.get_weight(idx);
                if vs_weight > 0 || self_weight > 0 {
                    let combo: [u8; 2] = [lo, hi];
                    assert(combo@ =~= combo_cards(idx as int));
                    let p: i32 = board_eval.eval(&combo);
                    assert(p == hand_rank(hand_ranks_data@, board@, combo@));
                    all.push(ComboInfo { p, idx: idx as u16, self_weight, vs_weight, combo });
                    proof {
                        assert(slots_of(all@) =~= slots_of(before).push(idx as int));
                    }
                }
            }
            idx += 1;
            lo += 1;
        }
        proof {
            lemma_triangle_step(hi as int);
        }
        hi += 1;
    }
    proof {
        assert(triangle(52) == 1326) by (nonlinear_arith);
    }
    all
}

/// Equity of every hero combo against the villain range on the board as it
/// stands, with no cards to come. Combos that share a card with the board
/// are left out;
/// so is every combo without weight in the hero's range. Each entry's masses
/// are taken over the villain combos that share no card with the board or
/// with the entry's own combo. Entries come weakest rank first.
pub fn calculate_leaf_equity(
    hand_ranks_data: &[u8],
    hero_range: &HoldemRange,
    vs_range: &HoldemRange,
    board: &[u8],
) -> (results: Vec<EquityResult>)
    requires
        3 <= board@.len() <= 5,
        valid_cards(board@),
    ensures
        leaf_results(hand_ranks_data@, hero_range@, vs_range@, board@, results@),
{
    let mut all: Vec<ComboInfo> = gather_combos(hand_ranks_data, hero_range, vs_range, board);
    let ghost table = hand_ranks_data@;
    let ghost hero = hero_range@;
    let ghost vs = vs_range@;
    let ghost gathered = all@;
    sort_by_rank(&mut all);
    let ghost sorted = all@;
    proof {
        hero_range.lemma_slots();
        vs_range.lemma_slots();
        assert(arranged(table, board@, hero, vs, gathered, sorted));
        lemma_sorted_describes(table, board@, hero, vs, gathered, sorted);
        assert forall|k: int| 0 <= k < sorted.len() implies {
            &&& (#[trigger] sorted[k]).combo@[0] < sorted[k].combo@[1]
            &&& sorted[k].combo@[1] < DECK_SIZE
            &&& sorted[k].idx < COMBO_COUNT
        } by {
            assert(describes(sorted[k], table, board@, hero, vs));
            lemma_combo_of_index(sorted[k].idx as int);
        }
        assert forall|i: int, j: int|
            0 <= i < sorted.len() && 0 <= j < sorted.len() && sorted[i].idx == sorted[j].idx implies sorted[i].p
            == sorted[j].p by {
            assert(describes(sorted[i], table, board@, hero, vs));
            assert(describes(sorted[j], table, board@, hero, vs));
        }
    }
    let blocks = rank_blocks(&all);
    let ranges: Vec<(usize, usize)> = blocks.0;
    let block_of: Vec<usize> = blocks.1;
    let weights: Vec<u128> = weight_prefix(&all);
    let blocked: Vec<u128> = blocked_prefix(&all);
    let n: usize = all.len();
    proof {
        assert forall|k: int| 0 <= k < weights@.len() implies #[trigger] weights@[k] <= COMBO_COUNT
            * u64::MAX by {
            lemma_held_before_step(sorted, k + 1, -1);
        }
        assert forall|k: int| 0 <= k < blocked@.len() implies #[trigger] blocked@[k] <= COMBO_COUNT
            * u64::MAX by {
            let r = k / 52;
            let c = k % 52;
            assert(k == r * 52 + c);
            assert(blocked@[r * 52 + c] == held_before(sorted, r + 1, c));
            lemma_held_before_step(sorted, r + 1, c);
        }
    }
    let mut results: Vec<EquityResult> = Vec::new();
    let ghost mut picks: Seq<int> = Seq::empty();
    let mut pos: usize = 0;
    while pos < n
        invariant
            pos <= n,
            n == sorted.len(),
            n <= COMBO_COUNT,
            all@ == sorted,
            arranged(table, board@, hero, vs, gathered, sorted),
            sorted_by_rank(sorted),
            forall|k: int| 0 <= k < sorted.len() ==> describes(#[trigger] sorted[k], table, board@, hero, vs),
            block_of@.len() == COMBO_COUNT,
            forall|q: int|
                0 <= q < sorted.len() ==> {
                    let r = #[trigger] block_of@[sorted[q].idx as int];
                    &&& r < ranges@.len()
                    &&& block_around(sorted, ranges@[r as int].0 as int, ranges@[r as int].1 as int, q)
                },
            prefixes_of(sorted, weights@, blocked@),
            forall|k: int| 0 <= k < weights@.len() ==> #[trigger] weights@[k] <= COMBO_COUNT * u64::MAX,
            forall|k: int| 0 <= k < blocked@.len() ==> #[trigger] blocked@[k] <= COMBO_COUNT * u64::MAX,
            picks.len() == results@.len(),
            forall|k: int| 0 <= k < picks.len() ==> 0 <= #[trigger] picks[k] < pos,
            forall|i: int, j: int| 0 <= i < j < picks.len() ==> picks[i] < picks[j],
            forall|k: int|
                0 <= k < results@.len() ==> {
                    &&& (#[trigger] results@[k]).hand_idx == sorted[picks[k]].idx
                    &&& scored(board@, hero, results@[k].hand_idx as int)
                    &&& entry_matches(results@[k], table, board@, vs)
                },
            forall|q: int|
                0 <= q < pos && (#[trigger] sorted[q]).self_weight != 0 ==> exists|k: int|
                    0 <= k < picks.len() && #[trigger] picks[k] == q,
        decreases n - pos,
    {
        let info: ComboInfo = all[pos];
        if info.self_weight != 0 {
            let r: usize = block_of[info.idx as usize];
            let start: usize = ranges[r].0;
            let end: usize = ranges[r].1;
            proof {
                let at = pos as int;
                assert(describes(sorted[at], table, board@, hero, vs));
                lemma_scores_from_prefixes(
                    table,
                    board@,
                    hero,
                    vs,
                    gathered,
                    sorted,
                    weights@,
                    blocked@,
                    at,
                    start as int,
                    end as int,
                );
                lemma_masses_add_up(table, board@, vs, info.idx as int);
                lemma_combo_of_index(info.idx as int);
            }
            let equity: Equity = score_combo(&info, start, end, &weights, &blocked);
            let entry = EquityResult { combo: info.combo, hand_idx: info.idx as usize, equity };
            proof {
                assert(entry.combo@ =~= combo_cards(entry.hand_idx as int));
            }
            let ghost old_picks = picks;
            let ghost old_results = results@;
            results.push(entry);
            proof {
                picks = picks.push(pos as int);
                assert forall|q: int|
                    0 <= q < pos + 1 && (#[trigger] sorted[q]).self_weight != 0 implies exists|k: int|
                    0 <= k < picks.len() && #[trigger] picks[k] == q by {
                    if q < pos {
                        let k = choose|k: int| 0 <= k < old_picks.len() && #[trigger] old_picks[k] == q;
                        assert(picks[k] == q);
                    } else {
                        assert(picks[old_picks.len() as int] == q);
                    }
                }
            }
        }
        pos += 1;
    }
    proof {
        assert forall|i: int, j: int| 0 <= i < j < results@.len() implies (#[trigger] results@[i]).hand_idx
            != (#[trigger] results@[j]).hand_idx by {
            lemma_sorted_slots_differ(table, board@, hero, vs, gathered, sorted, picks[i], picks[j]);
        }
        assert forall|idx: int| #[trigger] scored(board@, hero, idx) implies exists|k: int|
            0 <= k < results@.len() && (#[trigger] results@[k]).hand_idx == idx by {
            let q = lemma_sorted_holds(table, board@, hero, vs, gathered, sorted, idx);
            assert(describes(sorted[q], table, board@, hero, vs));
            let k = choose|k: int| 0 <= k < picks.len() && #[trigger] picks[k] == q;
            assert(results@[k].hand_idx == idx);
        }
        assert forall|i: int, j: int| 0 <= i <= j < results@.len() implies combo_rank(
            table,
            board@,
            (#[trigger] results@[i]).hand_idx as int,
        ) <= combo_rank(table, board@, (#[trigger] results@[j]).hand_idx as int) by {
            assert(describes(sorted[picks[i]], table, board@, hero, vs));
            assert(describes(sorted[picks[j]], table, board@, hero, vs));
            if i < j {
                assert(picks[i] < picks[j]);
            }
        }
    }
    results
}

/// The mass of one outcome for the hero's combo on a finished board; 0 where
/// the combo shares a card with the board.
pub open spec fn outcome_mass(
    outcome: Outcome,
    table: Seq<u8>,
    board: Seq<u8>,
    vs: Seq<u64>,
    hero: int,
) -> int {
    if combo_on_board(board, hero) {
        0
    } else {
        match outcome {
            Outcome::Win => win_mass(table, board, vs, hero),
            Outcome::Tie => tie_mass(table, board, vs, hero),
            Outcome::Lose => lose_mass(table, board, vs, hero),
        }
    }
}

/// The mass of one outcome on the board completed by `river`; 0 where
/// `river` lies below `from` or on the board.
pub open spec fn river_term(
    outcome: Outcome,
    table: Seq<u8>,
    board: Seq<u8>,
    vs: Seq<u64>,
    hero: int,
    from: int,
) -> spec_fn(int) -> int {
    |river: int|
        if river < from || has_card(board, river) {
            0
        } else {
            outcome_mass(outcome, table, board.push(river as u8), vs, hero)
        }
}

/// The mass of one outcome summed over the rivers from `from` on that are
/// not on the four-card board.
pub open spec fn river_mass(
    outcome: Outcome,
    table: Seq<u8>,
    board: Seq<u8>,
    vs: Seq<u64>,
    hero: int,
    from: int,
) -> int {
    index_sum(DECK_SIZE as int, river_term(outcome, table, board, vs, hero, from))
}

/// The mass of one outcome summed over the rivers above `turn`, on the flop
/// completed by `turn`; 0 where `turn` is on the flop.
pub open spec fn turn_term(
    outcome: Outcome,
    table: Seq<u8>,
    flop: Seq<u8>,
    vs: Seq<u64>,
    hero: int,
) -> spec_fn(int) -> int {
    |turn: int|
        if has_card(flop, turn) {
            0
        } else {
            river_mass(outcome, table, flop.push(turn as u8), vs, hero, turn + 1)
        }
}

/// The mass of one outcome summed over every way to finish the board: over
/// the rivers for a four-card board, over the unordered turn and river pairs
/// for a flop.
pub open spec fn runout_mass(
    outcome: Outcome,
    table: Seq<u8>,
    board: Seq<u8>,
    vs: Seq<u64>,
    hero: int,
) -> int {
    if board.len() == 4 {
        river_mass(outcome, table, board, vs, hero, 0)
    } else {
        index_sum(DECK_SIZE as int, turn_term(outcome, table, board, vs, hero))
    }
}

/// What the aggregator returns on an unfinished board: one entry for each
/// combo with weight in the hero's range, in slot order, with each mass
/// summed over every way to finish the board.
pub open spec fn runout_results(
    table: Seq<u8>,
    hero: Seq<u64>,
    vs: Seq<u64>,
    board: Seq<u8>,
    results: Seq<EquityResult>,
) -> bool {
    let slots = HoldemRange::weighted_slots(hero, COMBO_COUNT as int);
    &&& results.len() == slots.len()
    &&& forall|k: int|
        0 <= k < results.len() ==> {
            let entry = #[trigger] results[k];
            &&& entry.hand_idx == slots[k]
            &&& entry.combo@ == combo_cards(slots[k])
            &&& entry.equity.win == runout_mass(Outcome::Win, table, board, vs, slots[k])
            &&& entry.equity.tie == runout_mass(Outcome::Tie, table, board, vs, slots[k])
            &&& entry.equity.lose == runout_mass(Outcome::Lose, table, board, vs, slots[k])
        }
}

/// The most mass one leaf can give to one outcome.
pub open spec fn leaf_cap() -> int {
    COMBO_COUNT * u64::MAX
}

/// Adds each entry's masses to the accumulator of its slot.
fn accumulate(aggregated: &mut Vec<Equity>, results: &Vec<EquityResult>)
    requires
        old(aggregated)@.len() == COMBO_COUNT,
        forall|k: int| 0 <= k < results@.len() ==> (#[trigger] results@[k]).hand_idx < COMBO_COUNT,
        forall|i: int, j: int|
            0 <= i < j < results@.len() ==> (#[trigger] results@[i]).hand_idx != (
            #[trigger] results@[j]).hand_idx,
        forall|k: int|
            0 <= k < results@.len() ==> {
                let entry = #[trigger] results@[k];
                let slot = entry.hand_idx as int;
                &&& old(aggregated)@[slot].win + entry.equity.win <= u128::MAX
                &&& old(aggregated)@[slot].tie + entry.equity.tie <= u128::MAX
                &&& old(aggregated)@[slot].lose + entry.equity.lose <= u128::MAX
            },
    ensures
        final(aggregated)@.len() == COMBO_COUNT,
        forall|k: int|
            0 <= k < results@.len() ==> {
                let entry = #[trigger] results@[k];
                let slot = entry.hand_idx as int;
                &&& final(aggregated)@[slot].win == old(aggregated)@[slot].win + entry.equity.win
                &&& final(aggregated)@[slot].tie == old(aggregated)@[slot].tie + entry.equity.tie
                &&& final(aggregated)@[slot].lose == old(aggregated)@[slot].lose + entry.equity.lose
            },
        forall|slot: int|
            0 <= slot < COMBO_COUNT && (forall|k: int|
                0 <= k < results@.len() ==> (#[trigger] results@[k]).hand_idx != slot)
                ==> #[trigger] final(aggregated)@[slot] == old(aggregated)@[slot],
{
    let mut k: usize = 0;
    while k < results.len()
        invariant
            k <= results@.len(),
            aggregated@.len() == COMBO_COUNT,
            forall|j: int| 0 <= j < results@.len() ==> (#[trigger] results@[j]).hand_idx < COMBO_COUNT,
            forall|i: int, j: int|
                0 <= i < j < results@.len() ==> (#[trigger] results@[i]).hand_idx != (
                #[trigger] results@[j]).hand_idx,
            forall|j: int|
                0 <= j < results@.len() ==> {
                    let entry = #[trigger] results@[j];
                    let slot = entry.hand_idx as int;
                    &&& old(aggregated)@[slot].win + entry.equity.win <= u128::MAX
                    &&& old(aggregated)@[slot].tie + entry.equity.tie <= u128::MAX
                    &&& old(aggregated)@[slot].lose + entry.equity.lose <= u128::MAX
                },
            forall|j: int|
                0 <= j < k ==> {
                    let entry = #[trigger] results@[j];
                    let slot = entry.hand_idx as int;
                    &&& aggregated@[slot].win == old(aggregated)@[slot].win + entry.equity.win
                    &&& aggregated@[slot].tie == old(aggregated)@[slot].tie + entry.equity.tie
                    &&& aggregated@[slot].lose == old(aggregated)@[slot].lose + entry.equity.lose
                },
            forall|slot: int|
                0 <= slot < COMBO_COUNT && (forall|j: int|
                    0 <= j < k ==> (#[trigger] results@[j]).hand_idx != slot)
                    ==> #[trigger] aggregated@[slot] == old(aggregated)@[slot],
        decreases results@.len() - k,
    {
        let entry: EquityResult = results[k];
        let slot: usize = entry.hand_idx;
        let ghost before = aggregated@;
        proof {
            assert forall|j: int| 0 <= j < k implies (#[trigger] results@[j]).hand_idx != slot by {
                assert(results@[j].hand_idx != results@[k as int].hand_idx);
            }
            assert(before[slot as int] == old(aggregated)@[slot as int]);
        }
        let held: Equity = aggregated[slot];
        aggregated.set(
            slot,
            Equity {
                win: held.win + entry.equity.win,
                tie: held.tie + entry.equity.tie,
                lose: held.lose + entry.equity.lose,
            },
        );
        proof {
            assert forall|j: int| 0 <= j < k + 1 implies {
                let e = #[trigger] results@[j];
                let s = e.hand_idx as int;
                &&& aggregated@[s].win == old(aggregated)@[s].win + e.equity.win
                &&& aggregated@[s].tie == old(aggregated)@[s].tie + e.equity.tie
                &&& aggregated@[s].lose == old(aggregated)@[s].lose + e.equity.lose
            } by {
                if j < k {
                    assert(results@[j].hand_idx != results@[k as int].hand_idx);
                }
            }
        }
        k += 1;
    }
}

/// One outcome's mass on one finished board is at most the cap.
pub proof fn lemma_outcome_mass_bounds(
    outcome: Outcome,
    table: Seq<u8>,
    board: Seq<u8>,
    vs: Seq<u64>,
    hero: int,
)
    ensures
        0 <= outcome_mass(outcome, table, board, vs, hero) <= leaf_cap(),
{
    lemma_masses_add_up(table, board, vs, hero);
}

/// One outcome's mass over the rivers is at most 52 caps, and is 0 over
/// the rivers below `from`.
pub proof fn lemma_river_mass_bounds(
    outcome: Outcome,
    table: Seq<u8>,
    board: Seq<u8>,
    vs: Seq<u64>,
    hero: int,
    from: int,
    upto: int,
)
    requires
        0 <= upto <= DECK_SIZE,
    ensures
        0 <= index_sum(upto, river_term(outcome, table, board, vs, hero, from)) <= upto * leaf_cap(),
        upto <= from ==> index_sum(upto, river_term(outcome, table, board, vs, hero, from)) == 0,
{
    let term = river_term(outcome, table, board, vs, hero, from);
    assert forall|river: int| 0 <= river < upto implies 0 <= #[trigger] term(river) <= leaf_cap() by {
        lemma_outcome_mass_bounds(outcome, table, board.push(river as u8), vs, hero);
    }
    lemma_index_sum_bounds(upto, term, 0, leaf_cap());
    if upto <= from {
        lemma_index_sum_bounds(upto, term, 0, 0);
    }
}

/// One outcome's mass over the turns below `upto` is at most 52 caps for
/// each.
pub proof fn lemma_turn_mass_bounds(
    outcome: Outcome,
    table: Seq<u8>,
    flop: Seq<u8>,
    vs: Seq<u64>,
    hero: int,
    upto: int,
)
    requires
        0 <= upto <= DECK_SIZE,
    ensures
        0 <= index_sum(upto, turn_term(outcome, table, flop, vs, hero)) <= upto * (52 * leaf_cap()),
{
    let term = turn_term(outcome, table, flop, vs, hero);
    assert forall|turn: int| 0 <= turn < upto implies 0 <= #[trigger] term(turn) <= 52
        * leaf_cap() by {
        lemma_river_mass_bounds(outcome, table, flop.push(turn as u8), vs, hero, turn + 1, 52);
    }
    lemma_index_sum_bounds(upto, term, 0, 52 * leaf_cap());
}

/// Scores one finished board and adds each combo's masses to its
/// accumulator.
fn add_runout(
    hand_ranks_data: &[u8],
    hero_range: &HoldemRange,
    vs_range: &HoldemRange,
    full_board: &[u8; 5],
    aggregated: &mut Vec<Equity>,
)
    requires
        valid_cards(full_board@),
        old(aggregated)@.len() == COMBO_COUNT,
        forall|slot: int|
            0 <= slot < COMBO_COUNT ==> {
                &&& (#[trigger] old(aggregated)@[slot]).win + leaf_cap() <= u128::MAX
                &&& old(aggregated)@[slot].tie + leaf_cap() <= u128::MAX
                &&& old(aggregated)@[slot].lose + leaf_cap() <= u128::MAX
            },
    ensures
        final(aggregated)@.len() == COMBO_COUNT,
        forall|slot: int|
            0 <= slot < COMBO_COUNT && hero_range@[slot] == 0 ==> #[trigger] final(aggregated)@[slot]
                == old(aggregated)@[slot],
        forall|slot: int|
            0 <= slot < COMBO_COUNT && hero_range@[slot] > 0 ==> {
                let table = hand_ranks_data@;
                let board = full_board@;
                let vs = vs_range@;
                &&& (#[trigger] final(aggregated)@[slot]).win == old(aggregated)@[slot].win
                    + outcome_mass(Outcome::Win, table, board, vs, slot)
                &&& final(aggregated)@[slot].tie == old(aggregated)@[slot].tie + outcome_mass(
                    Outcome::Tie,
                    table,
                    board,
                    vs,
                    slot,
                )
                &&& final(aggregated)@[slot].lose == old(aggregated)@[slot].lose + outcome_mass(
                    Outcome::Lose,
                    table,
                    board,
                    vs,
                    slot,
                )
            },
{
    let results: Vec<EquityResult> = calculate_leaf_equity(
        hand_ranks_data,
        hero_range,
        vs_range,
        full_board.as_slice(),
    );
    let ghost table = hand_ranks_data@;
    let ghost board = full_board@;
    let ghost hero = hero_range@;
    let ghost vs = vs_range@;
    proof {
        assert forall|k: int| 0 <= k < results@.len() implies {
            let entry = #[trigger] results@[k];
            let slot = entry.hand_idx as int;
            &&& entry.hand_idx < COMBO_COUNT
            &&& aggregated@[slot].win + entry.equity.win <= u128::MAX
            &&& aggregated@[slot].tie + entry.equity.tie <= u128::MAX
            &&& aggregated@[slot].lose + entry.equity.lose <= u128::MAX
        } by {
            let entry = results@[k];
            assert(scored(board, hero, entry.hand_idx as int));
            assert(entry_matches(entry, table, board, vs));
            lemma_masses_add_up(table, board, vs, entry.hand_idx as int);
        }
    }
    accumulate(aggregated, &results);
    proof {
        assert forall|slot: int| 0 <= slot < COMBO_COUNT && hero[slot] == 0 implies #[trigger] aggregated@[slot]
            == old(aggregated)@[slot] by {
            assert forall|k: int| 0 <= k < results@.len() implies (#[trigger] results@[k]).hand_idx
                != slot by {
                assert(scored(board, hero, results@[k].hand_idx as int));
            }
        }
        assert forall|slot: int| 0 <= slot < COMBO_COUNT && hero[slot] > 0 implies {
            &&& (#[trigger] aggregated@[slot]).win == old(aggregated)@[slot].win + outcome_mass(
                Outcome::Win,
                table,
                board,
                vs,
                slot,
            )
            &&& aggregated@[slot].tie == old(aggregated)@[slot].tie + outcome_mass(
                Outcome::Tie,
                table,
                board,
                vs,
                slot,
            )
            &&& aggregated@[slot].lose == old(aggregated)@[slot].lose + outcome_mass(
                Outcome::Lose,
                table,
                board,
                vs,
                slot,
            )
        } by {
            if combo_on_board(board, slot) {
                assert forall|k: int| 0 <= k < results@.len() implies (#[trigger] results@[k]).hand_idx
                    != slot by {
                    assert(scored(board, hero, results@[k].hand_idx as int));
                }
            } else {
                assert(scored(board, hero, slot));
                let k = choose|k: int| 0 <= k < results@.len() && (#[trigger] results@[k]).hand_idx == slot;
                assert(entry_matches(results@[k], table, board, vs));
            }
        }
    }
}

/// Scores the four-card board completed by each river from `from` on that
/// is not on it, and adds each combo's masses to its accumulator.
fn aggregate_rivers(
    hand_ranks_data: &[u8],
    hero_range: &HoldemRange,
    vs_range: &HoldemRange,
    board: &[u8; 4],
    from: u8,
    aggregated: &mut Vec<Equity>,
)
    requires
        valid_cards(board@),
        from <= DECK_SIZE,
        old(aggregated)@.len() == COMBO_COUNT,
        forall|slot: int|
            0 <= slot < COMBO_COUNT ==> {
                &&& (#[trigger] old(aggregated)@[slot]).win + 52 * leaf_cap() <= u128::MAX
                &&& old(aggregated)@[slot].tie + 52 * leaf_cap() <= u128::MAX
                &&& old(aggregated)@[slot].lose + 52 * leaf_cap() <= u128::MAX
            },
    ensures
        final(aggregated)@.len() == COMBO_COUNT,
        forall|slot: int|
            0 <= slot < COMBO_COUNT && hero_range@[slot] == 0 ==> #[trigger] final(aggregated)@[slot]
                == old(aggregated)@[slot],
        forall|slot: int|
            0 <= slot < COMBO_COUNT && hero_range@[slot] > 0 ==> {
                let table = hand_ranks_data@;
                let vs = vs_range@;
                &&& (#[trigger] final(aggregated)@[slot]).win == old(aggregated)@[slot].win
                    + river_mass(Outcome::Win, table, board@, vs, slot, from as int)
                &&& final(aggregated)@[slot].tie == old(aggregated)@[slot].tie + river_mass(
                    Outcome::Tie,
                    table,
                    board@,
                    vs,
                    slot,
                    from as int,
                )
                &&& final(aggregated)@[slot].lose == old(aggregated)@[slot].lose + river_mass(
                    Outcome::Lose,
                    table,
                    board@,
                    vs,
                    slot,
                    from as int,
                )
            },
{
    let board_mask: u64 = cards_to_mask(board.as_slice());
    let ghost table = hand_ranks_data@;
    let ghost hero = hero_range@;
    let ghost vs = vs_range@;
    let mut river: u8 = from;
    proof {
        hero_range.lemma_slots();
        vs_range.lemma_slots();
        assert forall|slot: int| 0 <= slot < COMBO_COUNT implies {
            &&& index_sum(from as int, river_term(Outcome::Win, table, board@, vs, slot, from as int)) == 0
            &&& index_sum(from as int, river_term(Outcome::Tie, table, board@, vs, slot, from as int)) == 0
            &&& index_sum(from as int, river_term(Outcome::Lose, table, board@, vs, slot, from as int)) == 0
        } by {
            lemma_river_mass_bounds(Outcome::Win, table, board@, vs, slot, from as int, from as int);
            lemma_river_mass_bounds(Outcome::Tie, table, board@, vs, slot, from as int, from as int);
            lemma_river_mass_bounds(Outcome::Lose, table, board@, vs, slot, from as int, from as int);
        }
    }
    while river < 52
        invariant
            from <= river <= DECK_SIZE,
            valid_cards(board@),
            mask_of(board_mask, board@),
            table == hand_ranks_data@,
            hero == hero_range@,
            vs == vs_range@,
            hero.len() == COMBO_COUNT,
            vs.len() == COMBO_COUNT,
            aggregated@.len() == COMBO_COUNT,
            forall|slot: int|
                0 <= slot < COMBO_COUNT ==> {
                    &&& (#[trigger] old(aggregated)@[slot]).win + 52 * leaf_cap() <= u128::MAX
                    &&& old(aggregated)@[slot].tie + 52 * leaf_cap() <= u128::MAX
                    &&& old(aggregated)@[slot].lose + 52 * leaf_cap() <= u128::MAX
                },
            forall|slot: int|
                0 <= slot < COMBO_COUNT && hero[slot] == 0 ==> #[trigger] aggregated@[slot] == old(
                    aggregated,
                )@[slot],
            forall|slot: int|
                0 <= slot < COMBO_COUNT && hero[slot] > 0 ==> {
                    &&& (#[trigger] aggregated@[slot]).win == old(aggregated)@[slot].win + index_sum(
                        river as int,
                        river_term(Outcome::Win, table, board@, vs, slot, from as int),
                    )
                    &&& aggregated@[slot].tie == old(aggregated)@[slot].tie + index_sum(
                        river as int,
                        river_term(Outcome::Tie, table, board@, vs, slot, from as int),
                    )
                    &&& aggregated@[slot].lose == old(aggregated)@[slot].lose + index_sum(
                        river as int,
                        river_term(Outcome::Lose, table, board@, vs, slot, from as int),
                    )
                },
        decreases 52 - river,
    {
        proof {
            assert(mask_has(board_mask, river as int) <==> has_card(board@, river as int));
        }
        if !mask_contains(board_mask, river) {
            let full_board: [u8; 5] = [board[0], board[1], board[2], board[3], river];
            proof {
                assert(full_board@ =~= board@.push(river));
                assert forall|slot: int| 0 <= slot < COMBO_COUNT implies {
                    &&& (#[trigger] aggregated@[slot]).win + leaf_cap() <= u128::MAX
                    &&& aggregated@[slot].tie + leaf_cap() <= u128::MAX
                    &&& aggregated@[slot].lose + leaf_cap() <= u128::MAX
                } by {
                    let f = from as int;
                    let r = river as int;
                    lemma_river_mass_bounds(Outcome::Win, table, board@, vs, slot, f, r);
                    lemma_river_mass_bounds(Outcome::Tie, table, board@, vs, slot, f, r);
                    lemma_river_mass_bounds(Outcome::Lose, table, board@, vs, slot, f, r);
                    assert(old(aggregated)@[slot].win + 52 * leaf_cap() <= u128::MAX);
                }
            }
            add_runout(hand_ranks_data, hero_range, vs_range, &full_board, aggregated);
        }
        river += 1;
    }
}

/// Equity of every hero combo against the villain range on a board of 3, 4
/// or 5 cards. On 5 cards this is the leaf engine. On fewer, every way to
/// finish the board is scored (each river; each unordered pair of turn and
/// river) and the masses of each combo are added up; the output then holds
/// one entry for each combo with weight in the hero's range, in slot order.
/// A board of any other length is refused.
pub fn calculate_equity_vs_range(
    hand_ranks_data: &[u8],
    hero_range: &HoldemRange,
    vs_range: &HoldemRange,
    board: &[u8],
) -> (outcome: Result<Vec<EquityResult>, EquityError>)
    requires
        valid_cards(board@),
    ensures
        !(3 <= board@.len() <= 5) <==> outcome == Err::<Vec<EquityResult>, EquityError>(
            EquityError::BoardLength,
        ),
        3 <= board@.len() <= 5 <==> outcome is Ok,
        board@.len() == 5 ==> leaf_results(
            hand_ranks_data@,
            hero_range@,
            vs_range@,
            board@,
            outcome->Ok_0@,
        ),
        3 <= board@.len() <= 4 ==> runout_results(
            hand_ranks_data@,
            hero_range@,
            vs_range@,
            board@,
            outcome->Ok_0@,
        ),
{
    proof {
        hero_range.lemma_slots();
        vs_range.lemma_slots();
    }
    if board.len() < 3 || board.len() > 5 {
        return Err(EquityError::BoardLength);
    }
    if board.len() == 5 {
        return Ok(calculate_leaf_equity(hand_ranks_data, hero_range, vs_range, board));
    }
    let ghost table = hand_ranks_data@;
    let ghost hero = hero_range@;
    let ghost vs = vs_range@;
    let mut aggregated: Vec<Equity> = Vec::with_capacity(1326);
    let mut filled: usize = 0;
    while filled < 1326
        invariant
            filled <= COMBO_COUNT,
            aggregated@.len() == filled,
            forall|slot: int|
                0 <= slot < filled ==> #[trigger] aggregated@[slot] == (Equity {
                    win: 0,
                    tie: 0,
                    lose: 0,
                }),
        decreases COMBO_COUNT - filled,
    {
        aggregated.push(Equity::default());
        filled += 1;
    }
    if board.len() == 3 {
        let board_mask: u64 = cards_to_mask(board);
        let mut turn: u8 = 0;
        proof {
            assert(leaf_cap() == 1326 * 0xffff_ffff_ffff_ffff);
        }
        while turn < 52
            invariant
                turn <= DECK_SIZE,
                board@.len() == 3,
                valid_cards(board@),
                mask_of(board_mask, board@),
                table == hand_ranks_data@,
                hero == hero_range@,
                vs == vs_range@,
                hero.len() == COMBO_COUNT,
                vs.len() == COMBO_COUNT,
                aggregated@.len() == COMBO_COUNT,
                forall|slot: int|
                    0 <= slot < COMBO_COUNT && hero[slot] == 0 ==> #[trigger] aggregated@[slot] == (
                    Equity { win: 0, tie: 0, lose: 0 }),
                forall|slot: int|
                    0 <= slot < COMBO_COUNT && hero[slot] > 0 ==> {
                        &&& (#[trigger] aggregated@[slot]).win == index_sum(
                            turn as int,
                            turn_term(Outcome::Win, table, board@, vs, slot),
                        )
                        &&& aggregated@[slot].tie == index_sum(
                            turn as int,
                            turn_term(Outcome::Tie, table, board@, vs, slot),
                        )
                        &&& aggregated@[slot].lose == index_sum(
                            turn as int,
                            turn_term(Outcome::Lose, table, board@, vs, slot),
                        )
                    },
            decreases 52 - turn,
        {
            proof {
                assert(mask_has(board_mask, turn as int) <==> has_card(board@, turn as int));
            }
            if !mask_contains(board_mask, turn) {
                let with_turn: [u8; 4] = [board[0], board[1], board[2], turn];
                proof {
                    assert(with_turn@ =~= board@.push(turn));
                    assert forall|slot: int| 0 <= slot < COMBO_COUNT implies {
                        &&& (#[trigger] aggregated@[slot]).win + 52 * leaf_cap() <= u128::MAX
                        &&& aggregated@[slot].tie + 52 * leaf_cap() <= u128::MAX
                        &&& aggregated@[slot].lose + 52 * leaf_cap() <= u128::MAX
                    } by {
                        let t = turn as int;
                        lemma_turn_mass_bounds(Outcome::Win, table, board@, vs, slot, t);
                        lemma_turn_mass_bounds(Outcome::Tie, table, board@, vs, slot, t);
                        lemma_turn_mass_bounds(Outcome::Lose, table, board@, vs, slot, t);
                        assert(leaf_cap() == 1326 * 0xffff_ffff_ffff_ffff);
                        assert(t * (52 * leaf_cap()) <= 52 * (52 * leaf_cap())) by (nonlinear_arith)
                            requires
                                0 <= t <= 52,
                                leaf_cap() >= 0,
                        ;
                    }
                }
                aggregate_rivers(
                    hand_ranks_data,
                    hero_range,
                    vs_range,
                    &with_turn,
                    turn + 1,
                    &mut aggregated,
                );
            }
            turn += 1;
        }
    } else {
        let with_turn: [u8; 4] = [board[0], board[1], board[2], board[3]];
        proof {
            assert(with_turn@ =~= board@);
            assert(leaf_cap() == 1326 * 0xffff_ffff_ffff_ffff);
        }
        aggregate_rivers(hand_ranks_data, hero_range, vs_range, &with_turn, 0, &mut aggregated);
    }
    let weighted: Vec<(u64, usize)> = hero_range.for_each_weighted();
    let ghost slots = HoldemRange::weighted_slots(hero, COMBO_COUNT as int);
    proof {
        HoldemRange::lemma_weighted_slots(hero, COMBO_COUNT as int);
    }
    let mut final_results: Vec<EquityResult> = Vec::new();
    let mut k: usize = 0;
    while k < weighted.len()
        invariant
            k <= weighted@.len(),
            weighted@.len() == slots.len(),
            hero.len() == COMBO_COUNT,
            aggregated@.len() == COMBO_COUNT,
            3 <= board@.len() <= 4,
            forall|j: int|
                0 <= j < weighted@.len() ==> {
                    &&& (#[trigger] weighted@[j]).1 == slots[j]
                    &&& weighted@[j].1 < COMBO_COUNT
                    &&& hero[slots[j]] > 0
                },
            forall|slot: int|
                0 <= slot < COMBO_COUNT && hero[slot] > 0 ==> {
                    &&& (#[trigger] aggregated@[slot]).win == runout_mass(
                        Outcome::Win,
                        table,
                        board@,
                        vs,
                        slot,
                    )
                    &&& aggregated@[slot].tie == runout_mass(Outcome::Tie, table, board@, vs, slot)
                    &&& aggregated@[slot].lose == runout_mass(Outcome::Lose, table, board@, vs, slot)
                },
            final_results@.len() == k,
            forall|j: int|
                0 <= j < k ==> {
                    let entry = #[trigger] final_results@[j];
                    &&& entry.hand_idx == slots[j]
                    &&& entry.combo@ == combo_cards(slots[j])
                    &&& entry.equity.win == runout_mass(Outcome::Win, table, board@, vs, slots[j])
                    &&& entry.equity.tie == runout_mass(Outcome::Tie, table, board@, vs, slots[j])
                    &&& entry.equity.lose == runout_mass(Outcome::Lose, table, board@, vs, slots[j])
                },
        decreases weighted@.len() - k,
    {
        let hand_idx: usize = weighted[k].1;
        final_results.push(
            EquityResult {
                combo: HoldemRange::from_hand_idx(hand_idx),
                equity: aggregated[hand_idx],
                hand_idx,
            },
        );
        k += 1;
    }
    Ok(final_results)
}

} // verus!
