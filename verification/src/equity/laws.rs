//! Laws of the equity engines, stated over the masses that the engines'
//! contracts speak of.

use vstd::prelude::*;
use crate::cards::{combo_on_board, has_card, COMBO_COUNT, DECK_SIZE};

use crate::equity::holdem::{
    entry_matches, leaf_results, scored, lose_mass, lose_term, opposing_mass, outcome_mass, river_mass,
    river_term, runout_mass, runout_results, tie_mass, tie_term, turn_term, win_mass, win_term,
};
use crate::equity::omaha::{omaha_mass, omaha_term, share_card};
use crate::equity::removal::lemma_masses_add_up;
use crate::range::holdem::HoldemRange;
use crate::sums::{
    column, column_sums, index_sum, lemma_index_sum_bounds, lemma_index_sum_equal,
    lemma_index_sum_swap, lemma_seq_sum_bounds, lemma_seq_sum_by_index, row, row_sums, seq_sum,
};
use crate::types::{EquityResult, Outcome};

verus! {

/// Mass is conserved: in every entry of a leaf result, win, tie and lose
/// add up to the weight of the villain combos that share no card with the
/// entry's combo or with the board.
pub proof fn lemma_leaf_conserves_mass(
    table: Seq<u8>,
    hero: Seq<u64>,
    vs: Seq<u64>,
    board: Seq<u8>,
    results: Seq<EquityResult>,
)
    requires
        leaf_results(table, hero, vs, board, results),
    ensures
        forall|k: int|
            0 <= k < results.len() ==> (#[trigger] results[k]).equity.win + results[k].equity.tie
                + results[k].equity.lose == opposing_mass(board, vs, results[k].hand_idx as int),
{
    assert forall|k: int| 0 <= k < results.len() implies (#[trigger] results[k]).equity.win
        + results[k].equity.tie + results[k].equity.lose == opposing_mass(
        board,
        vs,
        results[k].hand_idx as int,
    ) by {
        assert(entry_matches(results[k], table, board, vs));
        lemma_masses_add_up(table, board, vs, results[k].hand_idx as int);
    }
}

/// Against a villain range without weight every mass is zero, on a finished
/// board and summed over the ways to finish one.
pub proof fn lemma_zero_villain(table: Seq<u8>, vs: Seq<u64>, board: Seq<u8>, hero_idx: int)
    requires
        vs.len() == COMBO_COUNT,
        forall|i: int| 0 <= i < COMBO_COUNT ==> vs[i] == 0,
    ensures
        win_mass(table, board, vs, hero_idx) == 0,
        tie_mass(table, board, vs, hero_idx) == 0,
        lose_mass(table, board, vs, hero_idx) == 0,
        forall|outcome: Outcome| #[trigger] runout_mass(outcome, table, board, vs, hero_idx) == 0,
{
    let n = COMBO_COUNT as int;
    lemma_index_sum_bounds(n, win_term(table, board, vs, hero_idx), 0, 0);
    lemma_index_sum_bounds(n, tie_term(table, board, vs, hero_idx), 0, 0);
    lemma_index_sum_bounds(n, lose_term(table, board, vs, hero_idx), 0, 0);
    assert forall|outcome: Outcome| #[trigger]
        runout_mass(outcome, table, board, vs, hero_idx) == 0 by {
        lemma_zero_villain_rivers(outcome, table, vs, board, hero_idx, 0);
        let turns = turn_term(outcome, table, board, vs, hero_idx);
        assert forall|turn: int| 0 <= turn < DECK_SIZE implies #[trigger] turns(turn) == 0 by {
            lemma_zero_villain_rivers(outcome, table, vs, board.push(turn as u8), hero_idx, turn + 1);
        }
        lemma_index_sum_bounds(DECK_SIZE as int, turns, 0, 0);
    }
}

/// Against a villain range without weight the mass over the rivers is zero.
proof fn lemma_zero_villain_rivers(
    outcome: Outcome,
    table: Seq<u8>,
    vs: Seq<u64>,
    board: Seq<u8>,
    hero_idx: int,
    from: int,
)
    requires
        vs.len() == COMBO_COUNT,
        forall|i: int| 0 <= i < COMBO_COUNT ==> vs[i] == 0,
    ensures
        river_mass(outcome, table, board, vs, hero_idx, from) == 0,
{
    let n = COMBO_COUNT as int;
    let rivers = river_term(outcome, table, board, vs, hero_idx, from);
    assert forall|river: int| 0 <= river < DECK_SIZE implies #[trigger] rivers(river) == 0 by {
        let full = board.push(river as u8);
        lemma_index_sum_bounds(n, win_term(table, full, vs, hero_idx), 0, 0);
        lemma_index_sum_bounds(n, tie_term(table, full, vs, hero_idx), 0, 0);
        lemma_index_sum_bounds(n, lose_term(table, full, vs, hero_idx), 0, 0);
    }
    lemma_index_sum_bounds(DECK_SIZE as int, rivers, 0, 0);
}

/// Against a villain range without weight every entry of a leaf result and
/// every entry of a result over runouts holds three zeros.
pub proof fn lemma_zero_villain_results(
    table: Seq<u8>,
    hero: Seq<u64>,
    vs: Seq<u64>,
    board: Seq<u8>,
    results: Seq<EquityResult>,
)
    requires
        vs.len() == COMBO_COUNT,
        forall|i: int| 0 <= i < COMBO_COUNT ==> vs[i] == 0,
        leaf_results(table, hero, vs, board, results) || runout_results(
            table,
            hero,
            vs,
            board,
            results,
        ),
    ensures
        forall|k: int|
            0 <= k < results.len() ==> {
                &&& (#[trigger] results[k]).equity.win == 0
                &&& results[k].equity.tie == 0
                &&& results[k].equity.lose == 0
            },
{
    assert forall|k: int| 0 <= k < results.len() implies {
        &&& (#[trigger] results[k]).equity.win == 0
        &&& results[k].equity.tie == 0
        &&& results[k].equity.lose == 0
    } by {
        lemma_zero_villain(table, vs, board, results[k].hand_idx as int);
        if leaf_results(table, hero, vs, board, results) {
            assert(entry_matches(results[k], table, board, vs));
        } else {
            let slots = HoldemRange::weighted_slots(hero, COMBO_COUNT as int);
            assert(results[k].hand_idx == slots[k]);
            assert(runout_mass(Outcome::Win, table, board, vs, slots[k]) == 0);
            assert(runout_mass(Outcome::Tie, table, board, vs, slots[k]) == 0);
            assert(runout_mass(Outcome::Lose, table, board, vs, slots[k]) == 0);
        }
    }
}

/// The mass that the combo in slot `hero_idx` wins from the combo in slot
/// `villain_idx` alone; 0 where the hero's combo is on the board.
pub open spec fn duel(table: Seq<u8>, board: Seq<u8>, vs: Seq<u64>) -> spec_fn(int, int) -> int {
    |hero_idx: int, villain_idx: int|
        if combo_on_board(board, hero_idx) {
            0
        } else {
            win_term(table, board, vs, hero_idx)(villain_idx)
        }
}

/// The win mass of every slot.
pub open spec fn all_wins(table: Seq<u8>, board: Seq<u8>, vs: Seq<u64>) -> spec_fn(int) -> int {
    |idx: int| outcome_mass(Outcome::Win, table, board, vs, idx)
}

/// The lose mass of every slot.
pub open spec fn all_losses(table: Seq<u8>, board: Seq<u8>, vs: Seq<u64>) -> spec_fn(int) -> int {
    |idx: int| outcome_mass(Outcome::Lose, table, board, vs, idx)
}

/// A uniform range played against itself is balanced: added up over all
/// combos, what is won is what is lost. (For a single combo the two differ
/// as a rule: the best combo wins from all and loses to none.)
pub proof fn lemma_self_play_balance(table: Seq<u8>, board: Seq<u8>, vs: Seq<u64>, weight: u64)
    requires
        vs.len() == COMBO_COUNT,
        forall|i: int| 0 <= i < COMBO_COUNT ==> vs[i] == weight,
    ensures
        index_sum(COMBO_COUNT as int, all_wins(table, board, vs)) == index_sum(
            COMBO_COUNT as int,
            all_losses(table, board, vs),
        ),
{
    let n = COMBO_COUNT as int;
    let f = duel(table, board, vs);
    assert forall|h: int| 0 <= h < n implies #[trigger] all_wins(table, board, vs)(h) == row_sums(
        n,
        f,
    )(h) by {
        if combo_on_board(board, h) {
            lemma_index_sum_bounds(n, row(f, h), 0, 0);
        } else {
            lemma_index_sum_equal(n, row(f, h), win_term(table, board, vs, h));
        }
    }
    lemma_index_sum_equal(n, all_wins(table, board, vs), row_sums(n, f));
    assert forall|v: int| 0 <= v < n implies #[trigger] all_losses(table, board, vs)(v)
        == column_sums(n, f)(v) by {
        if combo_on_board(board, v) {
            lemma_index_sum_bounds(n, column(f, v), 0, 0);
        } else {
            lemma_index_sum_equal(n, column(f, v), lose_term(table, board, vs, v));
        }
    }
    lemma_index_sum_equal(n, all_losses(table, board, vs), column_sums(n, f));
    lemma_index_sum_swap(n, n, f);
}

/// The mass of one outcome in an entry.
pub open spec fn mass_of(outcome: Outcome) -> spec_fn(EquityResult) -> int {
    |entry: EquityResult|
        match outcome {
            Outcome::Win => entry.equity.win as int,
            Outcome::Tie => entry.equity.tie as int,
            Outcome::Lose => entry.equity.lose as int,
        }
}

/// The masses of one outcome in a leaf result add up to the masses of that
/// outcome over the slots with weight in the hero's range.
pub proof fn lemma_leaf_total(
    table: Seq<u8>,
    hero: Seq<u64>,
    vs: Seq<u64>,
    board: Seq<u8>,
    results: Seq<EquityResult>,
    outcome: Outcome,
    total: spec_fn(int) -> int,
)
    requires
        leaf_results(table, hero, vs, board, results),
        forall|idx: int|
            0 <= idx < COMBO_COUNT ==> #[trigger] total(idx) == (if hero[idx] > 0 {
                outcome_mass(outcome, table, board, vs, idx)
            } else {
                0
            }),
    ensures
        seq_sum(results, mass_of(outcome)) == index_sum(COMBO_COUNT as int, total),
{
    let key = |entry: EquityResult| entry.hand_idx as int;
    let f = |idx: int| outcome_mass(outcome, table, board, vs, idx);
    let member = |idx: int| scored(board, hero, idx);
    assert forall|k: int| 0 <= k < results.len() implies 0 <= #[trigger] key(results[k])
        < COMBO_COUNT && member(key(results[k])) && mass_of(outcome)(results[k]) == f(
        key(results[k]),
    ) by {
        assert(scored(board, hero, results[k].hand_idx as int));
        assert(entry_matches(results[k], table, board, vs));
    }
    assert forall|idx: int| 0 <= idx < COMBO_COUNT && #[trigger] member(idx) implies exists|k: int|
        0 <= k < results.len() && #[trigger] key(results[k]) == idx by {
        assert(scored(board, hero, idx));
        let k = choose|k: int| 0 <= k < results.len() && (#[trigger] results[k]).hand_idx == idx;
        assert(key(results[k]) == idx);
    }
    assert forall|i: int, j: int| 0 <= i < j < results.len() implies #[trigger] key(results[i])
        != #[trigger] key(results[j]) by {
        assert(results[i].hand_idx != results[j].hand_idx);
    }
    lemma_seq_sum_by_index(
        results,
        key,
        mass_of(outcome),
        f,
        member,
        total,
        COMBO_COUNT as int,
    );
}

/// A uniform range scored against itself is balanced in its results too:
/// the win masses of all entries add up to what the lose masses add up to.
pub proof fn lemma_self_play_results_balance(
    table: Seq<u8>,
    board: Seq<u8>,
    range: Seq<u64>,
    weight: u64,
    results: Seq<EquityResult>,
)
    requires
        range.len() == COMBO_COUNT,
        forall|i: int| 0 <= i < COMBO_COUNT ==> range[i] == weight,
        leaf_results(table, range, range, board, results),
    ensures
        seq_sum(results, mass_of(Outcome::Win)) == seq_sum(results, mass_of(Outcome::Lose)),
{
    let n = COMBO_COUNT as int;
    let wins = all_wins(table, board, range);
    let losses = all_losses(table, board, range);
    if weight > 0 {
        lemma_leaf_total(table, range, range, board, results, Outcome::Win, wins);
        lemma_leaf_total(table, range, range, board, results, Outcome::Lose, losses);
        lemma_self_play_balance(table, board, range, weight);
    } else {
        lemma_zero_villain_results(table, range, range, board, results);
        lemma_seq_sum_bounds(results, mass_of(Outcome::Win), 0, 0);
        lemma_seq_sum_bounds(results, mass_of(Outcome::Lose), 0, 0);
    }
}

/// The mass of one outcome that `results` holds for slot `idx`: that of the
/// entry for the slot, or 0 where there is none.
pub open spec fn entry_mass(results: Seq<EquityResult>, outcome: Outcome, idx: int) -> int
    decreases results.len(),
{
    if results.len() == 0 {
        0
    } else if results.last().hand_idx == idx {
        match outcome {
            Outcome::Win => results.last().equity.win as int,
            Outcome::Tie => results.last().equity.tie as int,
            Outcome::Lose => results.last().equity.lose as int,
        }
    } else {
        entry_mass(results.drop_last(), outcome, idx)
    }
}

/// What a leaf result holds for a slot with weight in the hero's range is
/// the mass of the definition; nothing where the slot's combo is on the
/// board.
pub proof fn lemma_entry_mass(
    table: Seq<u8>,
    hero: Seq<u64>,
    vs: Seq<u64>,
    board: Seq<u8>,
    results: Seq<EquityResult>,
    outcome: Outcome,
    idx: int,
)
    requires
        leaf_results(table, hero, vs, board, results),
        0 <= idx < COMBO_COUNT,
        hero[idx] > 0,
    ensures
        entry_mass(results, outcome, idx) == outcome_mass(outcome, table, board, vs, idx),
{
    if combo_on_board(board, idx) {
        assert forall|k: int| 0 <= k < results.len() implies (#[trigger] results[k]).hand_idx
            != idx by {
            assert(scored(board, hero, results[k].hand_idx as int));
        }
        lemma_entry_mass_absent(results, outcome, idx);
    } else {
        assert(scored(board, hero, idx));
        let k = choose|k: int| 0 <= k < results.len() && (#[trigger] results[k]).hand_idx == idx;
        assert(entry_matches(results[k], table, board, vs));
        lemma_entry_mass_present(results, outcome, idx, k);
    }
}

proof fn lemma_entry_mass_absent(results: Seq<EquityResult>, outcome: Outcome, idx: int)
    requires
        forall|k: int| 0 <= k < results.len() ==> (#[trigger] results[k]).hand_idx != idx,
    ensures
        entry_mass(results, outcome, idx) == 0,
    decreases results.len(),
{
    if results.len() > 0 {
        assert(results.last() == results[results.len() - 1]);
        lemma_entry_mass_absent(results.drop_last(), outcome, idx);
    }
}

proof fn lemma_entry_mass_present(results: Seq<EquityResult>, outcome: Outcome, idx: int, k: int)
    requires
        0 <= k < results.len(),
        results[k].hand_idx == idx,
        forall|i: int, j: int|
            0 <= i < j < results.len() ==> (#[trigger] results[i]).hand_idx != (
            #[trigger] results[j]).hand_idx,
    ensures
        entry_mass(results, outcome, idx) == match outcome {
            Outcome::Win => results[k].equity.win as int,
            Outcome::Tie => results[k].equity.tie as int,
            Outcome::Lose => results[k].equity.lose as int,
        },
    decreases results.len(),
{
    let last = results.len() - 1;
    if k < last {
        assert(results[k].hand_idx != results[last].hand_idx);
        assert(results.drop_last()[k] == results[k]);
        lemma_entry_mass_present(results.drop_last(), outcome, idx, k);
    }
}

/// What the leaf results hold for slot `idx` on the board completed by
/// `river`; 0 where `river` lies below `from` or on the board.
pub open spec fn leaf_river_term(
    leaves: spec_fn(Seq<u8>) -> Seq<EquityResult>,
    outcome: Outcome,
    board: Seq<u8>,
    idx: int,
    from: int,
) -> spec_fn(int) -> int {
    |river: int|
        if river < from || has_card(board, river) {
            0
        } else {
            entry_mass(leaves(board.push(river as u8)), outcome, idx)
        }
}

/// What the leaf results hold for slot `idx`, summed over the rivers above
/// `turn` on the flop completed by `turn`; 0 where `turn` is on the flop.
pub open spec fn leaf_turn_term(
    leaves: spec_fn(Seq<u8>) -> Seq<EquityResult>,
    outcome: Outcome,
    flop: Seq<u8>,
    idx: int,
) -> spec_fn(int) -> int {
    |turn: int|
        if has_card(flop, turn) {
            0
        } else {
            index_sum(
                DECK_SIZE as int,
                leaf_river_term(leaves, outcome, flop.push(turn as u8), idx, turn + 1),
            )
        }
}

/// What the leaf results hold for slot `idx`, summed over every way to
/// finish the board.
pub open spec fn leaf_sum(
    leaves: spec_fn(Seq<u8>) -> Seq<EquityResult>,
    outcome: Outcome,
    board: Seq<u8>,
    idx: int,
) -> int {
    if board.len() == 4 {
        index_sum(DECK_SIZE as int, leaf_river_term(leaves, outcome, board, idx, 0))
    } else {
        index_sum(DECK_SIZE as int, leaf_turn_term(leaves, outcome, board, idx))
    }
}

/// Runouts add up: on an unfinished board, each entry of the result over
/// runouts holds, mass by mass, the sum of what the leaf results on the
/// finished boards hold for the same combo.
pub proof fn lemma_runouts_sum_leaves(
    table: Seq<u8>,
    hero: Seq<u64>,
    vs: Seq<u64>,
    board: Seq<u8>,
    summed: Seq<EquityResult>,
    leaves: spec_fn(Seq<u8>) -> Seq<EquityResult>,
)
    requires
        hero.len() == COMBO_COUNT,
        3 <= board.len() <= 4,
        runout_results(table, hero, vs, board, summed),
        forall|full: Seq<u8>|
            full.len() == 5 ==> leaf_results(table, hero, vs, full, #[trigger] leaves(full)),
    ensures
        forall|k: int|
            0 <= k < summed.len() ==> {
                let entry = #[trigger] summed[k];
                let idx = entry.hand_idx as int;
                &&& entry.equity.win == leaf_sum(leaves, Outcome::Win, board, idx)
                &&& entry.equity.tie == leaf_sum(leaves, Outcome::Tie, board, idx)
                &&& entry.equity.lose == leaf_sum(leaves, Outcome::Lose, board, idx)
            },
{
    let slots = HoldemRange::weighted_slots(hero, COMBO_COUNT as int);
    HoldemRange::lemma_weighted_slots(hero, COMBO_COUNT as int);
    assert forall|k: int| 0 <= k < summed.len() implies {
        let entry = #[trigger] summed[k];
        let idx = entry.hand_idx as int;
        &&& entry.equity.win == leaf_sum(leaves, Outcome::Win, board, idx)
        &&& entry.equity.tie == leaf_sum(leaves, Outcome::Tie, board, idx)
        &&& entry.equity.lose == leaf_sum(leaves, Outcome::Lose, board, idx)
    } by {
        let idx = slots[k];
        assert(summed[k].hand_idx == idx);
        lemma_leaf_sum(table, hero, vs, board, leaves, Outcome::Win, idx);
        lemma_leaf_sum(table, hero, vs, board, leaves, Outcome::Tie, idx);
        lemma_leaf_sum(table, hero, vs, board, leaves, Outcome::Lose, idx);
    }
}

/// The sum of what the leaf results hold for a slot is the slot's mass over
/// the runouts.
pub proof fn lemma_leaf_sum(
    table: Seq<u8>,
    hero: Seq<u64>,
    vs: Seq<u64>,
    board: Seq<u8>,
    leaves: spec_fn(Seq<u8>) -> Seq<EquityResult>,
    outcome: Outcome,
    idx: int,
)
    requires
        0 <= idx < COMBO_COUNT,
        hero[idx] > 0,
        3 <= board.len() <= 4,
        forall|full: Seq<u8>|
            full.len() == 5 ==> leaf_results(table, hero, vs, full, #[trigger] leaves(full)),
    ensures
        leaf_sum(leaves, outcome, board, idx) == runout_mass(outcome, table, board, vs, idx),
{
    let n = DECK_SIZE as int;
    if board.len() == 4 {
        lemma_leaf_rivers(table, hero, vs, board, leaves, outcome, idx, 0);
    } else {
        let by_leaf = leaf_turn_term(leaves, outcome, board, idx);
        let by_mass = turn_term(outcome, table, board, vs, idx);
        assert forall|turn: int| 0 <= turn < n implies #[trigger] by_leaf(turn) == by_mass(
            turn,
        ) by {
            lemma_leaf_rivers(
                table,
                hero,
                vs,
                board.push(turn as u8),
                leaves,
                outcome,
                idx,
                turn + 1,
            );
        }
        lemma_index_sum_equal(n, by_leaf, by_mass);
    }
}

proof fn lemma_leaf_rivers(
    table: Seq<u8>,
    hero: Seq<u64>,
    vs: Seq<u64>,
    board: Seq<u8>,
    leaves: spec_fn(Seq<u8>) -> Seq<EquityResult>,
    outcome: Outcome,
    idx: int,
    from: int,
)
    requires
        0 <= idx < COMBO_COUNT,
        hero[idx] > 0,
        board.len() == 4,
        forall|full: Seq<u8>|
            full.len() == 5 ==> leaf_results(table, hero, vs, full, #[trigger] leaves(full)),
    ensures
        index_sum(DECK_SIZE as int, leaf_river_term(leaves, outcome, board, idx, from)) == river_mass(
            outcome,
            table,
            board,
            vs,
            idx,
            from,
        ),
{
    let n = DECK_SIZE as int;
    let by_leaf = leaf_river_term(leaves, outcome, board, idx, from);
    let by_mass = river_term(outcome, table, board, vs, idx, from);
    assert forall|river: int| 0 <= river < n implies #[trigger] by_leaf(river) == by_mass(river) by {
        let full = board.push(river as u8);
        lemma_entry_mass(table, hero, vs, full, leaves(full), outcome, idx);
    }
    lemma_index_sum_equal(n, by_leaf, by_mass);
}

/// The weight of a villain entry whose hand shares no card with the hero's
/// hand or with the board.
pub open spec fn omaha_opposing_term(hero: Seq<u8>, board: Seq<u8>) -> spec_fn((Seq<u8>, u64)) -> int {
    |entry: (Seq<u8>, u64)|
        if !share_card(hero, entry.0) && !share_card(entry.0, board) {
            entry.1 as int
        } else {
            0
        }
}

/// Mass is conserved in Omaha: on a finished board win, tie and lose add up
/// to the weight of the villain entries whose hands share no card with the
/// hero's hand or with the board.
pub proof fn lemma_omaha_conserves_mass(
    table: Seq<u8>,
    hero: Seq<u8>,
    range: Seq<(Seq<u8>, u64)>,
    board: Seq<u8>,
)
    ensures
        omaha_mass(Outcome::Win, table, hero, range, board) + omaha_mass(
            Outcome::Tie,
            table,
            hero,
            range,
            board,
        ) + omaha_mass(Outcome::Lose, table, hero, range, board) == seq_sum(
            range,
            omaha_opposing_term(hero, board),
        ),
    decreases range.len(),
{
    if range.len() > 0 {
        lemma_omaha_conserves_mass(table, hero, range.drop_last(), board);
    }
}

/// Against an Omaha range without weight every mass is zero.
pub proof fn lemma_omaha_zero_villain(
    outcome: Outcome,
    table: Seq<u8>,
    hero: Seq<u8>,
    range: Seq<(Seq<u8>, u64)>,
    board: Seq<u8>,
)
    requires
        forall|i: int| 0 <= i < range.len() ==> (#[trigger] range[i]).1 == 0,
    ensures
        omaha_mass(outcome, table, hero, range, board) == 0,
{
    lemma_seq_sum_bounds(range, omaha_term(outcome, table, hero, board), 0, 0);
    assert(range.len() * 0 == 0) by (nonlinear_arith);
}

} // verus!
