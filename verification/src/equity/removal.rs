//! Why the prefix sums over the sorted records give the masses of the
//! definition: the card-removal argument.

use vstd::prelude::*;
use crate::cards::{
    combo_has, combo_high, combo_low, lemma_combo_of_index, lemma_combo_slots_differ, COMBO_COUNT,
};
use crate::equity::blocker::{
    below_weight, block_around, blocked_at, combo_rank, describes, gated, held_before,
    held_weight, in_play, lemma_held_before_step, lemma_in_play_sum, lemma_slot_sum, prefix_at,
    prefixes_of, raw_tie, raw_total, raw_win, slot_term, slots_in_play, slots_of, ComboInfo,
};
use crate::equity::holdem::{
    lose_mass, lose_term, opposing_mass, opposing_term, tie_mass, tie_term, win_mass, win_term,
};
use crate::sums::{
    index_sum, lemma_index_sum_add, lemma_index_sum_add3, lemma_index_sum_add4,
    lemma_index_sum_bounds, lemma_index_sum_single, lemma_seq_sum_bounds,
    lemma_seq_sum_permutation, lemma_seq_sum_remove, lemma_seq_sum_take, seq_sum,
};

verus! {

/// The records in play, before and after sorting, for one board and one
/// pair of ranges.
pub open spec fn arranged(
    table: Seq<u8>,
    board: Seq<u8>,
    hero: Seq<u64>,
    vs: Seq<u64>,
    gathered: Seq<ComboInfo>,
    sorted: Seq<ComboInfo>,
) -> bool {
    &&& hero.len() == COMBO_COUNT
    &&& vs.len() == COMBO_COUNT
    &&& slots_of(gathered) == slots_in_play(board, hero, vs, COMBO_COUNT as int)
    &&& sorted.to_multiset() == gathered.to_multiset()
    &&& forall|k: int|
        0 <= k < gathered.len() ==> describes(#[trigger] gathered[k], table, board, hero, vs)
}

/// Sorting keeps the number of records and what each record says.
pub proof fn lemma_sorted_describes(
    table: Seq<u8>,
    board: Seq<u8>,
    hero: Seq<u64>,
    vs: Seq<u64>,
    gathered: Seq<ComboInfo>,
    sorted: Seq<ComboInfo>,
)
    requires
        arranged(table, board, hero, vs, gathered, sorted),
    ensures
        sorted.len() == gathered.len(),
        forall|k: int| 0 <= k < sorted.len() ==> describes(#[trigger] sorted[k], table, board, hero, vs),
{
    broadcast use vstd::seq_lib::group_to_multiset_ensures;

    assert(sorted.to_multiset().len() == gathered.to_multiset().len());
    assert forall|k: int| 0 <= k < sorted.len() implies describes(
        #[trigger] sorted[k],
        table,
        board,
        hero,
        vs,
    ) by {
        let x = sorted[k];
        assert(sorted.contains(x));
        assert(sorted.to_multiset().count(x) > 0);
        assert(gathered.contains(x));
        let j = choose|j: int| 0 <= j < gathered.len() && gathered[j] == x;
        assert(describes(gathered[j], table, board, hero, vs));
    }
}

/// A sum of a slot term over the sorted records is the sum of its gated
/// form over all slots.
pub proof fn lemma_sorted_sum(
    table: Seq<u8>,
    board: Seq<u8>,
    hero: Seq<u64>,
    vs: Seq<u64>,
    gathered: Seq<ComboInfo>,
    sorted: Seq<ComboInfo>,
    f: spec_fn(int) -> int,
)
    requires
        arranged(table, board, hero, vs, gathered, sorted),
    ensures
        seq_sum(sorted, slot_term(f)) == index_sum(COMBO_COUNT as int, gated(board, hero, vs, f)),
{
    lemma_seq_sum_permutation(sorted, gathered, slot_term(f));
    lemma_slot_sum(gathered, f);
    lemma_in_play_sum(board, hero, vs, COMBO_COUNT as int, f);
}

/// The term that is 1 on slot `idx` and 0 elsewhere.
pub open spec fn marks(idx: int) -> spec_fn(int) -> int {
    |v: int| if v == idx { 1int } else { 0int }
}

/// No two sorted records have the same slot.
pub proof fn lemma_sorted_slots_differ(
    table: Seq<u8>,
    board: Seq<u8>,
    hero: Seq<u64>,
    vs: Seq<u64>,
    gathered: Seq<ComboInfo>,
    sorted: Seq<ComboInfo>,
    i: int,
    j: int,
)
    requires
        arranged(table, board, hero, vs, gathered, sorted),
        0 <= i < j < sorted.len(),
    ensures
        sorted[i].idx != sorted[j].idx,
{
    if sorted[i].idx == sorted[j].idx {
        let idx = sorted[i].idx as int;
        let f = marks(idx);
        lemma_sorted_describes(table, board, hero, vs, gathered, sorted);
        lemma_sorted_sum(table, board, hero, vs, gathered, sorted, f);
        lemma_index_sum_single(COMBO_COUNT as int, gated(board, hero, vs, f), idx);
        lemma_seq_sum_remove(sorted, j, slot_term(f));
        let rest = sorted.remove(j);
        assert(rest[i] == sorted[i]);
        lemma_seq_sum_remove(rest, i, slot_term(f));
        lemma_seq_sum_bounds(rest.remove(i), slot_term(f), 0, 1);
        assert(0 <= rest.remove(i).len() * 0) by (nonlinear_arith);
    }
}

/// Every slot in play has a record among the sorted ones.
pub proof fn lemma_sorted_holds(
    table: Seq<u8>,
    board: Seq<u8>,
    hero: Seq<u64>,
    vs: Seq<u64>,
    gathered: Seq<ComboInfo>,
    sorted: Seq<ComboInfo>,
    idx: int,
) -> (pos: int)
    requires
        arranged(table, board, hero, vs, gathered, sorted),
        0 <= idx < COMBO_COUNT,
        in_play(board, hero, vs, idx),
    ensures
        0 <= pos < sorted.len(),
        sorted[pos].idx == idx,
{
    let f = marks(idx);
    lemma_sorted_sum(table, board, hero, vs, gathered, sorted, f);
    lemma_index_sum_single(COMBO_COUNT as int, gated(board, hero, vs, f), idx);
    if forall|k: int| 0 <= k < sorted.len() ==> (#[trigger] sorted[k]).idx != idx {
        lemma_seq_sum_bounds(sorted, slot_term(f), 0, 0);
        assert(sorted.len() * 0 == 0) by (nonlinear_arith);
    }
    choose|k: int| 0 <= k < sorted.len() && (#[trigger] sorted[k]).idx == idx
}

/// The villain weight held by the first `n` sorted records, where those are
/// exactly the records that rank below `bound`, is the villain weight of the
/// slots in play that rank below `bound`.
pub proof fn lemma_prefix_mass(
    table: Seq<u8>,
    board: Seq<u8>,
    hero: Seq<u64>,
    vs: Seq<u64>,
    gathered: Seq<ComboInfo>,
    sorted: Seq<ComboInfo>,
    n: int,
    bound: int,
    card: int,
)
    requires
        arranged(table, board, hero, vs, gathered, sorted),
        0 <= n <= sorted.len(),
        forall|k: int| 0 <= k < n ==> (#[trigger] sorted[k]).p < bound,
        forall|k: int| n <= k < sorted.len() ==> (#[trigger] sorted[k]).p >= bound,
    ensures
        held_before(sorted, n, card) == index_sum(
            COMBO_COUNT as int,
            gated(board, hero, vs, below_weight(table, board, vs, bound, card)),
        ),
{
    let f = below_weight(table, board, vs, bound, card);
    lemma_sorted_describes(table, board, hero, vs, gathered, sorted);
    assert forall|i: int| 0 <= i < n implies #[trigger] slot_term(f)(sorted[i]) == held_weight(card)(
        sorted[i],
    ) by {
        assert(describes(sorted[i], table, board, hero, vs));
        assert(sorted[i].p < bound);
    }
    assert forall|i: int| n <= i < sorted.len() implies #[trigger] slot_term(f)(sorted[i]) == 0 by {
        assert(describes(sorted[i], table, board, hero, vs));
        assert(sorted[i].p >= bound);
    }
    lemma_seq_sum_take(sorted, n, held_weight(card), slot_term(f));
    lemma_sorted_sum(table, board, hero, vs, gathered, sorted, f);
}

/// The villain weight of the slots in play that rank below `bound` and hold
/// `card` (rank below `bound`, where `card` is negative).
pub open spec fn mass_below(
    table: Seq<u8>,
    board: Seq<u8>,
    hero: Seq<u64>,
    vs: Seq<u64>,
    bound: int,
    card: int,
) -> int {
    index_sum(
        COMBO_COUNT as int,
        gated(board, hero, vs, below_weight(table, board, vs, bound, card)),
    )
}

/// The term that is the villain weight of slot `idx` on that slot and 0
/// elsewhere.
pub open spec fn own_term(vs: Seq<u64>, idx: int) -> spec_fn(int) -> int {
    |v: int| if v == idx { vs[idx] as int } else { 0int }
}

/// The three masses of a combo add up to the mass it is scored against.
pub proof fn lemma_masses_add_up(table: Seq<u8>, board: Seq<u8>, vs: Seq<u64>, hero_idx: int)
    ensures
        win_mass(table, board, vs, hero_idx) + tie_mass(table, board, vs, hero_idx) + lose_mass(
            table,
            board,
            vs,
            hero_idx,
        ) == opposing_mass(board, vs, hero_idx),
        0 <= win_mass(table, board, vs, hero_idx) <= COMBO_COUNT * u64::MAX,
        0 <= tie_mass(table, board, vs, hero_idx) <= COMBO_COUNT * u64::MAX,
        0 <= lose_mass(table, board, vs, hero_idx) <= COMBO_COUNT * u64::MAX,
        0 <= opposing_mass(board, vs, hero_idx) <= COMBO_COUNT * u64::MAX,
{
    let n = COMBO_COUNT as int;
    lemma_index_sum_add3(
        n,
        win_term(table, board, vs, hero_idx),
        tie_term(table, board, vs, hero_idx),
        lose_term(table, board, vs, hero_idx),
        opposing_term(board, vs, hero_idx),
    );
    lemma_index_sum_bounds(n, win_term(table, board, vs, hero_idx), 0, u64::MAX as int);
    lemma_index_sum_bounds(n, tie_term(table, board, vs, hero_idx), 0, u64::MAX as int);
    lemma_index_sum_bounds(n, lose_term(table, board, vs, hero_idx), 0, u64::MAX as int);
    lemma_index_sum_bounds(n, opposing_term(board, vs, hero_idx), 0, u64::MAX as int);
}

/// Below the hero's rank, taking out the slots that hold either hero card
/// leaves the mass that the hero beats.
pub proof fn lemma_win_by_removal(
    table: Seq<u8>,
    board: Seq<u8>,
    hero: Seq<u64>,
    vs: Seq<u64>,
    hero_idx: int,
)
    requires
        hero.len() == COMBO_COUNT,
        vs.len() == COMBO_COUNT,
        0 <= hero_idx < COMBO_COUNT,
    ensures
        ({
            let rank = combo_rank(table, board, hero_idx);
            mass_below(table, board, hero, vs, rank, -1) - mass_below(
                table,
                board,
                hero,
                vs,
                rank,
                combo_low(hero_idx),
            ) - mass_below(table, board, hero, vs, rank, combo_high(hero_idx)) == win_mass(
                table,
                board,
                vs,
                hero_idx,
            )
        }),
{
    let n = COMBO_COUNT as int;
    let rank = combo_rank(table, board, hero_idx);
    let c1 = combo_low(hero_idx);
    let c2 = combo_high(hero_idx);
    let all = gated(board, hero, vs, below_weight(table, board, vs, rank, -1));
    let with1 = gated(board, hero, vs, below_weight(table, board, vs, rank, c1));
    let with2 = gated(board, hero, vs, below_weight(table, board, vs, rank, c2));
    let win = win_term(table, board, vs, hero_idx);
    lemma_combo_of_index(hero_idx);
    assert forall|v: int| 0 <= v < n implies #[trigger] all(v) == win(v) + with1(v) + with2(v) by {
        lemma_combo_of_index(v);
        if combo_has(v, c1) && combo_has(v, c2) {
            lemma_combo_slots_differ(v, hero_idx);
        }
    }
    lemma_index_sum_add3(n, win, with1, with2, all);
}

/// Up to and including the hero's rank, taking out the slots that hold
/// either hero card and putting the hero's own slot back once leaves the
/// mass that the hero beats or ties with.
pub proof fn lemma_tie_by_removal(
    table: Seq<u8>,
    board: Seq<u8>,
    hero: Seq<u64>,
    vs: Seq<u64>,
    hero_idx: int,
)
    requires
        hero.len() == COMBO_COUNT,
        vs.len() == COMBO_COUNT,
        0 <= hero_idx < COMBO_COUNT,
        in_play(board, hero, vs, hero_idx),
    ensures
        ({
            let next = combo_rank(table, board, hero_idx) + 1;
            mass_below(table, board, hero, vs, next, -1) + vs[hero_idx] - mass_below(
                table,
                board,
                hero,
                vs,
                next,
                combo_low(hero_idx),
            ) - mass_below(table, board, hero, vs, next, combo_high(hero_idx)) == win_mass(
                table,
                board,
                vs,
                hero_idx,
            ) + tie_mass(table, board, vs, hero_idx)
        }),
{
    let n = COMBO_COUNT as int;
    let next = combo_rank(table, board, hero_idx) + 1;
    let c1 = combo_low(hero_idx);
    let c2 = combo_high(hero_idx);
    let all = gated(board, hero, vs, below_weight(table, board, vs, next, -1));
    let with1 = gated(board, hero, vs, below_weight(table, board, vs, next, c1));
    let with2 = gated(board, hero, vs, below_weight(table, board, vs, next, c2));
    let win = win_term(table, board, vs, hero_idx);
    let tie = tie_term(table, board, vs, hero_idx);
    let own = own_term(vs, hero_idx);
    let both = |v: int| all(v) + own(v);
    lemma_combo_of_index(hero_idx);
    assert forall|v: int| 0 <= v < n implies #[trigger] both(v) == win(v) + tie(v) + with1(v)
        + with2(v) by {
        lemma_combo_of_index(v);
        if combo_has(v, c1) && combo_has(v, c2) {
            lemma_combo_slots_differ(v, hero_idx);
        }
    }
    lemma_index_sum_add4(n, win, tie, with1, with2, both);
    lemma_index_sum_add(n, all, own, both);
    lemma_index_sum_single(n, own, hero_idx);
}

/// Over all ranks, taking out the slots that hold either hero card and
/// putting the hero's own slot back once leaves the mass that the hero is
/// scored against.
pub proof fn lemma_total_by_removal(
    table: Seq<u8>,
    board: Seq<u8>,
    hero: Seq<u64>,
    vs: Seq<u64>,
    hero_idx: int,
)
    requires
        hero.len() == COMBO_COUNT,
        vs.len() == COMBO_COUNT,
        0 <= hero_idx < COMBO_COUNT,
        in_play(board, hero, vs, hero_idx),
    ensures
        ({
            let top = i32::MAX + 1;
            mass_below(table, board, hero, vs, top, -1) + vs[hero_idx] - mass_below(
                table,
                board,
                hero,
                vs,
                top,
                combo_low(hero_idx),
            ) - mass_below(table, board, hero, vs, top, combo_high(hero_idx)) == opposing_mass(
                board,
                vs,
                hero_idx,
            )
        }),
{
    let n = COMBO_COUNT as int;
    let top = i32::MAX + 1;
    let c1 = combo_low(hero_idx);
    let c2 = combo_high(hero_idx);
    let all = gated(board, hero, vs, below_weight(table, board, vs, top, -1));
    let with1 = gated(board, hero, vs, below_weight(table, board, vs, top, c1));
    let with2 = gated(board, hero, vs, below_weight(table, board, vs, top, c2));
    let opposing = opposing_term(board, vs, hero_idx);
    let own = own_term(vs, hero_idx);
    let both = |v: int| all(v) + own(v);
    lemma_combo_of_index(hero_idx);
    assert forall|v: int| 0 <= v < n implies #[trigger] both(v) == opposing(v) + with1(v) + with2(
        v,
    ) by {
        lemma_combo_of_index(v);
        if combo_has(v, c1) && combo_has(v, c2) {
            lemma_combo_slots_differ(v, hero_idx);
        }
    }
    lemma_index_sum_add3(n, opposing, with1, with2, both);
    lemma_index_sum_add(n, all, own, both);
    lemma_index_sum_single(n, own, hero_idx);
}

/// The prefix sums give the masses: for the record at `pos` in its block
/// `[start, end]`, what is read off the running sums and corrected for the
/// hero's two cards is the mass the hero beats, the mass it ties with, and
/// the mass it is scored against.
pub proof fn lemma_scores_from_prefixes(
    table: Seq<u8>,
    board: Seq<u8>,
    hero: Seq<u64>,
    vs: Seq<u64>,
    gathered: Seq<ComboInfo>,
    sorted: Seq<ComboInfo>,
    weights: Seq<u128>,
    blocked: Seq<u128>,
    pos: int,
    start: int,
    end: int,
)
    requires
        arranged(table, board, hero, vs, gathered, sorted),
        prefixes_of(sorted, weights, blocked),
        block_around(sorted, start, end, pos),
    ensures
        ({
            let info = sorted[pos];
            let idx = info.idx as int;
            let c1 = info.combo@[0] as int;
            let c2 = info.combo@[1] as int;
            let own = info.vs_weight as int;
            &&& raw_win(weights, blocked, start, c1, c2) == win_mass(table, board, vs, idx)
            &&& raw_tie(weights, blocked, start, end, c1, c2, own) == tie_mass(table, board, vs, idx)
            &&& raw_total(weights, blocked, c1, c2, own) == opposing_mass(board, vs, idx)
        }),
{
    lemma_sorted_describes(table, board, hero, vs, gathered, sorted);
    let info = sorted[pos];
    let idx = info.idx as int;
    let rank = combo_rank(table, board, idx);
    let c1 = info.combo@[0] as int;
    let c2 = info.combo@[1] as int;
    let n = sorted.len() as int;
    let top = i32::MAX + 1;
    assert(describes(info, table, board, hero, vs));
    lemma_combo_of_index(idx);
    assert forall|k: int| 0 <= k < end + 1 implies (#[trigger] sorted[k]).p < rank + 1 by {
        if k < start {
            assert(sorted[k].p < sorted[pos].p);
        } else {
            assert(sorted[k].p == sorted[pos].p);
        }
    }
    assert forall|k: int| start <= k < n implies (#[trigger] sorted[k]).p >= rank by {
        if k <= end {
            assert(sorted[k].p == sorted[pos].p);
        }
    }
    lemma_prefix_mass(table, board, hero, vs, gathered, sorted, start, rank, -1);
    lemma_prefix_mass(table, board, hero, vs, gathered, sorted, start, rank, c1);
    lemma_prefix_mass(table, board, hero, vs, gathered, sorted, start, rank, c2);
    lemma_prefix_mass(table, board, hero, vs, gathered, sorted, end + 1, rank + 1, -1);
    lemma_prefix_mass(table, board, hero, vs, gathered, sorted, end + 1, rank + 1, c1);
    lemma_prefix_mass(table, board, hero, vs, gathered, sorted, end + 1, rank + 1, c2);
    lemma_prefix_mass(table, board, hero, vs, gathered, sorted, n, top, -1);
    lemma_prefix_mass(table, board, hero, vs, gathered, sorted, n, top, c1);
    lemma_prefix_mass(table, board, hero, vs, gathered, sorted, n, top, c2);
    lemma_held_before_step(sorted, 0, -1);
    lemma_held_before_step(sorted, 0, c1);
    lemma_held_before_step(sorted, 0, c2);
    assert(prefix_at(weights, start) == held_before(sorted, start, -1));
    assert(blocked_at(blocked, start, c1) == held_before(sorted, start, c1)) by {
        if start > 0 {
            assert(blocked[(start - 1) * 52 + c1] == held_before(sorted, start, c1));
        }
    }
    assert(blocked_at(blocked, start, c2) == held_before(sorted, start, c2)) by {
        if start > 0 {
            assert(blocked[(start - 1) * 52 + c2] == held_before(sorted, start, c2));
        }
    }
    assert(blocked_at(blocked, end + 1, c1) == held_before(sorted, end + 1, c1)) by {
        assert(blocked[end * 52 + c1] == held_before(sorted, end + 1, c1));
    }
    assert(blocked_at(blocked, end + 1, c2) == held_before(sorted, end + 1, c2)) by {
        assert(blocked[end * 52 + c2] == held_before(sorted, end + 1, c2));
    }
    assert(blocked_at(blocked, n, c1) == held_before(sorted, n, c1)) by {
        assert(blocked[(n - 1) * 52 + c1] == held_before(sorted, n, c1));
    }
    assert(blocked_at(blocked, n, c2) == held_before(sorted, n, c2)) by {
        assert(blocked[(n - 1) * 52 + c2] == held_before(sorted, n, c2));
    }
    lemma_win_by_removal(table, board, hero, vs, idx);
    lemma_tie_by_removal(table, board, hero, vs, idx);
    lemma_total_by_removal(table, board, hero, vs, idx);
}

} // verus!
