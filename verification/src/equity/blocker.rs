//! The record the Hold'em engine keeps for each combo in play, and the
//! machinery that scores the sorted records: runs of equal rank, running
//! sums of villain weight in all and per card, and the blocker correction.

use vstd::prelude::*;
use crate::cards::{
    combo_cards, combo_has, combo_high, combo_low, combo_on_board, COMBO_COUNT, DECK_SIZE,
};
use crate::evaluator::hand_rank;
use crate::sums::{index_sum, lemma_seq_sum_bounds, lemma_seq_sum_push, seq_sum};
use crate::types::Equity;

verus! {

/// One combo in play on a board: its rank, its slot, the weight it has in
/// the hero's range and in the villain's, and its two cards.
#[derive(Debug, Clone, Copy)]
pub struct ComboInfo {
    pub p: i32,
    pub idx: u16,
    pub self_weight: u64,
    pub vs_weight: u64,
    pub combo: [u8; 2],
}

/// The rank of the combo in slot `idx` on `board`.
pub open spec fn combo_rank(table: Seq<u8>, board: Seq<u8>, idx: int) -> int {
    hand_rank(table, board, combo_cards(idx)) as int
}

/// Whether the combo in slot `idx` is in play: clear of the board and with
/// weight in at least one of the two ranges.
pub open spec fn in_play(board: Seq<u8>, hero: Seq<u64>, vs: Seq<u64>, idx: int) -> bool {
    !combo_on_board(board, idx) && (vs[idx] > 0 || hero[idx] > 0)
}

/// Whether `info` is the record of the combo in its slot.
pub open spec fn describes(
    info: ComboInfo,
    table: Seq<u8>,
    board: Seq<u8>,
    hero: Seq<u64>,
    vs: Seq<u64>,
) -> bool {
    let idx = info.idx as int;
    &&& idx < COMBO_COUNT
    &&& in_play(board, hero, vs, idx)
    &&& info.p == combo_rank(table, board, idx)
    &&& info.self_weight == hero[idx]
    &&& info.vs_weight == vs[idx]
    &&& info.combo@.len() == 2
    &&& info.combo@[0] == combo_low(idx)
    &&& info.combo@[1] == combo_high(idx)
}

/// The slots in play below `n`, in increasing order.
pub open spec fn slots_in_play(board: Seq<u8>, hero: Seq<u64>, vs: Seq<u64>, n: int) -> Seq<int>
    decreases n,
{
    if n <= 0 {
        Seq::empty()
    } else if in_play(board, hero, vs, n - 1) {
        slots_in_play(board, hero, vs, n - 1).push(n - 1)
    } else {
        slots_in_play(board, hero, vs, n - 1)
    }
}

/// The slots of the records, in order.
pub open spec fn slots_of(infos: Seq<ComboInfo>) -> Seq<int> {
    infos.map_values(|info: ComboInfo| info.idx as int)
}

/// A term over slots read as a term over records.
pub open spec fn slot_term(f: spec_fn(int) -> int) -> spec_fn(ComboInfo) -> int {
    |info: ComboInfo| f(info.idx as int)
}

/// A term over slots that counts only the slots in play.
pub open spec fn gated(
    board: Seq<u8>,
    hero: Seq<u64>,
    vs: Seq<u64>,
    f: spec_fn(int) -> int,
) -> spec_fn(int) -> int {
    |idx: int| if in_play(board, hero, vs, idx) { f(idx) } else { 0 }
}

/// The villain weight of a record that holds `card`; of any record where
/// `card` is negative.
pub open spec fn held_weight(card: int) -> spec_fn(ComboInfo) -> int {
    |info: ComboInfo|
        if card < 0 || info.combo@[0] == card || info.combo@[1] == card {
            info.vs_weight as int
        } else {
            0
        }
}

/// The villain weight of a slot whose combo ranks below `bound` and holds
/// `card` (any combo where `card` is negative).
pub open spec fn below_weight(
    table: Seq<u8>,
    board: Seq<u8>,
    vs: Seq<u64>,
    bound: int,
    card: int,
) -> spec_fn(int) -> int {
    |idx: int|
        if combo_rank(table, board, idx) < bound && (card < 0 || combo_has(idx, card)) {
            vs[idx] as int
        } else {
            0
        }
}

/// Summing a slot term over records is summing it over their slots.
pub proof fn lemma_slot_sum(infos: Seq<ComboInfo>, f: spec_fn(int) -> int)
    ensures
        seq_sum(infos, slot_term(f)) == seq_sum(slots_of(infos), f),
    decreases infos.len(),
{
    if infos.len() > 0 {
        lemma_slot_sum(infos.drop_last(), f);
        assert(slots_of(infos).drop_last() =~= slots_of(infos.drop_last()));
    }
}

/// Summing a term over the slots in play is summing its gated form over
/// all slots.
pub proof fn lemma_in_play_sum(
    board: Seq<u8>,
    hero: Seq<u64>,
    vs: Seq<u64>,
    n: int,
    f: spec_fn(int) -> int,
)
    ensures
        seq_sum(slots_in_play(board, hero, vs, n), f) == index_sum(n, gated(board, hero, vs, f)),
    decreases n,
{
    if n > 0 {
        lemma_in_play_sum(board, hero, vs, n - 1, f);
        if in_play(board, hero, vs, n - 1) {
            lemma_seq_sum_push(slots_in_play(board, hero, vs, n - 1), n - 1, f);
        }
    }
}

/// Whether the ranks of the records never decrease along the sequence.
pub open spec fn sorted_by_rank(infos: Seq<ComboInfo>) -> bool {
    forall|i: int, j: int| 0 <= i <= j < infos.len() ==> infos[i].p <= infos[j].p
}

/// Orders the records by rank, weakest first, with
/// `slice::sort_unstable_by_key` of the standard library. Believed of it:
/// the records afterwards are the records before, each as often as before,
/// and their ranks never decrease. The order among records of equal rank is
/// left open.
#[verifier::external_body]
pub(crate) fn sort_by_rank(all: &mut Vec<ComboInfo>)
    ensures
        final(all)@.to_multiset() == old(all)@.to_multiset(),
        sorted_by_rank(final(all)@),
{
    all.sort_unstable_by_key(|info| info.p);
}

/// Block `[start, end]` is the maximal run of records with the rank of the
/// record at `pos`.
pub open spec fn block_around(infos: Seq<ComboInfo>, start: int, end: int, pos: int) -> bool {
    &&& 0 <= start <= pos <= end < infos.len()
    &&& forall|k: int| start <= k <= end ==> (#[trigger] infos[k]).p == infos[pos].p
    &&& forall|k: int| 0 <= k < start ==> (#[trigger] infos[k]).p < infos[pos].p
    &&& forall|k: int| end < k < infos.len() ==> (#[trigger] infos[k]).p > infos[pos].p
}

/// Finds the runs of equal rank in the sorted records: the list of runs as
/// inclusive position pairs, and for each slot the number of its run.
pub(crate) fn rank_blocks(sorted: &Vec<ComboInfo>) -> (blocks: (Vec<(usize, usize)>, Vec<usize>))
    requires
        sorted_by_rank(sorted@),
        forall|k: int| 0 <= k < sorted@.len() ==> (#[trigger] sorted@[k]).idx < COMBO_COUNT,
        forall|i: int, j: int|
            0 <= i < sorted@.len() && 0 <= j < sorted@.len() && sorted@[i].idx == sorted@[j].idx
                ==> sorted@[i].p == sorted@[j].p,
    ensures
        blocks.1@.len() == COMBO_COUNT,
        forall|pos: int|
            0 <= pos < sorted@.len() ==> {
                let r = #[trigger] blocks.1@[sorted@[pos].idx as int];
                &&& r < blocks.0@.len()
                &&& block_around(sorted@, blocks.0@[r as int].0 as int, blocks.0@[r as int].1 as int, pos)
            },
{
    let n: usize = sorted.len();
    let mut ranges: Vec<(usize, usize)> = Vec::new();
    let mut block_of: Vec<usize> = vec![0usize; 1326];
    let mut i: usize = 0;
    while i < n
        invariant
            n == sorted@.len(),
            i <= n,
            block_of@.len() == COMBO_COUNT,
            sorted_by_rank(sorted@),
            forall|k: int| 0 <= k < sorted@.len() ==> (#[trigger] sorted@[k]).idx < COMBO_COUNT,
            forall|a: int, b: int|
                0 <= a < sorted@.len() && 0 <= b < sorted@.len() && sorted@[a].idx == sorted@[b].idx
                    ==> sorted@[a].p == sorted@[b].p,
            i == 0 <==> ranges@.len() == 0,
            i > 0 ==> (#[trigger] ranges@[ranges@.len() - 1]).1 == i - 1,
            forall|r1: int, r2: int|
                0 <= r1 < r2 < ranges@.len() ==> (#[trigger] ranges@[r1]).1 < (
                #[trigger] ranges@[r2]).0,
            forall|r: int|
                0 <= r < ranges@.len() ==> {
                    let start = (#[trigger] ranges@[r]).0 as int;
                    let end = ranges@[r].1 as int;
                    &&& 0 <= start <= end < i
                    &&& forall|k: int| start <= k <= end ==> (#[trigger] sorted@[k]).p == sorted@[start].p
                    &&& forall|k: int| 0 <= k < start ==> (#[trigger] sorted@[k]).p < sorted@[start].p
                    &&& forall|k: int| end < k < i ==> (#[trigger] sorted@[k]).p > sorted@[start].p
                },
            forall|pos: int|
                0 <= pos < i ==> {
                    let r = #[trigger] block_of@[sorted@[pos].idx as int];
                    &&& r < ranges@.len()
                    &&& ranges@[r as int].0 <= pos <= ranges@[r as int].1
                },
        decreases n - i,
    {
        let info: ComboInfo = sorted[i];
        let ghost old_ranges = ranges@;
        let ghost old_block_of = block_of@;
        let extend: bool = i > 0 && sorted[i - 1].p == info.p;
        if extend {
            let last: usize = ranges.len() - 1;
            let start: usize = ranges[last].0;
            ranges.set(last, (start, i));
            proof {
                assert forall|r: int| 0 <= r < ranges@.len() implies {
                    let start = (#[trigger] ranges@[r]).0 as int;
                    let end = ranges@[r].1 as int;
                    &&& 0 <= start <= end < i + 1
                    &&& forall|k: int|
                        start <= k <= end ==> (#[trigger] sorted@[k]).p == sorted@[start].p
                    &&& forall|k: int| 0 <= k < start ==> (#[trigger] sorted@[k]).p < sorted@[start].p
                    &&& forall|k: int| end < k < i + 1 ==> (#[trigger] sorted@[k]).p > sorted@[start].p
                } by {
                    let start = old_ranges[r].0 as int;
                    let end = old_ranges[r].1 as int;
                    if r == last {
                        assert(sorted@[i - 1].p == sorted@[start].p);
                    } else {
                        assert(old_ranges[r].1 < old_ranges[last as int].0);
                        assert(sorted@[i - 1].p > sorted@[start].p);
                    }
                }
            }
        } else {
            ranges.push((i, i));
            proof {
                assert forall|r: int| 0 <= r < ranges@.len() implies {
                    let start = (#[trigger] ranges@[r]).0 as int;
                    let end = ranges@[r].1 as int;
                    &&& 0 <= start <= end < i + 1
                    &&& forall|k: int|
                        start <= k <= end ==> (#[trigger] sorted@[k]).p == sorted@[start].p
                    &&& forall|k: int| 0 <= k < start ==> (#[trigger] sorted@[k]).p < sorted@[start].p
                    &&& forall|k: int| end < k < i + 1 ==> (#[trigger] sorted@[k]).p > sorted@[start].p
                } by {
                    if r < old_ranges.len() {
                        let start = old_ranges[r].0 as int;
                        assert(sorted@[start].p <= sorted@[i - 1].p);
                        assert(sorted@[i - 1].p < sorted@[i as int].p);
                    } else {
                        assert forall|k: int| 0 <= k < i implies (#[trigger] sorted@[k]).p
                            < sorted@[i as int].p by {
                            assert(sorted@[k].p <= sorted@[i - 1].p);
                        }
                    }
                }
            }
        }
        let current: usize = ranges.len() - 1;
        block_of.set(info.idx as usize, current);
        proof {
            assert forall|pos: int| 0 <= pos < i + 1 implies {
                let r = #[trigger] block_of@[sorted@[pos].idx as int];
                &&& r < ranges@.len()
                &&& ranges@[r as int].0 <= pos <= ranges@[r as int].1
            } by {
                if pos < i {
                    let r_old = old_block_of[sorted@[pos].idx as int];
                    if sorted@[pos].idx == info.idx {
                        assert(sorted@[pos].p == sorted@[i as int].p);
                        assert(sorted@[pos].p <= sorted@[i - 1].p);
                        let start = ranges@[current as int].0 as int;
                        if pos < start {
                            assert(sorted@[pos].p < sorted@[start].p);
                        }
                    } else {
                        assert(r_old < old_ranges.len());
                    }
                }
            }
        }
        i += 1;
    }
    proof {
        assert forall|pos: int| 0 <= pos < sorted@.len() implies {
            let r = #[trigger] block_of@[sorted@[pos].idx as int];
            &&& r < ranges@.len()
            &&& block_around(sorted@, ranges@[r as int].0 as int, ranges@[r as int].1 as int, pos)
        } by {
            let r = block_of@[sorted@[pos].idx as int] as int;
            let start = ranges@[r].0 as int;
            assert(sorted@[pos].p == sorted@[start].p);
        }
    }
    (ranges, block_of)
}

/// The running sum `prefix[i]` is the villain weight of the records at
/// positions `0..=i` that hold `card` (of all of them where `card` is
/// negative).
pub open spec fn held_before(sorted: Seq<ComboInfo>, n: int, card: int) -> int {
    seq_sum(sorted.take(n), held_weight(card))
}

/// The running sum grows by the weight the next record holds, starts at 0,
/// and stays within the largest weight for each record counted.
pub proof fn lemma_held_before_step(sorted: Seq<ComboInfo>, n: int, card: int)
    requires
        0 <= n <= sorted.len(),
    ensures
        n < sorted.len() ==> held_before(sorted, n + 1, card) == held_before(sorted, n, card)
            + held_weight(card)(sorted[n]),
        0 <= held_before(sorted, n, card) <= n * u64::MAX,
        held_before(sorted, 0, card) == 0,
{
    if n < sorted.len() {
        assert(sorted.take(n + 1).drop_last() =~= sorted.take(n));
    }
    lemma_seq_sum_bounds(sorted.take(n), held_weight(card), 0, u64::MAX as int);
    assert(sorted.take(0) =~= Seq::<ComboInfo>::empty());
}

/// The running sums of villain weight over the sorted records.
pub(crate) fn weight_prefix(sorted: &Vec<ComboInfo>) -> (prefix: Vec<u128>)
    requires
        sorted@.len() <= COMBO_COUNT,
    ensures
        prefix@.len() == sorted@.len(),
        forall|i: int|
            0 <= i < sorted@.len() ==> #[trigger] prefix@[i] == held_before(sorted@, i + 1, -1),
{
    let n: usize = sorted.len();
    let mut prefix: Vec<u128> = Vec::with_capacity(n);
    let mut total: u128 = 0;
    let mut i: usize = 0;
    proof {
        lemma_held_before_step(sorted@, 0, -1);
    }
    while i < n
        invariant
            n == sorted@.len(),
            n <= COMBO_COUNT,
            i <= n,
            prefix@.len() == i,
            total == held_before(sorted@, i as int, -1),
            total <= i * u64::MAX,
            forall|k: int| 0 <= k < i ==> #[trigger] prefix@[k] == held_before(sorted@, k + 1, -1),
        decreases n - i,
    {
        proof {
            lemma_held_before_step(sorted@, i as int, -1);
        }
        total = total + sorted[i].vs_weight as u128;
        prefix.push(total);
        i += 1;
    }
    prefix
}

/// The running sums of villain weight per card: entry `i * 52 + c` is the
/// villain weight of the records at positions `0..=i` that hold card `c`.
pub(crate) fn blocked_prefix(sorted: &Vec<ComboInfo>) -> (prefix: Vec<u128>)
    requires
        sorted@.len() <= COMBO_COUNT,
        forall|k: int|
            0 <= k < sorted@.len() ==> {
                &&& (#[trigger] sorted@[k]).combo@[0] < sorted@[k].combo@[1]
                &&& sorted@[k].combo@[1] < DECK_SIZE
            },
    ensures
        prefix@.len() == sorted@.len() * 52,
        forall|i: int, c: int|
            0 <= i < sorted@.len() && 0 <= c < 52 ==> #[trigger] prefix@[i * 52 + c] == held_before(
                sorted@,
                i + 1,
                c,
            ),
{
    let n: usize = sorted.len();
    let mut prefix: Vec<u128> = vec![0u128; n * 52];
    let mut i: usize = 0;
    while i < n
        invariant
            n == sorted@.len(),
            n <= COMBO_COUNT,
            i <= n,
            prefix@.len() == n * 52,
            forall|k: int|
                0 <= k < sorted@.len() ==> {
                    &&& (#[trigger] sorted@[k]).combo@[0] < sorted@[k].combo@[1]
                    &&& sorted@[k].combo@[1] < DECK_SIZE
                },
            forall|k: int| i * 52 <= k < n * 52 ==> #[trigger] prefix@[k] == 0,
            forall|r: int, c: int|
                0 <= r < i && 0 <= c < 52 ==> #[trigger] prefix@[r * 52 + c] == held_before(
                    sorted@,
                    r + 1,
                    c,
                ),
        decreases n - i,
    {
        let row: usize = i * 52;
        let ghost filled = prefix@;
        if i > 0 {
            let mut c: usize = 0;
            while c < 52
                invariant
                    0 < i < n,
                    n <= COMBO_COUNT,
                    row == i * 52,
                    c <= 52,
                    prefix@.len() == n * 52,
                    forall|k: int| 0 <= k < row ==> #[trigger] prefix@[k] == filled[k],
                    forall|k: int| row + 52 <= k < n * 52 ==> #[trigger] prefix@[k] == 0,
                    forall|d: int| 0 <= d < c ==> #[trigger] prefix@[row + d] == filled[row - 52 + d],
                    forall|d: int| c <= d < 52 ==> #[trigger] prefix@[row + d] == 0,
                decreases 52 - c,
            {
                let above: u128 = prefix[row - 52 + c];
                prefix.set(row + c, above);
                c += 1;
            }
        }
        let info: ComboInfo = sorted[i];
        let c1: usize = info.combo[0] as usize;
        let c2: usize = info.combo[1] as usize;
        proof {
            lemma_held_before_step(sorted@, i as int, c1 as int);
            lemma_held_before_step(sorted@, i as int, c2 as int);
            if i > 0 {
                assert(prefix@[row + c1] == filled[(i - 1) * 52 + c1]);
                assert(prefix@[row + c2] == filled[(i - 1) * 52 + c2]);
            }
        }
        let at1: u128 = prefix[row + c1];
        prefix.set(row + c1, at1 + info.vs_weight as u128);
        let at2: u128 = prefix[row + c2];
        prefix.set(row + c2, at2 + info.vs_weight as u128);
        proof {
            assert forall|r: int, c: int| 0 <= r < i + 1 && 0 <= c < 52 implies #[trigger] prefix@[r
                * 52 + c] == held_before(sorted@, r + 1, c) by {
                if r == i {
                    lemma_held_before_step(sorted@, i as int, c);
                    if i > 0 {
                        assert(filled[(i - 1) * 52 + c] == held_before(sorted@, i as int, c));
                        if c != c1 && c != c2 {
                            assert(prefix@[row + c] == filled[row - 52 + c]);
                        }
                    }
                } else {
                    assert(prefix@[r * 52 + c] == filled[r * 52 + c]);
                }
            }
        }
        i += 1;
    }
    prefix
}

/// Whether `weights` and `blocked` hold the running sums over `sorted`: in
/// all, and for each of the 52 cards.
pub open spec fn prefixes_of(sorted: Seq<ComboInfo>, weights: Seq<u128>, blocked: Seq<u128>) -> bool {
    &&& weights.len() == sorted.len()
    &&& blocked.len() == sorted.len() * 52
    &&& forall|i: int| 0 <= i < sorted.len() ==> #[trigger] weights[i] == held_before(sorted, i + 1, -1)
    &&& forall|i: int, c: int|
        0 <= i < sorted.len() && 0 <= c < 52 ==> #[trigger] blocked[i * 52 + c] == held_before(
            sorted,
            i + 1,
            c,
        )
}

/// The running villain weight before position `n`: entry `n - 1`, or 0 at
/// the front.
pub open spec fn prefix_at(weights: Seq<u128>, n: int) -> int {
    if n > 0 {
        weights[n - 1] as int
    } else {
        0
    }
}

/// The running villain weight on `card` before position `n`.
pub open spec fn blocked_at(blocked: Seq<u128>, n: int, card: int) -> int {
    if n > 0 {
        blocked[(n - 1) * 52 + card] as int
    } else {
        0
    }
}

/// Weight below the block, less what either hero card blocks of it.
pub open spec fn raw_win(weights: Seq<u128>, blocked: Seq<u128>, start: int, c1: int, c2: int) -> int {
    prefix_at(weights, start) - blocked_at(blocked, start, c1) - blocked_at(blocked, start, c2)
}

/// Weight inside the block, less what either hero card blocks of it, plus
/// the hero's own villain weight, which both cards took out.
pub open spec fn raw_tie(
    weights: Seq<u128>,
    blocked: Seq<u128>,
    start: int,
    end: int,
    c1: int,
    c2: int,
    own: int,
) -> int {
    (prefix_at(weights, end + 1) - prefix_at(weights, start)) - (blocked_at(blocked, end + 1, c1)
        - blocked_at(blocked, start, c1)) - (blocked_at(blocked, end + 1, c2) - blocked_at(
        blocked,
        start,
        c2,
    )) + own
}

/// All weight, less what either hero card blocks of it, plus the hero's own
/// villain weight, which both cards took out.
pub open spec fn raw_total(weights: Seq<u128>, blocked: Seq<u128>, c1: int, c2: int, own: int) -> int {
    let n = weights.len() as int;
    prefix_at(weights, n) - blocked_at(blocked, n, c1) - blocked_at(blocked, n, c2) + own
}

/// Scores one record from the prefix sums: its block is `[start, end]`.
pub(crate) fn score_combo(
    info: &ComboInfo,
    start: usize,
    end: usize,
    weights: &Vec<u128>,
    blocked: &Vec<u128>,
) -> (equity: Equity)
    requires
        start <= end < weights@.len() <= COMBO_COUNT,
        blocked@.len() == weights@.len() * 52,
        info.combo@[0] < DECK_SIZE,
        info.combo@[1] < DECK_SIZE,
        forall|k: int| 0 <= k < weights@.len() ==> #[trigger] weights@[k] <= COMBO_COUNT * u64::MAX,
        forall|k: int| 0 <= k < blocked@.len() ==> #[trigger] blocked@[k] <= COMBO_COUNT * u64::MAX,
        ({
            let c1 = info.combo@[0] as int;
            let c2 = info.combo@[1] as int;
            let own = info.vs_weight as int;
            let win = raw_win(weights@, blocked@, start as int, c1, c2);
            let tie = raw_tie(weights@, blocked@, start as int, end as int, c1, c2, own);
            let total = raw_total(weights@, blocked@, c1, c2, own);
            0 <= win && 0 <= tie && win + tie <= total
        }),
    ensures
        ({
            let c1 = info.combo@[0] as int;
            let c2 = info.combo@[1] as int;
            let own = info.vs_weight as int;
            let win = raw_win(weights@, blocked@, start as int, c1, c2);
            let tie = raw_tie(weights@, blocked@, start as int, end as int, c1, c2, own);
            let total = raw_total(weights@, blocked@, c1, c2, own);
            &&& equity.win == win
            &&& equity.tie == tie
            &&& equity.lose == total - win - tie
        }),
{
    let n: usize = weights.len();
    let c1: usize = info.combo[0] as usize;
    let c2: usize = info.combo[1] as usize;
    let own: u128 = info.vs_weight as u128;
    let below: u128 = if start > 0 {
        weights[start - 1]
    } else {
        0
    };
    let below1: u128 = if start > 0 {
        blocked[(start - 1) * 52 + c1]
    } else {
        0
    };
    let below2: u128 = if start > 0 {
        blocked[(start - 1) * 52 + c2]
    } else {
        0
    };
    let upto: u128 = weights[end];
    let upto1: u128 = blocked[end * 52 + c1];
    let upto2: u128 = blocked[end * 52 + c2];
    let all: u128 = weights[n - 1];
    let all1: u128 = blocked[(n - 1) * 52 + c1];
    let all2: u128 = blocked[(n - 1) * 52 + c2];
    let win: u128 = below - (below1 + below2);
    let tie: u128 = (upto + own + below1 + below2) - (below + upto1 + upto2);
    let total: u128 = (all + own) - (all1 + all2);
    let lose: u128 = total - (win + tie);
    Equity { win, tie, lose }
}

} // verus!
