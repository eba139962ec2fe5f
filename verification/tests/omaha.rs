use poker_equity::equity::omaha::{
    calculate_omaha_equity_from_flop, calculate_omaha_equity_from_turn,
    calculate_omaha_equity_monte_carlo_flop, calculate_omaha_equity_vs_range,
    calculate_omaha_leaf_equity, eval_omaha_hand, hand_overlaps_board, hands_overlap, pick_two,
    sample_two_cards, RunoutEquities,
};
use poker_equity::{Equity, EquityError, OmahaRange};

// A small hand evaluator and a rank table built from it, over just the card
// sequences that a test walks.

fn rank5(cards: &[u8]) -> u32 {
    let mut counts = [0u32; 13];
    for &c in cards {
        counts[(c / 4) as usize] += 1;
    }
    let flush = cards.iter().all(|&c| c % 4 == cards[0] % 4);
    let mut order: Vec<(u32, u32)> = Vec::new();
    for r in 0..13u32 {
        if counts[r as usize] > 0 {
            order.push((counts[r as usize], r));
        }
    }
    order.sort_by(|a, b| b.cmp(a));
    let distinct = order.len() == 5;
    let high = order.iter().map(|p| p.1).max().unwrap();
    let low = order.iter().map(|p| p.1).min().unwrap();
    let wheel = distinct && counts[12] == 1 && counts[0] == 1 && counts[1] == 1 && counts[2] == 1
        && counts[3] == 1;
    let straight = (distinct && high - low == 4) || wheel;
    let category: u32 = if straight && flush {
        8
    } else if order[0].0 == 4 {
        7
    } else if order[0].0 == 3 && order[1].0 == 2 {
        6
    } else if flush {
        5
    } else if straight {
        4
    } else if order[0].0 == 3 {
        3
    } else if order[0].0 == 2 && order[1].0 == 2 {
        2
    } else if order[0].0 == 2 {
        1
    } else {
        0
    };
    let mut kickers: u32 = 0;
    if straight {
        kickers = if wheel { 3 } else { high };
    } else {
        for p in &order {
            for _ in 0..p.0 {
                kickers = kickers * 13 + p.1;
            }
        }
    }
    ((category + 1) << 20) | kickers
}

fn best_rank(cards: &[u8]) -> u32 {
    let n = cards.len();
    let mut best = 0u32;
    for a in 0..n {
        for b in (a + 1)..n {
            for c in (b + 1)..n {
                for d in (c + 1)..n {
                    for e in (d + 1)..n {
                        let five = [cards[a], cards[b], cards[c], cards[d], cards[e]];
                        best = best.max(rank5(&five));
                    }
                }
            }
        }
    }
    best
}

struct Table {
    words: Vec<u32>,
}

impl Table {
    fn new() -> Table {
        Table { words: vec![0; 106] }
    }

    fn child(&mut self, state: usize, card: u8, size: usize) -> usize {
        let slot = state + card as usize + 1;
        if self.words[slot] == 0 {
            let p = self.words.len();
            self.words.resize(p + size, 0);
            self.words[slot] = p as u32;
        }
        self.words[slot] as usize
    }

    fn insert(&mut self, cards: &[u8]) {
        let rank = best_rank(cards);
        let mut state = 53usize;
        if cards.len() == 7 {
            for &c in &cards[..6] {
                state = self.child(state, c, 53);
            }
            self.words[state + cards[6] as usize + 1] = rank;
        } else {
            let last = cards.len() - 1;
            for (i, &c) in cards.iter().enumerate() {
                state = self.child(state, c, if i == last { 1 } else { 53 });
            }
            self.words[state] = rank;
        }
    }

    fn bytes(&self) -> Vec<u8> {
        let mut out = Vec::with_capacity(self.words.len() * 4);
        for w in &self.words {
            out.extend_from_slice(&w.to_le_bytes());
        }
        out
    }
}

fn card(text: &str) -> u8 {
    poker_equity::string_to_card(text).unwrap()
}

fn cards(texts: &[&str]) -> Vec<u8> {
    texts.iter().map(|t| card(t)).collect()
}

fn insert_hand(table: &mut Table, board: &[u8], hole: &[u8]) {
    for b1 in 0..5 {
        for b2 in (b1 + 1)..5 {
            for b3 in (b2 + 1)..5 {
                for h1 in 0..hole.len() {
                    for h2 in (h1 + 1)..hole.len() {
                        table.insert(&[board[b1], board[b2], board[b3], hole[h1], hole[h2]]);
                    }
                }
            }
        }
    }
}

fn shares(a: &[u8], b: &[u8]) -> bool {
    a.iter().any(|c| b.contains(c))
}

fn table_for(boards: &[Vec<u8>], hero: &[u8], range: &OmahaRange) -> Vec<u8> {
    let mut table = Table::new();
    for board in boards {
        if !shares(hero, board) {
            insert_hand(&mut table, board, hero);
        }
        for (hand, _) in range.iter() {
            if !shares(hand, board) {
                insert_hand(&mut table, board, hand);
            }
        }
    }
    table.bytes()
}

// The best hand of exactly two hole cards and exactly three board cards.
fn two_plus_three(board: &[u8], hole: &[u8]) -> u32 {
    let mut best = 0;
    for b1 in 0..5 {
        for b2 in (b1 + 1)..5 {
            for b3 in (b2 + 1)..5 {
                for h1 in 0..hole.len() {
                    for h2 in (h1 + 1)..hole.len() {
                        best = best.max(rank5(&[board[b1], board[b2], board[b3], hole[h1], hole[h2]]));
                    }
                }
            }
        }
    }
    best
}

fn pairwise(board: &[u8], hero: &[u8], range: &OmahaRange) -> Equity {
    let mine = two_plus_three(board, hero);
    let (mut win, mut tie, mut lose) = (0u128, 0u128, 0u128);
    for (hand, weight) in range.iter() {
        if shares(hero, hand) || shares(hand, board) {
            continue;
        }
        let theirs = two_plus_three(board, hand);
        if mine > theirs {
            win += weight as u128;
        } else if mine == theirs {
            tie += weight as u128;
        } else {
            lose += weight as u128;
        }
    }
    Equity { win, tie, lose }
}

fn board5(board: &[u8]) -> [u8; 5] {
    [board[0], board[1], board[2], board[3], board[4]]
}

fn range_of(size: usize, hands: &[(&[&str], u64)]) -> OmahaRange {
    let mut range = OmahaRange::new(size);
    for (hand, weight) in hands {
        range.add_hand(&cards(hand), *weight);
    }
    range
}

#[test]
fn a_set_beats_an_overpair() {
    let board = cards(&["2c", "7d", "Ts", "3h", "9c"]);
    let hero = cards(&["As", "Ah", "Ks", "Kh"]);
    let range = range_of(4, &[(&["2d", "2h", "3c", "3d"], 1)]);
    let table = table_for(&[board.clone()], &hero, &range);
    let runout = calculate_omaha_leaf_equity(&table, &hero, &range, &board5(&board));
    assert_eq!(runout.board(), board);
    assert_eq!(runout.equity(), Equity { win: 0, tie: 0, lose: 1 });
}

#[test]
fn an_overpair_beats_an_underpair() {
    let board = cards(&["2c", "7d", "Ts", "3h", "9c"]);
    let hero = cards(&["As", "Ah", "Ks", "Kh"]);
    let range = range_of(4, &[(&["4d", "4h", "5c", "6d"], 1)]);
    let table = table_for(&[board.clone()], &hero, &range);
    let runout = calculate_omaha_leaf_equity(&table, &hero, &range, &board5(&board));
    assert_eq!(runout.equity(), Equity { win: 1, tie: 0, lose: 0 });
    let range = range_of(4, &[(&["Qd", "Qh", "5c", "Jd"], 1)]);
    let table = table_for(&[board.clone()], &hero, &range);
    let runout = calculate_omaha_leaf_equity(&table, &hero, &range, &board5(&board));
    assert_eq!(runout.equity(), Equity { win: 1, tie: 0, lose: 0 });
}

#[test]
fn one_ace_makes_no_wheel_with_four_board_cards() {
    let board = cards(&["2c", "3d", "4h", "5s", "Kc"]);
    let hero = cards(&["As", "Qd", "Jd", "9h"]);
    let range = range_of(4, &[(&["Kd", "Kh", "7c", "8c"], 1)]);
    let table = table_for(&[board.clone()], &hero, &range);
    let mut seven = board.clone();
    seven.extend_from_slice(&hero);
    assert_eq!(best_rank(&seven) >> 20, 5);
    assert_eq!(two_plus_three(&board, &hero) >> 20, 1);
    let rank = eval_omaha_hand(&table, &hero, &board5(&board));
    assert_eq!(rank as u32, two_plus_three(&board, &hero));
    let runout = calculate_omaha_leaf_equity(&table, &hero, &range, &board5(&board));
    assert_eq!(runout.equity(), Equity { win: 0, tie: 0, lose: 1 });
}

#[test]
fn best_rank_over_all_hand_sizes() {
    let board = cards(&["2c", "7d", "Ts", "3h", "9c"]);
    for hole in [
        cards(&["As", "Ah", "Ks", "Kh"]),
        cards(&["8s", "Jh", "Ks", "Kh", "2d"]),
        cards(&["8s", "Jh", "6s", "4d", "5d", "Td"]),
    ] {
        let mut table = Table::new();
        insert_hand(&mut table, &board, &hole);
        let rank = eval_omaha_hand(&table.bytes(), &hole, &board5(&board));
        assert_eq!(rank as u32, two_plus_three(&board, &hole));
    }
}

#[test]
fn blocked_hands_count_for_nothing() {
    let board = cards(&["2c", "7d", "Ts", "3h", "9c"]);
    let hero = cards(&["As", "Ah", "Ks", "Kh"]);
    let range = range_of(
        4,
        &[
            (&["As", "Qh", "5c", "Jd"], 10),
            (&["2c", "Qh", "5c", "Jd"], 20),
            (&["Qd", "Qh", "5c", "Jd"], 3),
            (&["Qd", "Qh", "5c", "Jd"], 4),
            (&["Td", "Th", "5c", "Jd"], 5),
            (&["Ad", "Ac", "Kd", "Kc"], 6),
        ],
    );
    let table = table_for(&[board.clone()], &hero, &range);
    let runout = calculate_omaha_leaf_equity(&table, &hero, &range, &board5(&board));
    assert_eq!(runout.equity(), Equity { win: 7, tie: 6, lose: 5 });
    assert_eq!(runout.equity(), pairwise(&board, &hero, &range));
}

#[test]
fn an_empty_or_weightless_range_gives_zeros() {
    let board = cards(&["2c", "7d", "Ts", "3h", "9c"]);
    let hero = cards(&["As", "Ah", "Ks", "Kh"]);
    let range = OmahaRange::new(4);
    let table = table_for(&[board.clone()], &hero, &range);
    let runout = calculate_omaha_leaf_equity(&table, &hero, &range, &board5(&board));
    assert_eq!(runout.equity(), Equity::default());
    let range = range_of(4, &[(&["Qd", "Qh", "5c", "Jd"], 0), (&["Td", "Th", "5c", "Jd"], 0)]);
    let table = table_for(&[board.clone()], &hero, &range);
    let runout = calculate_omaha_leaf_equity(&table, &hero, &range, &board5(&board));
    assert_eq!(runout.equity(), Equity::default());
}

#[test]
fn overlap_of_hands_and_boards() {
    assert!(hands_overlap(&[1, 2, 3, 4], &[9, 8, 7, 4]));
    assert!(hands_overlap(&[1, 2, 3, 4], &[1, 8, 7, 6]));
    assert!(!hands_overlap(&[1, 2, 3, 4], &[9, 8, 7, 6]));
    assert!(!hands_overlap(&[], &[9, 8, 7, 6]));
    assert!(hand_overlaps_board(&[1, 2, 3, 4], &[10, 11, 12, 13, 4]));
    assert!(!hand_overlaps_board(&[1, 2, 3, 4], &[10, 11, 12, 13, 14]));
}

fn runouts(board: &[u8], hero: &[u8]) -> Vec<Vec<u8>> {
    let used = |c: &u8| board.contains(c) || hero.contains(c);
    let mut out = Vec::new();
    if board.len() == 5 {
        out.push(board.to_vec());
    } else if board.len() == 4 {
        for river in 0..52u8 {
            if !used(&river) {
                let mut full = board.to_vec();
                full.push(river);
                out.push(full);
            }
        }
    } else {
        for turn in 0..52u8 {
            for river in (turn + 1)..52 {
                if !used(&turn) && !used(&river) {
                    let mut full = board.to_vec();
                    full.push(turn);
                    full.push(river);
                    out.push(full);
                }
            }
        }
    }
    out
}

fn check_runouts(results: &[RunoutEquities], boards: &[Vec<u8>], hero: &[u8], range: &OmahaRange) {
    assert_eq!(results.len(), boards.len());
    for (runout, board) in results.iter().zip(boards) {
        assert_eq!(&runout.board(), board);
        assert_eq!(runout.equity(), pairwise(board, hero, range));
    }
}

fn villains() -> OmahaRange {
    range_of(
        4,
        &[
            (&["Qd", "Qh", "5c", "Jd"], 3),
            (&["Td", "Th", "6c", "6d"], 5),
            (&["8s", "9s", "Js", "4d"], 2),
        ],
    )
}

#[test]
fn every_river_from_the_turn() {
    let turn = cards(&["2c", "7d", "Ts", "3h"]);
    let hero = cards(&["As", "Ah", "Ks", "Kh"]);
    let range = villains();
    let boards = runouts(&turn, &hero);
    assert_eq!(boards.len(), 44);
    let table = table_for(&boards, &hero, &range);
    let results = calculate_omaha_equity_from_turn(&table, &hero, &range, &[0, 21, 35, 6]);
    assert_eq!(turn, vec![0, 21, 35, 6]);
    check_runouts(&results, &boards, &hero, &range);
    let same = calculate_omaha_equity_vs_range(&table, &hero, &range, &turn).unwrap();
    assert_eq!(results, same);
}

#[test]
fn every_turn_and_river_from_the_flop() {
    let flop = cards(&["2c", "7d", "Ts"]);
    let hero = cards(&["As", "Ah", "Ks", "Kh"]);
    let range = villains();
    let boards = runouts(&flop, &hero);
    assert_eq!(boards.len(), 990);
    let table = table_for(&boards, &hero, &range);
    let results = calculate_omaha_equity_from_flop(&table, &hero, &range, &[0, 21, 35]);
    check_runouts(&results, &boards, &hero, &range);
    let same = calculate_omaha_equity_vs_range(&table, &hero, &range, &flop).unwrap();
    assert_eq!(results, same);
}

#[test]
fn a_finished_board_gives_one_runout() {
    let board = cards(&["2c", "7d", "Ts", "3h", "9c"]);
    let hero = cards(&["As", "Ah", "Ks", "Kh", "4c"]);
    let range = range_of(5, &[(&["Qd", "Qh", "5c", "Jd", "Jc"], 3)]);
    let table = table_for(&[board.clone()], &hero, &range);
    let results = calculate_omaha_equity_vs_range(&table, &hero, &range, &board).unwrap();
    check_runouts(&results, &[board.clone()], &hero, &range);
    assert_eq!(results[0].equity(), Equity { win: 3, tie: 0, lose: 0 });
}

#[test]
fn shapes_that_are_refused() {
    let table: Vec<u8> = Vec::new();
    let range = OmahaRange::new(5);
    let flop = [0u8, 21, 35];
    assert_eq!(
        calculate_omaha_equity_vs_range(&table, &[40, 41, 42], &range, &flop),
        Err(EquityError::HandSize { got: 3 })
    );
    assert_eq!(
        calculate_omaha_equity_vs_range(&table, &[40, 41, 42, 43, 44, 45, 46], &range, &flop),
        Err(EquityError::HandSize { got: 7 })
    );
    assert_eq!(
        calculate_omaha_equity_vs_range(&table, &[40, 41, 42, 43], &range, &flop),
        Err(EquityError::HandSizeMismatch { hero: 4, range: 5 })
    );
    assert_eq!(
        calculate_omaha_equity_vs_range(&table, &[40, 41, 42, 43, 44], &range, &[0, 21]),
        Err(EquityError::BoardLength)
    );
    assert_eq!(
        calculate_omaha_equity_vs_range(&table, &[40, 41, 42, 43, 44], &range, &[0, 1, 2, 3, 4, 5]),
        Err(EquityError::BoardLength)
    );
    assert_eq!(
        calculate_omaha_equity_vs_range(&table, &[40, 41, 42], &range, &[0, 21]),
        Err(EquityError::HandSize { got: 3 })
    );
}

#[test]
fn two_cards_are_picked_by_swapping_out() {
    assert_eq!(pick_two(vec![10, 20, 30, 40], 0, 0), [10, 40]);
    assert_eq!(pick_two(vec![10, 20, 30, 40], 0, 1), [10, 20]);
    assert_eq!(pick_two(vec![10, 20, 30, 40], 3, 2), [40, 30]);
    assert_eq!(pick_two(vec![10, 20, 30, 40], 1, 1), [20, 40]);
    assert_eq!(pick_two(vec![10, 20], 1, 0), [20, 10]);
}

#[test]
fn samples_are_two_different_free_cards() {
    let used: u64 = (1 << 3) | (1 << 17) | (1 << 51) | 1;
    let mut seen = [false; 52];
    for _ in 0..2000 {
        let pair = sample_two_cards(used).unwrap();
        assert_ne!(pair[0], pair[1]);
        for c in pair {
            assert!(c < 52 && used & (1u64 << c) == 0);
            seen[c as usize] = true;
        }
    }
    assert!(seen.iter().filter(|s| **s).count() > 40);
    let all_but_one: u64 = ((1u64 << 52) - 1) & !(1 << 9);
    assert_eq!(sample_two_cards(all_but_one), None);
    let all_but_two: u64 = all_but_one & !(1 << 30);
    let pair = sample_two_cards(all_but_two).unwrap();
    assert!(pair == [9, 30] || pair == [30, 9]);
    assert_eq!(sample_two_cards((1u64 << 52) - 1), None);
}

fn share_won(results: &[RunoutEquities]) -> f64 {
    let mut won = 0f64;
    let mut all = 0f64;
    for r in results {
        let e = r.equity();
        won += e.win() as f64 + e.tie() as f64 / 2.0;
        all += (e.win() + e.tie() + e.lose()) as f64;
    }
    won / all
}

#[test]
fn samples_agree_with_the_enumeration() {
    let flop = cards(&["2c", "7d", "Ts"]);
    let hero = cards(&["As", "Ah", "Ks", "Kh"]);
    let range = villains();
    let mut boards = runouts(&flop, &hero);
    let swapped: Vec<Vec<u8>> =
        boards.iter().map(|b| vec![b[0], b[1], b[2], b[4], b[3]]).collect();
    boards.extend(swapped);
    let table = table_for(&boards, &hero, &range);
    let exact = calculate_omaha_equity_from_flop(&table, &hero, &range, &[0, 21, 35]);
    let sampled = calculate_omaha_equity_monte_carlo_flop(&table, &hero, &range, &[0, 21, 35], 10000);
    assert_eq!(sampled.len(), 10000);
    for runout in &sampled {
        let board = runout.board();
        assert_eq!(&board[..3], &flop[..]);
        assert_ne!(board[3], board[4]);
        assert!(!flop.contains(&board[3]) && !hero.contains(&board[3]));
        assert!(!flop.contains(&board[4]) && !hero.contains(&board[4]));
        assert_eq!(runout.equity(), pairwise(&board, &hero, &range));
    }
    assert!((share_won(&sampled) - share_won(&exact)).abs() < 0.02);
    assert!(calculate_omaha_equity_monte_carlo_flop(&table, &hero, &range, &[0, 21, 35], 0).is_empty());
}
