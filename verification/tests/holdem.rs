use poker_equity::equity::holdem::{calculate_equity_vs_range, calculate_leaf_equity};
use poker_equity::{Equity, EquityError, EquityResult, HoldemRange};

// A small hand evaluator and a rank table built from it, over just the card
// sequences that a test walks.

fn rank5(cards: &[u8]) -> u32 {
    let mut counts = [0u32; 13];
    for &c in cards {
        counts[(c / 4) as usize] += 1;
    }
    let flush = cards.iter().all(|&c| c % 4 == cards[0] % 4);
    let mut order: Vec<(u32, u32)> = Vec::new();
    for r in 0..13u32 {
        if counts[r as usize] > 0 {
            order.push((counts[r as usize], r));
        }
    }
    order.sort_by(|a, b| b.cmp(a));
    let distinct = order.len() == 5;
    let high = order.iter().map(|p| p.1).max().unwrap();
    let low = order.iter().map(|p| p.1).min().unwrap();
    let wheel = distinct && counts[12] == 1 && counts[0] == 1 && counts[1] == 1 && counts[2] == 1
        && counts[3] == 1;
    let straight = (distinct && high - low == 4) || wheel;
    let category: u32 = if straight && flush {
        8
    } else if order[0].0 == 4 {
        7
    } else if order[0].0 == 3 && order[1].0 == 2 {
        6
    } else if flush {
        5
    } else if straight {
        4
    } else if order[0].0 == 3 {
        3
    } else if order[0].0 == 2 && order[1].0 == 2 {
        2
    } else if order[0].0 == 2 {
        1
    } else {
        0
    };
    let mut kickers: u32 = 0;
    if straight {
        kickers = if wheel { 3 } else { high };
    } else {
        for p in &order {
            for _ in 0..p.0 {
                kickers = kickers * 13 + p.1;
            }
        }
    }
    ((category + 1) << 20) | kickers
}

fn best_rank(cards: &[u8]) -> u32 {
    let n = cards.len();
    let mut best = 0u32;
    for a in 0..n {
        for b in (a + 1)..n {
            for c in (b + 1)..n {
                for d in (c + 1)..n {
                    for e in (d + 1)..n {
                        let five = [cards[a], cards[b], cards[c], cards[d], cards[e]];
                        best = best.max(rank5(&five));
                    }
                }
            }
        }
    }
    best
}

struct Table {
    words: Vec<u32>,
}

impl Table {
    fn new() -> Table {
        Table { words: vec![0; 106] }
    }

    fn child(&mut self, state: usize, card: u8, size: usize) -> usize {
        let slot = state + card as usize + 1;
        if self.words[slot] == 0 {
            let p = self.words.len();
            self.words.resize(p + size, 0);
            self.words[slot] = p as u32;
        }
        self.words[slot] as usize
    }

    fn insert(&mut self, cards: &[u8]) {
        let rank = best_rank(cards);
        let mut state = 53usize;
        if cards.len() == 7 {
            for &c in &cards[..6] {
                state = self.child(state, c, 53);
            }
            self.words[state + cards[6] as usize + 1] = rank;
        } else {
            let last = cards.len() - 1;
            for (i, &c) in cards.iter().enumerate() {
                state = self.child(state, c, if i == last { 1 } else { 53 });
            }
            self.words[state] = rank;
        }
    }

    fn bytes(&self) -> Vec<u8> {
        let mut out = Vec::with_capacity(self.words.len() * 4);
        for w in &self.words {
            out.extend_from_slice(&w.to_le_bytes());
        }
        out
    }
}

fn on_board(board: &[u8], idx: usize) -> bool {
    let hand = HoldemRange::from_hand_idx(idx);
    board.contains(&hand[0]) || board.contains(&hand[1])
}

fn table_for(boards: &[Vec<u8>], hero: &HoldemRange, vs: &HoldemRange) -> Vec<u8> {
    let mut table = Table::new();
    for board in boards {
        for idx in 0..1326 {
            if on_board(board, idx) || (hero.get_weight(idx) == 0 && vs.get_weight(idx) == 0) {
                continue;
            }
            let hand = HoldemRange::from_hand_idx(idx);
            let mut cards = board.clone();
            cards.extend_from_slice(&hand);
            table.insert(&cards);
        }
    }
    table.bytes()
}

fn overlap(a: usize, b: usize) -> bool {
    let x = HoldemRange::from_hand_idx(a);
    let y = HoldemRange::from_hand_idx(b);
    x[0] == y[0] || x[0] == y[1] || x[1] == y[0] || x[1] == y[1]
}

fn rank_on(board: &[u8], idx: usize) -> u32 {
    let hand = HoldemRange::from_hand_idx(idx);
    let mut cards = board.to_vec();
    cards.extend_from_slice(&hand);
    best_rank(&cards)
}

// Equity of one combo by comparing it with every villain combo in turn.
fn pairwise(board: &[u8], vs: &HoldemRange, hero_idx: usize) -> (u128, u128, u128) {
    let mine = rank_on(board, hero_idx);
    let (mut win, mut tie, mut lose) = (0u128, 0u128, 0u128);
    for v in 0..1326 {
        let w = vs.get_weight(v) as u128;
        if w == 0 || on_board(board, v) || overlap(hero_idx, v) {
            continue;
        }
        let theirs = rank_on(board, v);
        if mine > theirs {
            win += w;
        } else if mine == theirs {
            tie += w;
        } else {
            lose += w;
        }
    }
    (win, tie, lose)
}

fn by_slot(mut results: Vec<EquityResult>) -> Vec<EquityResult> {
    results.sort_by_key(|r| r.hand_idx());
    results
}

fn check_leaf(board: &[u8], hero: &HoldemRange, vs: &HoldemRange) -> Vec<EquityResult> {
    let table = table_for(&[board.to_vec()], hero, vs);
    let results = calculate_leaf_equity(&table, hero, vs, board);
    for pair in results.windows(2) {
        assert!(rank_on(board, pair[0].hand_idx()) <= rank_on(board, pair[1].hand_idx()));
    }
    let sorted = by_slot(results.clone());
    let expected: Vec<usize> =
        (0..1326).filter(|&i| hero.get_weight(i) > 0 && !on_board(board, i)).collect();
    assert_eq!(sorted.iter().map(|r| r.hand_idx()).collect::<Vec<_>>(), expected);
    for r in &sorted {
        let (win, tie, lose) = pairwise(board, vs, r.hand_idx());
        assert_eq!(r.equity(), Equity { win, tie, lose });
        assert_eq!(r.combo(), HoldemRange::from_hand_idx(r.hand_idx()).to_vec());
    }
    results
}

fn card(text: &str) -> u8 {
    poker_equity::string_to_card(text).unwrap()
}

fn cards(texts: &[&str]) -> Vec<u8> {
    texts.iter().map(|t| card(t)).collect()
}

fn uniform(weight: u64) -> HoldemRange {
    let mut range = HoldemRange::new();
    for i in 0..1326 {
        range.set(i, weight);
    }
    range
}

fn pocket_pairs(rank: u8, weight: u64) -> HoldemRange {
    let mut range = HoldemRange::new();
    for a in 0..4u8 {
        for b in (a + 1)..4 {
            range.set_hand(&[rank * 4 + a, rank * 4 + b], weight).unwrap();
        }
    }
    range
}

#[test]
fn aces_beat_kings_on_a_blank_board() {
    let board = cards(&["2c", "7d", "Ts", "3h", "9c"]);
    let hero = pocket_pairs(12, 1);
    let vs = pocket_pairs(11, 1);
    let results = check_leaf(&board, &hero, &vs);
    assert_eq!(results.len(), 6);
    for r in &results {
        assert_eq!(r.equity(), Equity { win: 6, tie: 0, lose: 0 });
    }
}

#[test]
fn a_combo_is_not_scored_against_itself() {
    let board = cards(&["2c", "7d", "Ts", "3h", "9c"]);
    let mut hero = HoldemRange::new();
    hero.set_hand(&cards(&["As", "Ah"]), 1).unwrap();
    let vs = hero.clone();
    let results = check_leaf(&board, &hero, &vs);
    assert_eq!(results.len(), 1);
    assert_eq!(results[0].combo(), cards(&["Ah", "As"]));
    assert_eq!(results[0].equity(), Equity { win: 0, tie: 0, lose: 0 });
}

#[test]
fn uniform_ranges_leave_990_opposing_combos() {
    let board = cards(&["2c", "7d", "Ts", "3h", "9c"]);
    let hero = uniform(1);
    let vs = uniform(1);
    let results = check_leaf(&board, &hero, &vs);
    assert_eq!(results.len(), 1081);
    let mut won = 0u128;
    let mut lost = 0u128;
    for r in &results {
        let e = r.equity();
        assert_eq!(e.win() + e.tie() + e.lose(), 990);
        won += e.win();
        lost += e.lose();
    }
    assert_eq!(won, lost);
}

#[test]
fn weights_are_carried_as_mass() {
    let board = cards(&["Kc", "Kd", "5s", "5h", "9c"]);
    let mut hero = HoldemRange::new();
    let mut vs = HoldemRange::new();
    let mut seed = 12345u64;
    for i in 0..1326 {
        seed = seed.wrapping_mul(6364136223846793005).wrapping_add(1442695040888963407);
        if (seed >> 60) < 5 {
            hero.set(i, (seed >> 33) % 1000);
        }
        seed = seed.wrapping_mul(6364136223846793005).wrapping_add(1442695040888963407);
        if (seed >> 60) < 9 {
            vs.set(i, (seed >> 33) % 100000);
        }
    }
    let results = check_leaf(&board, &hero, &vs);
    assert!(results.len() > 100);
    for r in &results {
        let e = r.equity();
        let mut mass = 0u128;
        for v in 0..1326 {
            if !on_board(&board, v) && !overlap(r.hand_idx(), v) {
                mass += vs.get_weight(v) as u128;
            }
        }
        assert_eq!(e.win() + e.tie() + e.lose(), mass);
    }
}

#[test]
fn largest_weights_do_not_overflow() {
    let board = cards(&["2c", "7d", "Ts", "3h", "9c"]);
    let hero = uniform(1);
    let vs = uniform(u64::MAX);
    let results = check_leaf(&board, &hero, &vs);
    for r in &results {
        let e = r.equity();
        assert_eq!(e.win() + e.tie() + e.lose(), 990 * (u64::MAX as u128));
    }
}

#[test]
fn a_villain_without_weight_gives_zeros() {
    let board = cards(&["2c", "7d", "Ts", "3h", "9c"]);
    let hero = pocket_pairs(12, 3);
    let vs = HoldemRange::new();
    let results = check_leaf(&board, &hero, &vs);
    assert_eq!(results.len(), 6);
    for r in &results {
        assert_eq!(r.equity(), Equity::default());
    }
    let flop = cards(&["2c", "7d", "Ts"]);
    let table = table_for(&[], &hero, &vs);
    let summed = calculate_equity_vs_range(&table, &hero, &vs, &flop).unwrap();
    assert_eq!(summed.len(), 6);
    for r in &summed {
        assert_eq!(r.equity(), Equity::default());
    }
}

#[test]
fn an_empty_hero_range_gives_no_entries() {
    let board = cards(&["2c", "7d", "Ts", "3h", "9c"]);
    let hero = HoldemRange::new();
    let vs = pocket_pairs(11, 1);
    assert!(check_leaf(&board, &hero, &vs).is_empty());
}

#[test]
fn a_short_board_is_scored_as_it_stands() {
    let board = cards(&["2c", "7d", "Ts"]);
    let hero = pocket_pairs(12, 1);
    let mut vs = pocket_pairs(11, 2);
    vs.set_hand(&cards(&["Tc", "Td"]), 5).unwrap();
    let results = check_leaf(&board, &hero, &vs);
    for r in &results {
        assert_eq!(r.equity(), Equity { win: 12, tie: 0, lose: 5 });
    }
}

fn runouts(board: &[u8]) -> Vec<Vec<u8>> {
    let mut out = Vec::new();
    if board.len() == 4 {
        for river in 0..52u8 {
            if !board.contains(&river) {
                let mut full = board.to_vec();
                full.push(river);
                out.push(full);
            }
        }
    } else {
        for turn in 0..52u8 {
            for river in (turn + 1)..52 {
                if !board.contains(&turn) && !board.contains(&river) {
                    let mut full = board.to_vec();
                    full.push(turn);
                    full.push(river);
                    out.push(full);
                }
            }
        }
    }
    out
}

fn check_runouts(board: &[u8], hero: &HoldemRange, vs: &HoldemRange) -> Vec<EquityResult> {
    let boards = runouts(board);
    let table = table_for(&boards, hero, vs);
    let results = calculate_equity_vs_range(&table, hero, vs, board).unwrap();
    let expected: Vec<usize> = (0..1326).filter(|&i| hero.get_weight(i) > 0).collect();
    assert_eq!(results.iter().map(|r| r.hand_idx()).collect::<Vec<_>>(), expected);
    for r in &results {
        let mut sum = Equity::default();
        for full in &boards {
            if on_board(full, r.hand_idx()) {
                continue;
            }
            let (win, tie, lose) = pairwise(full, vs, r.hand_idx());
            sum = Equity { win: sum.win() + win, tie: sum.tie() + tie, lose: sum.lose() + lose };
        }
        assert_eq!(r.equity(), sum);
        assert_eq!(r.combo(), HoldemRange::from_hand_idx(r.hand_idx()).to_vec());
        let mut leaves = Equity::default();
        for full in &boards {
            for leaf in calculate_leaf_equity(&table, hero, vs, full) {
                if leaf.hand_idx() == r.hand_idx() {
                    let e = leaf.equity();
                    leaves = Equity {
                        win: leaves.win() + e.win(),
                        tie: leaves.tie() + e.tie(),
                        lose: leaves.lose() + e.lose(),
                    };
                }
            }
        }
        assert_eq!(r.equity(), leaves);
    }
    results
}

#[test]
fn aces_against_kings_from_the_flop() {
    let flop = cards(&["2c", "7d", "Ts"]);
    assert_eq!(runouts(&flop).len(), 1176);
    let mut hero = HoldemRange::new();
    hero.set_hand(&cards(&["As", "Ah"]), 1).unwrap();
    let mut vs = HoldemRange::new();
    vs.set_hand(&cards(&["Ks", "Kh"]), 1).unwrap();
    let results = check_runouts(&flop, &hero, &vs);
    assert_eq!(results.len(), 1);
    assert_eq!(results[0].equity(), Equity { win: 907, tie: 0, lose: 83 });
    let e = results[0].equity();
    let share = e.win() as f64 / (e.win() + e.tie() + e.lose()) as f64;
    assert!((share - 0.916).abs() < 0.001);
}

#[test]
fn ranges_from_the_turn() {
    let turn = cards(&["2c", "7d", "Ts", "Jh"]);
    assert_eq!(runouts(&turn).len(), 48);
    let mut hero = pocket_pairs(12, 2);
    hero.set_hand(&cards(&["Qs", "9s"]), 7).unwrap();
    hero.set_hand(&cards(&["2d", "7c"]), 1).unwrap();
    let mut vs = pocket_pairs(11, 3);
    vs.set_hand(&cards(&["Ac", "Kc"]), 4).unwrap();
    vs.set_hand(&cards(&["8h", "9h"]), 5).unwrap();
    let results = check_runouts(&turn, &hero, &vs);
    assert_eq!(results.len(), 8);
}

#[test]
fn a_combo_on_the_flop_keeps_its_entry() {
    let flop = cards(&["2c", "7d", "Ts"]);
    let mut hero = HoldemRange::new();
    hero.set_hand(&cards(&["2c", "Ah"]), 1).unwrap();
    hero.set_hand(&cards(&["As", "Ah"]), 1).unwrap();
    let mut vs = HoldemRange::new();
    vs.set_hand(&cards(&["Ks", "Kh"]), 1).unwrap();
    let results = check_runouts(&flop, &hero, &vs);
    assert_eq!(results.len(), 2);
    assert_eq!(results[0].combo(), cards(&["2c", "Ah"]));
    assert_eq!(results[0].equity(), Equity::default());
}

#[test]
fn a_finished_board_goes_to_the_leaf_engine() {
    let board = cards(&["2c", "7d", "Ts", "3h", "9c"]);
    let hero = pocket_pairs(12, 1);
    let vs = pocket_pairs(11, 1);
    let table = table_for(&[board.clone()], &hero, &vs);
    let leaf = calculate_leaf_equity(&table, &hero, &vs, &board);
    let all = calculate_equity_vs_range(&table, &hero, &vs, &board).unwrap();
    assert_eq!(leaf, all);
}

#[test]
fn boards_of_other_lengths_are_refused() {
    let hero = HoldemRange::new();
    let vs = HoldemRange::new();
    let table: Vec<u8> = Vec::new();
    for len in [0usize, 1, 2, 6, 7] {
        let board: Vec<u8> = (0..len as u8).collect();
        assert_eq!(
            calculate_equity_vs_range(&table, &hero, &vs, &board),
            Err(EquityError::BoardLength)
        );
    }
}
