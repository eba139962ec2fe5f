use poker_equity::{
    Equity, EquityCalculator, EquityError, HoldemRange, OmahaRange,
};

fn words(list: &[(usize, u32)], len: usize) -> Vec<u8> {
    let mut table = vec![0u32; len];
    for (at, value) in list {
        table[*at] = *value;
    }
    let mut out = Vec::new();
    for w in table {
        out.extend_from_slice(&w.to_le_bytes());
    }
    out
}

// A table in which every card leads to a state of its own, whatever came
// before, and the rank read in that state is 1000 plus the card's rank.
fn last_card_table() -> Vec<u8> {
    let state = |c: usize| 53 + 60 * (c + 1);
    let mut list = Vec::new();
    for c in 0..52 {
        list.push((53 + c + 1, state(c) as u32));
        list.push((state(c), (1000 + c / 4) as u32));
        for next in 0..52 {
            list.push((state(c) + next + 1, state(next) as u32));
        }
    }
    words(&list, state(52) + 53)
}

#[test]
fn holdem_queries_need_both_ranges() {
    let mut calc = EquityCalculator::new(Vec::new());
    let board = [0u8, 1, 2, 3, 4];
    assert_eq!(calc.equity_vs_range(&board), Err(EquityError::NoHeroRange));
    assert_eq!(calc.leaf_equity_vs_range(&board), Err(EquityError::NoHeroRange));
    calc.set_vs_range(HoldemRange::new());
    assert_eq!(calc.equity_vs_range(&board), Err(EquityError::NoHeroRange));
    let mut calc = EquityCalculator::new(Vec::new());
    calc.set_hero_range(HoldemRange::new());
    assert_eq!(calc.equity_vs_range(&board), Err(EquityError::NoVillainRange));
    assert_eq!(calc.leaf_equity_vs_range(&board), Err(EquityError::NoVillainRange));
    assert_eq!(calc.equity_vs_range(&[0, 1]), Err(EquityError::NoVillainRange));
    calc.set_vs_range(HoldemRange::new());
    assert_eq!(calc.equity_vs_range(&board), Ok(Vec::new()));
    assert_eq!(calc.leaf_equity_vs_range(&board), Ok(Vec::new()));
}

#[test]
fn holdem_queries_check_the_board() {
    let mut calc = EquityCalculator::new(Vec::new());
    calc.set_hero_range(HoldemRange::new());
    calc.set_vs_range(HoldemRange::new());
    assert_eq!(calc.equity_vs_range(&[0, 1]), Err(EquityError::BoardLength));
    assert_eq!(calc.equity_vs_range(&[0, 1, 2, 3, 4, 5]), Err(EquityError::BoardLength));
    assert_eq!(calc.equity_vs_range(&[0, 1, 2]), Ok(Vec::new()));
    assert_eq!(calc.equity_vs_range(&[0, 1, 2, 3]), Ok(Vec::new()));
    assert_eq!(calc.leaf_equity_vs_range(&[0, 1, 2]), Err(EquityError::LeafBoardLength));
    assert_eq!(calc.leaf_equity_vs_range(&[0, 1, 2, 3]), Err(EquityError::LeafBoardLength));
    assert_eq!(calc.leaf_equity_vs_range(&[0, 1, 2, 3, 4, 5]), Err(EquityError::LeafBoardLength));
}

#[test]
fn holdem_queries_use_the_ranges_that_were_set() {
    let board = [0u8, 1, 2, 3, 4];
    let mut list: Vec<(usize, u32)> = Vec::new();
    let mut state = 53usize;
    for (i, c) in board.iter().enumerate() {
        let next = 200 + 60 * i;
        list.push((state + *c as usize + 1, next as u32));
        state = next;
    }
    let after_board = state;
    for (k, first) in [10usize, 20, 25].iter().enumerate() {
        let node = 600 + 60 * k;
        list.push((after_board + first + 1, node as u32));
        for second in [30usize, 40, 41] {
            list.push((node + second + 1, (1000 + first) as u32));
        }
    }
    let table = words(&list, 900);
    let mut calc = EquityCalculator::new(table);
    let mut hero = HoldemRange::new();
    hero.set_hand(&[20, 30], 1).unwrap();
    let mut vs = HoldemRange::new();
    vs.set_hand(&[10, 30], 5).unwrap();
    vs.set_hand(&[10, 40], 7).unwrap();
    vs.set_hand(&[20, 40], 11).unwrap();
    calc.set_hero_range(hero.clone());
    calc.set_vs_range(vs);
    let results = calc.leaf_equity_vs_range(&board).unwrap();
    assert_eq!(results.len(), 1);
    assert_eq!(results[0].hand_idx(), HoldemRange::get_hand_idx([20, 30]));
    assert_eq!(results[0].equity(), Equity { win: 7, tie: 0, lose: 0 });
    assert_eq!(calc.equity_vs_range(&board).unwrap(), results);
    let mut wider = HoldemRange::new();
    wider.set_hand(&[10, 40], 7).unwrap();
    wider.set_hand(&[20, 41], 13).unwrap();
    wider.set_hand(&[25, 41], 11).unwrap();
    calc.set_vs_range(wider);
    let again = calc.leaf_equity_vs_range(&board).unwrap();
    assert_eq!(again[0].equity(), Equity { win: 7, tie: 0, lose: 11 });
}

#[test]
fn omaha_queries_need_a_range() {
    let calc = EquityCalculator::new(Vec::new());
    let hand = [40u8, 41, 42, 43];
    assert_eq!(calc.omaha_equity_vs_range(&hand, &[0, 1, 2]), Err(EquityError::NoOmahaRange));
    assert_eq!(
        calc.omaha_leaf_equity_vs_range(&hand, &[0, 1, 2, 3, 4]),
        Err(EquityError::NoOmahaRange)
    );
    assert_eq!(calc.omaha_monte_carlo_flop(&hand, &[0, 1, 2], 5), Err(EquityError::NoOmahaRange));
    assert_eq!(calc.omaha_monte_carlo_flop(&[1], &[0, 1], 5), Err(EquityError::NoOmahaRange));
}

#[test]
fn omaha_queries_check_the_shape() {
    let mut calc = EquityCalculator::new(last_card_table());
    calc.set_omaha_range(OmahaRange::new(5));
    let four = [40u8, 41, 42, 43];
    let five = [40u8, 41, 42, 43, 44];
    let board = [0u8, 1, 2, 3, 4];
    assert_eq!(
        calc.omaha_leaf_equity_vs_range(&[40, 41, 42], &board),
        Err(EquityError::HandSize { got: 3 })
    );
    assert_eq!(
        calc.omaha_leaf_equity_vs_range(&four, &board),
        Err(EquityError::HandSizeMismatch { hero: 4, range: 5 })
    );
    assert_eq!(
        calc.omaha_leaf_equity_vs_range(&four, &[0, 1]),
        Err(EquityError::HandSizeMismatch { hero: 4, range: 5 })
    );
    assert_eq!(
        calc.omaha_leaf_equity_vs_range(&five, &[0, 1, 2, 3]),
        Err(EquityError::LeafBoardLength)
    );
    assert_eq!(
        calc.omaha_leaf_equity_vs_range(&five, &board).unwrap().equity(),
        Equity::default()
    );
    assert_eq!(
        calc.omaha_monte_carlo_flop(&[40; 7], &[0, 1, 2], 3),
        Err(EquityError::HandSize { got: 7 })
    );
    assert_eq!(
        calc.omaha_monte_carlo_flop(&four, &[0, 1, 2], 3),
        Err(EquityError::HandSizeMismatch { hero: 4, range: 5 })
    );
    assert_eq!(calc.omaha_monte_carlo_flop(&five, &[0, 1], 3), Err(EquityError::FlopLength));
    assert_eq!(calc.omaha_monte_carlo_flop(&five, &board, 3), Err(EquityError::FlopLength));
    assert_eq!(calc.omaha_monte_carlo_flop(&five, &[0, 1, 2], 3).unwrap().len(), 3);
    assert_eq!(
        calc.omaha_equity_vs_range(&four, &[0, 1, 2]),
        Err(EquityError::HandSizeMismatch { hero: 4, range: 5 })
    );
    assert_eq!(calc.omaha_equity_vs_range(&five, &[0, 1]), Err(EquityError::BoardLength));
    assert_eq!(calc.omaha_equity_vs_range(&five, &[0, 1, 2]).unwrap().len(), 44 * 43 / 2);
    assert_eq!(calc.omaha_equity_vs_range(&five, &[0, 1, 2, 3]).unwrap().len(), 43);
    assert_eq!(calc.omaha_equity_vs_range(&five, &board).unwrap().len(), 1);
}

#[test]
fn omaha_queries_use_the_range_that_was_set() {
    let mut calc = EquityCalculator::new(last_card_table());
    let mut range = OmahaRange::new(4);
    range.add_hand(&[20, 21, 22, 30], 5);
    range.add_hand(&[20, 21, 22, 50], 7);
    range.add_hand(&[20, 21, 22, 45], 11);
    range.add_hand(&[20, 21, 22, 4], 13);
    calc.set_omaha_range(range);
    let runout = calc.omaha_leaf_equity_vs_range(&[10, 11, 12, 45], &[0, 1, 2, 3, 4]).unwrap();
    assert_eq!(runout.board(), vec![0, 1, 2, 3, 4]);
    assert_eq!(runout.equity(), Equity { win: 5, tie: 0, lose: 7 });
    let runout = calc.omaha_leaf_equity_vs_range(&[10, 11, 12, 46], &[0, 1, 2, 3, 5]).unwrap();
    assert_eq!(runout.equity(), Equity { win: 18, tie: 11, lose: 7 });
    let runout = calc.omaha_leaf_equity_vs_range(&[10, 11, 12, 50], &[0, 1, 2, 3, 5]).unwrap();
    assert_eq!(runout.equity(), Equity { win: 29, tie: 0, lose: 0 });
}
