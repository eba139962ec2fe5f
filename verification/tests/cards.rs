use poker_equity::cards::{mask_contains, mask_union, mask_with};
use poker_equity::combinations::{
    hole_pair, hole_pair_count, BOARD_COMBOS_3_FROM_5, HOLE_COMBOS_2_FROM_4, HOLE_COMBOS_2_FROM_5,
    HOLE_COMBOS_2_FROM_6,
};
use poker_equity::{
    board_to_mask, card_to_string, cards_to_mask, fast_eval, final_p, gen_board_eval,
    hand_to_string, next_p, string_to_card, RANKS, SUITS,
};

#[test]
fn card_text_round_trip() {
    for card in 0u8..52 {
        let text = card_to_string(card);
        assert_eq!(text.len(), 2);
        assert_eq!(string_to_card(&text), Some(card));
    }
}

#[test]
fn card_text_follows_the_encoding() {
    assert_eq!(card_to_string(0), "2c");
    assert_eq!(card_to_string(1), "2d");
    assert_eq!(card_to_string(2), "2h");
    assert_eq!(card_to_string(3), "2s");
    assert_eq!(card_to_string(35), "Ts");
    assert_eq!(card_to_string(50), "Ah");
    assert_eq!(card_to_string(51), "As");
    assert_eq!(card_to_string(52), "??");
    assert_eq!(card_to_string(255), "??");
    assert_eq!(RANKS, "23456789TJQKA");
    assert_eq!(SUITS, "cdhs");
}

#[test]
fn text_that_names_no_card() {
    assert_eq!(string_to_card(""), None);
    assert_eq!(string_to_card("A"), None);
    assert_eq!(string_to_card("Ahh"), None);
    assert_eq!(string_to_card("1c"), None);
    assert_eq!(string_to_card("Ax"), None);
    assert_eq!(string_to_card("hA"), None);
    assert_eq!(string_to_card("ah"), None);
    assert_eq!(string_to_card("??"), None);
    assert_eq!(string_to_card("\u{e9}"), None);
    assert_eq!(string_to_card("\u{e9}c"), None);
    assert_eq!(string_to_card("Ah"), Some(50));
    assert_eq!(string_to_card("2c"), Some(0));
}

#[test]
fn hand_text() {
    assert_eq!(hand_to_string(&[51, 50]), "AsAh");
    assert_eq!(hand_to_string(&[0, 35, 7]), "2cTs");
    assert_eq!(hand_to_string(&[0, 99]), "2c??");
    assert_eq!(hand_to_string(&[0]), "??");
    assert_eq!(hand_to_string(&[]), "??");
}

#[test]
fn masks_hold_one_bit_per_card() {
    assert_eq!(cards_to_mask(&[]), 0);
    assert_eq!(cards_to_mask(&[0]), 1);
    assert_eq!(cards_to_mask(&[0, 1, 51]), (1 << 51) | 3);
    assert_eq!(cards_to_mask(&[5, 5, 5]), 1 << 5);
    assert_eq!(cards_to_mask(&[63]), 1 << 63);
    assert_eq!(board_to_mask(&[0, 21, 35]), (1 << 35) | (1 << 21) | 1);
    assert!(mask_contains(0b1010, 1));
    assert!(!mask_contains(0b1010, 2));
    assert_eq!(mask_with(0b1010, 0), 0b1011);
    assert_eq!(mask_with(0b1010, 1), 0b1010);
    assert_eq!(mask_union(0b1010, 0b0110), 0b1110);
}

fn table(words: &[u32]) -> Vec<u8> {
    let mut out = Vec::new();
    for w in words {
        out.extend_from_slice(&w.to_le_bytes());
    }
    out
}

#[test]
fn words_are_read_little_endian() {
    let bytes = vec![0x01, 0x02, 0x03, 0x04, 0xff, 0xff, 0xff, 0xff, 0x78, 0x56, 0x34];
    assert_eq!(final_p(&bytes, 0), 0x04030201);
    assert_eq!(final_p(&bytes, 1), 0xffffffff);
    assert_eq!(final_p(&bytes, 2), 0);
    assert_eq!(final_p(&bytes, 3), 0);
    assert_eq!(final_p(&bytes, usize::MAX), 0);
    assert_eq!(final_p(&[], 0), 0);
    assert_eq!(next_p(&bytes, 0), 0xffffffff);
    assert_eq!(next_p(&bytes, 1), 0);
    assert_eq!(next_p(&bytes, usize::MAX), 0);
}

#[test]
fn a_walk_follows_the_chain() {
    let mut words = vec![0u32; 64];
    words[3 + 2 + 1] = 10;
    words[10 + 7 + 1] = 20;
    words[20 + 0 + 1] = 999;
    words[20] = 555;
    let bytes = table(&words);
    assert_eq!(fast_eval(&bytes, &[], 3), 3);
    assert_eq!(fast_eval(&bytes, &[2], 3), 10);
    assert_eq!(fast_eval(&bytes, &[2, 7], 3), 20);
    assert_eq!(fast_eval(&bytes, &[2, 7, 0], 3), 999);
    assert_eq!(fast_eval(&bytes, &[2, 8, 0], 3), 0);
    assert_eq!(fast_eval(&bytes, &[2, 7, 0, 1], 3), 0);
    assert_eq!(fast_eval(&bytes, &[2], usize::MAX), 0);
    assert_eq!(fast_eval(&bytes, &[2], usize::MAX - 3), 0);
}

#[test]
fn a_bound_board_ranks_hole_cards() {
    let mut words = vec![0u32; 400];
    let board5 = [1u8, 2, 3, 4, 5];
    let mut state = 53usize;
    for (i, c) in board5.iter().enumerate() {
        let next = 100 + 60 * (i as u32 % 5);
        words[state + *c as usize + 1] = next;
        state = next as usize;
    }
    words[state + 10 + 1] = 399;
    let bytes = table(&words);
    let eval = gen_board_eval(&bytes, &board5);
    assert_eq!(eval.eval(&[10]), 399);
    assert_eq!(eval.eval(&[12]), 0);

    let mut words = vec![0u32; 300];
    words[53 + 1 + 1] = 100;
    words[100 + 2 + 1] = 110;
    words[110 + 3 + 1] = 120;
    words[120 + 20 + 1] = 130;
    words[130 + 21 + 1] = 200;
    words[200] = 7777;
    words[130] = 4444;
    let bytes = table(&words);
    let eval = gen_board_eval(&bytes, &[1, 2, 3]);
    assert_eq!(eval.eval(&[20, 21]), 7777);
    assert_eq!(eval.eval(&[20]), 4444);
    assert_eq!(eval.eval(&[21, 20]), 0);
}

#[test]
fn ranks_are_read_as_signed() {
    let mut words = vec![0u32; 120];
    words[53 + 0 + 1] = 0xffff_fffe;
    let bytes = table(&words);
    let eval = gen_board_eval(&bytes, &[9, 9, 9, 9, 9]);
    assert_eq!(eval.eval(&[]), 0);
    let eval = gen_board_eval(&bytes, &[]);
    assert_eq!(eval.eval(&[]), 0);
    words[53] = 0xffff_fffe;
    let bytes = table(&words);
    let eval = gen_board_eval(&bytes, &[]);
    assert_eq!(eval.eval(&[]), -2);
}

#[test]
fn the_tables_list_every_choice_once() {
    let mut triples = Vec::new();
    for a in 0..5 {
        for b in (a + 1)..5 {
            for c in (b + 1)..5 {
                triples.push([a, b, c]);
            }
        }
    }
    assert_eq!(BOARD_COMBOS_3_FROM_5.to_vec(), triples);
    for (size, rows) in [
        (4usize, HOLE_COMBOS_2_FROM_4.to_vec()),
        (5, HOLE_COMBOS_2_FROM_5.to_vec()),
        (6, HOLE_COMBOS_2_FROM_6.to_vec()),
    ] {
        let mut pairs = Vec::new();
        for a in 0..size {
            for b in (a + 1)..size {
                pairs.push([a, b]);
            }
        }
        assert_eq!(rows, pairs);
        assert_eq!(hole_pair_count(size), pairs.len());
        for (row, pair) in pairs.iter().enumerate() {
            assert_eq!(hole_pair(size, row), (pair[0], pair[1]));
        }
    }
    assert_eq!(10 * hole_pair_count(4), 60);
    assert_eq!(10 * hole_pair_count(5), 100);
    assert_eq!(10 * hole_pair_count(6), 150);
}
