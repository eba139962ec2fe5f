use poker_equity::{HoldemRange, OmahaRange, RangeError};

#[test]
fn a_new_range_is_empty() {
    let range = HoldemRange::new();
    assert_eq!(range.get_range(), vec![0u64; 1326]);
    assert_eq!(range, HoldemRange::default());
    assert!(range.for_each_weighted().is_empty());
}

#[test]
fn weights_are_set_and_read_by_slot() {
    let mut range = HoldemRange::new();
    range.set(0, 5);
    range.set(1325, 7);
    range.set(1326, 9);
    range.set(usize::MAX, 9);
    assert_eq!(range.get_weight(0), 5);
    assert_eq!(range.get_weight(1), 0);
    assert_eq!(range.get_weight(1325), 7);
    assert_eq!(range.get_weight(1326), 0);
    assert_eq!(range.get_weight(usize::MAX), 0);
    assert_eq!(range.get_range().len(), 1326);
    assert_eq!(range.for_each_weighted(), vec![(5, 0), (7, 1325)]);
    range.set(0, 0);
    assert_eq!(range.for_each_weighted(), vec![(7, 1325)]);
    let copy = range.clone();
    assert_eq!(copy, range);
}

#[test]
fn slots_and_combos_are_one_to_one() {
    let mut idx = 0;
    for hi in 0..52u8 {
        for lo in 0..hi {
            assert_eq!(HoldemRange::get_hand_idx([lo, hi]), idx);
            assert_eq!(HoldemRange::get_hand_idx([hi, lo]), idx);
            assert_eq!(HoldemRange::from_hand_idx(idx), [lo, hi]);
            assert_eq!(HoldemRange::from_hand_idx_wasm(idx), vec![lo, hi]);
            assert_eq!(HoldemRange::get_hand_idx_wasm(vec![hi, lo, 9]), idx);
            idx += 1;
        }
    }
    assert_eq!(idx, 1326);
    assert_eq!(HoldemRange::from_hand_idx(1326), [1, 0]);
    assert_eq!(HoldemRange::from_hand_idx(usize::MAX), [1, 0]);
    assert_eq!(HoldemRange::from_hand_idx_wasm(5000), vec![1, 0]);
}

#[test]
fn the_triangular_formula() {
    assert_eq!(HoldemRange::get_hand_idx([0, 1]), 0);
    assert_eq!(HoldemRange::get_hand_idx([50, 51]), 51 * 50 / 2 + 50);
    assert_eq!(HoldemRange::get_hand_idx([51, 50]), 1325);
    assert_eq!(HoldemRange::get_hand_idx([0, 0]), 0);
    assert_eq!(HoldemRange::get_hand_idx([7, 7]), 7 * 6 / 2 + 7);
    assert_eq!(HoldemRange::get_hand_idx([0, 52]), 1326);
    assert_eq!(HoldemRange::get_hand_idx([255, 255]), 255 * 254 / 2 + 255);
}

#[test]
fn two_cards_are_ordered_larger_first() {
    let mut hand = [3u8, 9];
    HoldemRange::sort_two_cards_desc(&mut hand);
    assert_eq!(hand, [9, 3]);
    HoldemRange::sort_two_cards_desc(&mut hand);
    assert_eq!(hand, [9, 3]);
    let mut hand = [4u8, 4];
    HoldemRange::sort_two_cards_desc(&mut hand);
    assert_eq!(hand, [4, 4]);
}

#[test]
fn hands_are_set_by_their_cards() {
    let mut range = HoldemRange::new();
    assert_eq!(range.set_hand(&[51, 50], 3), Ok(()));
    assert_eq!(range.get_weight(1325), 3);
    assert_eq!(range.set_hand(&[0, 1], 4), Ok(()));
    assert_eq!(range.get_weight(0), 4);
    assert_eq!(range.set_hand(&[51], 3), Err(RangeError::HandLength));
    assert_eq!(range.set_hand(&[], 3), Err(RangeError::HandLength));
    assert_eq!(range.set_hand(&[1, 2, 3], 3), Err(RangeError::HandLength));
    assert_eq!(range.set_hand(&[0, 52], 3), Err(RangeError::InvalidHand));
    assert_eq!(range.set_hand(&[200, 100], 3), Err(RangeError::InvalidHand));
    assert_eq!(range.for_each_weighted(), vec![(4, 0), (3, 1325)]);
}

#[test]
fn an_omaha_range_keeps_hands_in_order() {
    let mut range = OmahaRange::new(5);
    assert!(range.is_empty());
    assert_eq!(range.len(), 0);
    assert_eq!(range.hand_size(), 5);
    assert_eq!(range.get_hand_size(), 5);
    assert_eq!(range.get_hand(0), None);
    assert_eq!(range.get_weight(0), None);
    range.add_hand(&[1, 2, 3, 4, 5], 10);
    range.add_hand(&[9, 8, 7, 6, 5], 20);
    range.add_hand(&[1, 2, 3, 4, 5], 30);
    assert!(!range.is_empty());
    assert_eq!(range.len(), 3);
    assert_eq!(range.get_hand(1), Some(&[9u8, 8, 7, 6, 5][..]));
    assert_eq!(range.get_weight(1), Some(20));
    assert_eq!(range.get_hand(3), None);
    assert_eq!(range.get_weight(3), None);
    let entries = range.iter();
    assert_eq!(entries.len(), 3);
    assert_eq!(entries[0], (&[1u8, 2, 3, 4, 5][..], 10));
    assert_eq!(entries[2], (&[1u8, 2, 3, 4, 5][..], 30));
    assert_eq!(range.clone(), range);
}

#[test]
fn omaha_ranges_of_each_size() {
    for size in 4..=6usize {
        let mut range = OmahaRange::new(size);
        let hand: Vec<u8> = (10..10 + size as u8).collect();
        range.add_hand(&hand, 1);
        assert_eq!(range.get_hand(0), Some(&hand[..]));
        assert_eq!(range.hand_size(), size);
    }
    assert_eq!(OmahaRange::default().hand_size(), 4);
    assert!(OmahaRange::default().is_empty());
}
