//! The card model: 52 cards as integers, card sets as bit masks, and the
//! numbering of the 1326 two-card combos.

use vstd::prelude::*;
use vstd::string::{StrSliceExecFns, StringExecFns};

verus! {

/// The suit symbols, in the order of the encoding.
pub const SUITS: &'static str = "cdhs";

/// The rank symbols, lowest rank first.
pub const RANKS: &'static str = "23456789TJQKA";

/// The text of a card: its rank symbol, then its suit symbol; `??` for
/// what is no card of the deck.
pub open spec fn card_text(card: u8) -> Seq<char> {
    if card >= DECK_SIZE {
        seq!['?', '?']
    } else {
        seq![RANKS@[card as int / 4], SUITS@[card as int % 4]]
    }
}

/// The symbols of both alphabets, spelled out.
pub proof fn lemma_symbols()
    ensures
        RANKS@ == seq!['2', '3', '4', '5', '6', '7', '8', '9', 'T', 'J', 'Q', 'K', 'A'],
        SUITS@ == seq!['c', 'd', 'h', 's'],
        RANKS.is_ascii(),
        SUITS.is_ascii(),
{
    reveal_strlit("23456789TJQKA");
    reveal_strlit("cdhs");
    assert(RANKS@ =~= seq!['2', '3', '4', '5', '6', '7', '8', '9', 'T', 'J', 'Q', 'K', 'A']);
    assert(SUITS@ =~= seq!['c', 'd', 'h', 's']);
}

/// The text of a card, such as `Ah` for card 50.
pub fn card_to_string(card: u8) -> (text: String)
    ensures
        text@ == card_text(card),
{
    if card >= 52 {
        proof {
            reveal_strlit("??");
        }
        let text = String::from_str("??");
        assert(text@ =~= seq!['?', '?']);
        return text;
    }
    let rank_idx: usize = (card / 4) as usize;
    let suit_idx: usize = (card % 4) as usize;
    proof {
        lemma_symbols();
    }
    let rank: &str = RANKS.substring_ascii(rank_idx, rank_idx + 1);
    let suit: &str = SUITS.substring_ascii(suit_idx, suit_idx + 1);
    let mut text = String::from_str(rank);
    text.append(suit);
    assert(text@ =~= card_text(card));
    text
}

/// The position of `symbol` in `symbols`, if it occurs there.
fn find_symbol(symbols: &str, symbol: char) -> (found: Option<usize>)
    ensures
        match found {
            Some(at) => at < symbols@.len() && symbols@[at as int] == symbol,
            None => forall|i: int| 0 <= i < symbols@.len() ==> symbols@[i] != symbol,
        },
{
    let len: usize = symbols.unicode_len();
    let mut i: usize = 0;
    while i < len
        invariant
            i <= len,
            len == symbols@.len(),
            forall|j: int| 0 <= j < i ==> symbols@[j] != symbol,
        decreases len - i,
    {
        if symbols.get_char(i) == symbol {
            return Some(i);
        }
        i += 1;
    }
    None
}

/// The card that a two-symbol text names, if it names one.
pub fn string_to_card(card_str: &str) -> (card: Option<u8>)
    ensures
        match card {
            Some(c) => c < DECK_SIZE && card_str@ == card_text(c),
            None => forall|c: u8| c < DECK_SIZE ==> card_str@ != #[trigger] card_text(c),
        },
{
    proof {
        lemma_symbols();
    }
    if card_str.unicode_len() != 2 {
        return None;
    }
    let rank_char: char = card_str.get_char(0);
    let suit_char: char = card_str.get_char(1);
    let rank_idx: usize = match find_symbol(RANKS, rank_char) {
        Some(at) => at,
        None => {
            proof {
                assert forall|c: u8| c < DECK_SIZE implies card_str@ != #[trigger] card_text(c) by {
                    assert(card_text(c)[0] == RANKS@[c as int / 4]);
                }
            }
            return None;
        },
    };
    let suit_idx: usize = match find_symbol(SUITS, suit_char) {
        Some(at) => at,
        None => {
            proof {
                assert forall|c: u8| c < DECK_SIZE implies card_str@ != #[trigger] card_text(c) by {
                    assert(card_text(c)[1] == SUITS@[c as int % 4]);
                }
            }
            return None;
        },
    };
    let card: u8 = (rank_idx * 4 + suit_idx) as u8;
    assert(card_str@ =~= card_text(card));
    Some(card)
}

/// The text of a hand's first two cards; `??` for a hand of fewer.
pub fn hand_to_string(hand: &[u8]) -> (text: String)
    ensures
        text@ == (if hand@.len() < 2 {
            seq!['?', '?']
        } else {
            card_text(hand@[0]) + card_text(hand@[1])
        }),
{
    if hand.len() < 2 {
        proof {
            reveal_strlit("??");
        }
        let text = String::from_str("??");
        assert(text@ =~= seq!['?', '?']);
        return text;
    }
    let mut text: String = card_to_string(hand[0]);
    let second: String = card_to_string(hand[1]);
    text.append(second.as_str());
    text
}

/// Number of cards in the deck; a card is an integer below this.
pub const DECK_SIZE: u8 = 52;

/// Number of unordered pairs of distinct cards.
pub const COMBO_COUNT: usize = 1326;

/// Whether every card of `cards` is a card of the deck.
pub open spec fn valid_cards(cards: Seq<u8>) -> bool {
    forall|i: int| 0 <= i < cards.len() ==> cards[i] < DECK_SIZE
}

/// Whether `card` occurs in `cards`.
pub open spec fn has_card(cards: Seq<u8>, card: int) -> bool {
    exists|i: int| 0 <= i < cards.len() && #[trigger] cards[i] == card
}

/// Number of combos whose higher card lies below `hi`.
pub open spec fn triangle(hi: int) -> int {
    hi * (hi - 1) / 2
}

/// The slot of the combo with lower card `lo` and higher card `hi`.
pub open spec fn combo_index(lo: int, hi: int) -> int {
    triangle(hi) + lo
}

/// The largest `h` in `1..=hi` whose first slot is at or before `idx`.
pub open spec fn high_search(idx: int, hi: int) -> int
    decreases hi,
{
    if hi <= 1 {
        1
    } else if triangle(hi) <= idx {
        hi
    } else {
        high_search(idx, hi - 1)
    }
}

/// The higher card of the combo in slot `idx`.
pub open spec fn combo_high(idx: int) -> int {
    high_search(idx, DECK_SIZE - 1)
}

/// The lower card of the combo in slot `idx`.
pub open spec fn combo_low(idx: int) -> int {
    idx - triangle(combo_high(idx))
}

/// The two cards of the combo in slot `idx`, lower card first.
pub open spec fn combo_cards(idx: int) -> Seq<u8> {
    seq![combo_low(idx) as u8, combo_high(idx) as u8]
}

/// Whether the combo in slot `idx` holds `card`.
pub open spec fn combo_has(idx: int, card: int) -> bool {
    combo_low(idx) == card || combo_high(idx) == card
}

/// Whether the combos in slots `a` and `b` share a card.
pub open spec fn combos_overlap(a: int, b: int) -> bool {
    combo_has(a, combo_low(b)) || combo_has(a, combo_high(b))
}

/// Whether the combo in slot `idx` shares a card with `board`.
pub open spec fn combo_on_board(board: Seq<u8>, idx: int) -> bool {
    has_card(board, combo_low(idx)) || has_card(board, combo_high(idx))
}

/// Whether bit `card` of `mask` is set.
pub open spec fn mask_has(mask: u64, card: int) -> bool {
    0 <= card < 64 && mask & (1u64 << (card as u64)) != 0
}

/// Whether `mask` has exactly the bits of the cards in `cards`.
pub open spec fn mask_of(mask: u64, cards: Seq<u8>) -> bool {
    forall|card: int| 0 <= card < 64 ==> (#[trigger] mask_has(mask, card) <==> has_card(cards, card))
}

proof fn lemma_mask_insert(mask: u64, card: u64, other: u64)
    by (bit_vector)
    requires
        card < 64,
        other < 64,
    ensures
        ((mask | (1u64 << card)) & (1u64 << other) != 0) == ((mask & (1u64 << other) != 0) || card
            == other),
{
}

proof fn lemma_mask_empty(other: u64)
    by (bit_vector)
    requires
        other < 64,
    ensures
        0u64 & (1u64 << other) == 0,
{
}

/// Whether `card` is in the set that `mask` stands for.
pub fn mask_contains(mask: u64, card: u8) -> (found: bool)
    requires
        card < 64,
    ensures
        found == mask_has(mask, card as int),
{
    (mask & (1u64 << card)) != 0
}

/// The set `mask` with `card` added.
pub fn mask_with(mask: u64, card: u8) -> (grown: u64)
    requires
        card < 64,
    ensures
        forall|other: int|
            0 <= other < 64 ==> (#[trigger] mask_has(grown, other) <==> mask_has(mask, other)
                || other == card),
{
    let grown: u64 = mask | (1u64 << card);
    proof {
        assert forall|other: int| 0 <= other < 64 implies (#[trigger] mask_has(grown, other)
            <==> mask_has(mask, other) || other == card) by {
            lemma_mask_insert(mask, card as u64, other as u64);
        }
    }
    grown
}

proof fn lemma_mask_union(a: u64, b: u64, other: u64)
    by (bit_vector)
    requires
        other < 64,
    ensures
        ((a | b) & (1u64 << other) != 0) == ((a & (1u64 << other) != 0) || (b & (1u64 << other)
            != 0)),
{
}

/// The union of two card sets.
pub fn mask_union(a: u64, b: u64) -> (both: u64)
    ensures
        forall|card: int|
            0 <= card < 64 ==> (#[trigger] mask_has(both, card) <==> mask_has(a, card) || mask_has(
                b,
                card,
            )),
        forall|first: Seq<u8>, second: Seq<u8>|
            mask_of(a, first) && mask_of(b, second) ==> #[trigger] mask_of(both, first + second),
{
    let both: u64 = a | b;
    proof {
        assert forall|card: int| 0 <= card < 64 implies (#[trigger] mask_has(both, card)
            <==> mask_has(a, card) || mask_has(b, card)) by {
            lemma_mask_union(a, b, card as u64);
        }
        assert forall|first: Seq<u8>, second: Seq<u8>|
            mask_of(a, first) && mask_of(b, second) implies #[trigger] mask_of(
            both,
            first + second,
        ) by {
            assert forall|card: int| 0 <= card < 64 implies (#[trigger] mask_has(both, card)
                <==> has_card(first + second, card)) by {
                lemma_has_card_concat(first, second, card);
            }
        }
    }
    both
}

/// A card is in a concatenation where it is in one of the parts.
pub proof fn lemma_has_card_concat(first: Seq<u8>, second: Seq<u8>, card: int)
    ensures
        has_card(first + second, card) <==> has_card(first, card) || has_card(second, card),
{
    let all = first + second;
    if has_card(first, card) {
        let i = choose|i: int| 0 <= i < first.len() && first[i] == card;
        assert(all[i] == card);
    }
    if has_card(second, card) {
        let i = choose|i: int| 0 <= i < second.len() && second[i] == card;
        assert(all[first.len() + i] == card);
    }
    if has_card(all, card) {
        let i = choose|i: int| 0 <= i < all.len() && all[i] == card;
        if i < first.len() {
            assert(first[i] == card);
        } else {
            assert(second[i - first.len()] == card);
        }
    }
}

/// The set of the given cards as a bit mask, bit `c` for card `c`.
pub fn cards_to_mask(cards: &[u8]) -> (mask: u64)
    requires
        forall|i: int| 0 <= i < cards@.len() ==> cards@[i] < 64,
    ensures
        mask_of(mask, cards@),
{
    let mut mask: u64 = 0;
    let mut i: usize = 0;
    proof {
        assert forall|card: int| 0 <= card < 64 implies !#[trigger] mask_has(mask, card) by {
            lemma_mask_empty(card as u64);
        }
    }
    while i < cards.len()
        invariant
            i <= cards.len(),
            forall|j: int| 0 <= j < cards@.len() ==> cards@[j] < 64,
            forall|card: int|
                0 <= card < 64 ==> (#[trigger] mask_has(mask, card) <==> has_card(
                    cards@.take(i as int),
                    card,
                )),
        decreases cards.len() - i,
    {
        let grown: u64 = mask_with(mask, cards[i]);
        proof {
            let before = cards@.take(i as int);
            let after = cards@.take(i + 1);
            assert forall|card: int| 0 <= card < 64 implies (#[trigger] mask_has(grown, card)
                <==> has_card(after, card)) by {
                if has_card(after, card) {
                    let j = choose|j: int| 0 <= j < after.len() && after[j] == card;
                    if j < i {
                        assert(before[j] == card);
                    }
                }
                if has_card(before, card) {
                    let j = choose|j: int| 0 <= j < before.len() && before[j] == card;
                    assert(after[j] == card);
                }
                if card == cards@[i as int] {
                    assert(after[i as int] == card);
                }
            }
        }
        mask = grown;
        i += 1;
    }
    proof {
        assert(cards@.take(i as int) =~= cards@);
    }
    mask
}

/// The set of a board's cards as a bit mask.
pub fn board_to_mask(board: &[u8]) -> (mask: u64)
    requires
        forall|i: int| 0 <= i < board@.len() ==> board@[i] < 64,
    ensures
        mask_of(mask, board@),
{
    cards_to_mask(board)
}

pub proof fn lemma_triangle_step(hi: int)
    ensures
        triangle(hi + 1) == triangle(hi) + hi,
{
    assert((hi + 1) * hi == hi * (hi - 1) + 2 * hi) by (nonlinear_arith);
}

pub proof fn lemma_triangle_monotonic(a: int, b: int)
    requires
        0 <= a <= b,
    ensures
        0 <= triangle(a) <= triangle(b),
    decreases b,
{
    if b == 0 {
        assert(triangle(0) == 0) by (nonlinear_arith);
    } else if a == b {
        lemma_triangle_monotonic(a - 1, b - 1);
        lemma_triangle_step(a - 1);
    } else {
        lemma_triangle_monotonic(a, b - 1);
        lemma_triangle_step(b - 1);
    }
}

proof fn lemma_high_search(idx: int, hi: int)
    requires
        1 <= hi,
        0 <= idx < triangle(hi + 1),
    ensures
        1 <= high_search(idx, hi) <= hi,
        triangle(high_search(idx, hi)) <= idx < triangle(high_search(idx, hi) + 1),
    decreases hi,
{
    if hi <= 1 {
        assert(triangle(1) == 0) by (nonlinear_arith);
    } else if triangle(hi) <= idx {
    } else {
        lemma_high_search(idx, hi - 1);
    }
}

/// Every slot below 1326 names two distinct cards of the deck, and those two
/// cards lead back to the slot.
pub proof fn lemma_combo_of_index(idx: int)
    requires
        0 <= idx < COMBO_COUNT,
    ensures
        0 <= combo_low(idx) < combo_high(idx) < DECK_SIZE,
        combo_index(combo_low(idx), combo_high(idx)) == idx,
{
    assert(triangle(52) == 1326) by (nonlinear_arith);
    lemma_high_search(idx, 51);
    lemma_triangle_step(combo_high(idx));
}

/// Two distinct cards of the deck, lower first, name a slot below 1326 that
/// leads back to them.
pub proof fn lemma_index_of_combo(lo: int, hi: int)
    requires
        0 <= lo < hi < DECK_SIZE,
    ensures
        0 <= combo_index(lo, hi) < COMBO_COUNT,
        combo_low(combo_index(lo, hi)) == lo,
        combo_high(combo_index(lo, hi)) == hi,
{
    let idx = combo_index(lo, hi);
    assert(triangle(52) == 1326) by (nonlinear_arith);
    lemma_triangle_step(hi);
    lemma_triangle_monotonic(0, hi);
    lemma_triangle_monotonic(hi + 1, 52);
    lemma_high_search(idx, 51);
    let found = combo_high(idx);
    if found < hi {
        lemma_triangle_monotonic(found + 1, hi);
    } else if found > hi {
        lemma_triangle_monotonic(hi + 1, found);
    }
}

/// Combos in different slots differ in at least one card.
pub proof fn lemma_combo_slots_differ(a: int, b: int)
    requires
        0 <= a < COMBO_COUNT,
        0 <= b < COMBO_COUNT,
        combo_low(a) == combo_low(b),
        combo_high(a) == combo_high(b),
    ensures
        a == b,
{
    lemma_combo_of_index(a);
    lemma_combo_of_index(b);
}

} // verus!
