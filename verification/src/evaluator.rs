//! The rank oracle: a walk over a flat table of little-endian 32-bit words.

use vstd::prelude::*;

verus! {

/// The state from which every walk over the table starts.
pub const START_STATE: usize = 53;

/// The four bytes from `offset` on, read as a little-endian number.
pub open spec fn word_at(table: Seq<u8>, offset: int) -> u32 {
    (table[offset] + table[offset + 1] * 0x100 + table[offset + 2] * 0x1_0000 + table[offset + 3]
        * 0x100_0000) as u32
}

/// The word stored at slot `p` of the table, or 0 where the table does not
/// hold four bytes at that slot.
pub open spec fn table_word(table: Seq<u8>, p: int) -> u32 {
    if 0 <= p && 4 * p + 4 <= table.len() {
        word_at(table, 4 * p)
    } else {
        0
    }
}

/// The state reached from `p` after consuming `cards` in order.
pub open spec fn walk(table: Seq<u8>, cards: Seq<u8>, p: int) -> int
    decreases cards.len(),
{
    if cards.len() == 0 {
        p
    } else {
        walk(table, cards.drop_first(), table_word(table, p + cards[0] + 1) as int)
    }
}

/// Reads the word at slot `p`; 0 when the slot lies outside the table.
pub fn final_p(ranks_data: &[u8], p: usize) -> (word: u32)
    ensures
        word == table_word(ranks_data@, p as int),
{
    if p < ranks_data.len() / 4 {
        let offset: usize = p * 4;
        let b0: u32 = ranks_data[offset] as u32;
        let b1: u32 = ranks_data[offset + 1] as u32;
        let b2: u32 = ranks_data[offset + 2] as u32;
        let b3: u32 = ranks_data[offset + 3] as u32;
        b0 + b1 * 0x100 + b2 * 0x1_0000 + b3 * 0x100_0000
    } else {
        0
    }
}

/// The successor state: the word one slot after `p_plus_card`.
pub fn next_p(ranks_data: &[u8], p_plus_card: usize) -> (word: u32)
    ensures
        word == table_word(ranks_data@, p_plus_card + 1),
{
    if p_plus_card == usize::MAX {
        let len: usize = ranks_data.len();
        assert(4 * (p_plus_card + 1) + 4 > len);
        0
    } else {
        final_p(ranks_data, p_plus_card + 1)
    }
}

/// A walk that starts in a state that fits 32 bits ends in one.
pub proof fn lemma_walk_fits(table: Seq<u8>, cards: Seq<u8>, p: int)
    requires
        0 <= p <= u32::MAX,
    ensures
        0 <= walk(table, cards, p) <= u32::MAX,
    decreases cards.len(),
{
    if cards.len() > 0 {
        lemma_walk_fits(table, cards.drop_first(), table_word(table, p + cards[0] + 1) as int);
    }
}

/// Consuming `front` and then `back` is consuming their concatenation.
pub proof fn lemma_walk_concat(table: Seq<u8>, front: Seq<u8>, back: Seq<u8>, p: int)
    ensures
        walk(table, front + back, p) == walk(table, back, walk(table, front, p)),
    decreases front.len(),
{
    if front.len() == 0 {
        assert(front + back =~= back);
    } else {
        assert((front + back).drop_first() =~= front.drop_first() + back);
        lemma_walk_concat(
            table,
            front.drop_first(),
            back,
            table_word(table, p + front[0] + 1) as int,
        );
    }
}

/// Folds the cards into the state `p`, one table lookup per card, and returns
/// the state reached (its low 32 bits where no card was consumed).
pub fn fast_eval(ranks_data: &[u8], cards: &[u8], p: usize) -> (state: u32)
    ensures
        state == walk(ranks_data@, cards@, p as int) as u32,
{
    let mut cur: usize = p;
    let mut i: usize = 0;
    assert(cards@.skip(0) =~= cards@);
    while i < cards.len()
        invariant
            i <= cards.len(),
            walk(ranks_data@, cards@, p as int) == walk(ranks_data@, cards@.skip(i as int), cur as int),
        decreases cards.len() - i,
    {
        let card: usize = cards[i] as usize;
        proof {
            assert(cards@.skip(i as int).drop_first() =~= cards@.skip(i + 1));
            assert(cards@.skip(i as int)[0] == cards@[i as int]);
        }
        if cur > usize::MAX - card - 1 {
            let len: usize = ranks_data.len();
            assert(table_word(ranks_data@, cur + card + 1) == 0);
            cur = 0;
        } else {
            cur = next_p(ranks_data, cur + card) as usize;
        }
        i += 1;
    }
    proof {
        assert(cards@.skip(i as int).len() == 0);
    }
    #[verifier::truncate]
    (cur as u32)
}

/// Two's-complement reading of a table word as a signed rank.
pub open spec fn as_rank(word: u32) -> i32 {
    word as i32
}

/// The rank of `hole` on `board`: the state after both when the board holds
/// five cards, and one more lookup from that state otherwise.
pub open spec fn hand_rank(table: Seq<u8>, board: Seq<u8>, hole: Seq<u8>) -> i32 {
    let combined = walk(table, hole, walk(table, board, START_STATE as int));
    if board.len() == 5 {
        as_rank(combined as u32)
    } else {
        as_rank(table_word(table, combined))
    }
}

/// An evaluator bound to one board: the table, the state after the board's
/// cards, and the board's length.
pub struct BoardEval<'a> {
    ranks_data: &'a [u8],
    board_p: usize,
    board_len: usize,
}

impl<'a> BoardEval<'a> {
    /// The table this evaluator reads.
    pub closed spec fn table(&self) -> Seq<u8> {
        self.ranks_data@
    }

    /// Whether this evaluator stands for `board` over `table`.
    pub closed spec fn binds(&self, table: Seq<u8>, board: Seq<u8>) -> bool {
        &&& self.ranks_data@ == table
        &&& self.board_p as int == walk(table, board, START_STATE as int)
        &&& self.board_len as nat == board.len()
    }

    /// The rank of `hand` on the bound board.
    pub fn eval(&self, hand: &[u8]) -> (rank: i32)
        ensures
            forall|table: Seq<u8>, board: Seq<u8>|
                self.binds(table, board) ==> rank == #[trigger] hand_rank(table, board, hand@),
    {
        let combined_p: u32 = fast_eval(self.ranks_data, hand, self.board_p);
        let rank: i32 = if self.board_len == 5 {
            #[verifier::truncate]
            (combined_p as i32)
        } else {
            #[verifier::truncate]
            (final_p(self.ranks_data, combined_p as usize) as i32)
        };
        proof {
            assert forall|table: Seq<u8>, board: Seq<u8>| self.binds(table, board) implies rank
                == #[trigger] hand_rank(table, board, hand@) by {
                lemma_walk_fits(table, board, START_STATE as int);
                lemma_walk_fits(table, hand@, self.board_p as int);
            }
        }
        rank
    }
}

/// Binds an evaluator to `board`, walking the board's cards once.
pub fn gen_board_eval<'a>(ranks_data: &'a [u8], board: &'a [u8]) -> (ev: BoardEval<'a>)
    ensures
        ev.binds(ranks_data@, board@),
{
    let board_p: usize = fast_eval(ranks_data, board, START_STATE) as usize;
    proof {
        lemma_walk_fits(ranks_data@, board@, START_STATE as int);
    }
    BoardEval { ranks_data, board_p, board_len: board.len() }
}

} // verus!
