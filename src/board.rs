use vstd::prelude::*;

use crate::pieces::{glyph, Piece};
use crate::utils::{bit_scan, occupies};

verus! {

/// Writes the glyph of `piece` into every cell of `board` whose square is set
/// in `bitboard`, leaving the other cells as they were.
pub fn fill_board(board: &mut [&str; 64], bitboard: &u64, piece: &Piece)
    ensures
        forall|i: int|
            0 <= i < 64 ==> #[trigger] final(board)@[i]@ == if occupies(*bitboard, i) {
                seq![glyph(*piece)]
            } else {
                old(board)@[i]@
            },
{
    broadcast use vstd::std_specs::hash::group_hash_axioms;

    let indices_to_fill = bit_scan(bitboard);
    let mut index: usize = 0;
    while index < 64
        invariant
            index <= 64,
            indices_to_fill@ == Set::new(|i: usize| occupies(*bitboard, i as int)),
            forall|i: int|
                0 <= i < 64 ==> #[trigger] board@[i]@ == if i < index && occupies(*bitboard, i) {
                    seq![glyph(*piece)]
                } else {
                    old(board)@[i]@
                },
        decreases 64 - index,
    {
        if indices_to_fill.contains(&index) {
            board[index] = piece.str();
        }
        index += 1;
    }
}

} // verus!
