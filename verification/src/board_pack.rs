use vstd::prelude::*;
use crate::bits::{is_set, single, lemma_bit_single, lemma_bit_or, lemma_clear_square, lemma_full_bits};
use crate::chess::{ChessBoard, Side};

verus! {

/// Bit `k` of a piece type.
pub open spec fn piece_bit(p: int, k: int) -> bool {
    (p as u8 >> k as u8) & 1u8 == 1u8
}

/// The four bitboards of a packed board: on an empty square all four bits are set; on an
/// occupied square the first three hold the bits of the piece type and the fourth is set
/// for a black piece.
pub open spec fn packs(b: ChessBoard, packed: Seq<u64>) -> bool {
    &&& packed.len() == 4
    &&& forall|t: int|
        0 <= t < 64 ==> if b.occupied_set().contains(t) {
            &&& forall|k: int| 0 <= k < 3 ==> #[trigger] is_set(packed[k], t) == piece_bit(b.piece_on(t), k)
            &&& is_set(packed[3], t) == !b.side_set(true).contains(t)
        } else {
            forall|k: int| 0 <= k < 4 ==> #[trigger] is_set(packed[k], t)
        }
}

/// A position as stored for training data: the packed board, the side to move, the
/// score (a fraction of `u16::MAX`), the game result and the moves left.
#[derive(Clone, Copy)]
pub struct ChessBoardPacked {
    board: [u64; 4],
    side_to_move: Side,
    score: u16,
    result: i8,
    moves_left: u16,
}

impl ChessBoardPacked {
    pub closed spec fn spec_board(&self) -> Seq<u64> {
        self.board@
    }

    pub closed spec fn spec_side_to_move(&self) -> Side {
        self.side_to_move
    }

    pub closed spec fn spec_score(&self) -> u16 {
        self.score
    }

    pub closed spec fn spec_result(&self) -> i8 {
        self.result
    }

    pub closed spec fn spec_moves_left(&self) -> u16 {
        self.moves_left
    }

    /// Packs a board with its score (already scaled to `u16`); no result and no moves
    /// left yet.
    pub fn from_board(board: &ChessBoard, score: u16) -> (r: ChessBoardPacked)
        requires
            board.wf(),
        ensures
            packs(*board, r.spec_board()),
            r.spec_side_to_move() == board.stm(),
            r.spec_score() == score,
            r.spec_result() == 0,
            r.spec_moves_left() == 0,
    {
        ChessBoardPacked {
            board: board_to_compressed(board),
            side_to_move: board.side_to_move(),
            score,
            result: 0,
            moves_left: 0,
        }
    }

    pub fn get_board(&self) -> (r: &[u64; 4])
        ensures
            r@ == self.spec_board(),
    {
        &self.board
    }

    pub fn get_side_to_move(&self) -> (r: Side)
        ensures
            r == self.spec_side_to_move(),
    {
        self.side_to_move
    }

    pub fn get_score(&self) -> (r: u16)
        ensures
            r == self.spec_score(),
    {
        self.score
    }

    pub fn get_result(&self) -> (r: i8)
        ensures
            r == self.spec_result(),
    {
        self.result
    }

    pub fn get_moves_left(&self) -> (r: u16)
        ensures
            r == self.spec_moves_left(),
    {
        self.moves_left
    }

    /// Records the winner: `1` for white, `-1` for black.
    pub fn apply_result(&mut self, winner: Side)
        ensures
            final(self).spec_result() == if winner.is_white() { 1i8 } else { -1i8 },
            final(self).spec_board() == old(self).spec_board(),
            final(self).spec_side_to_move() == old(self).spec_side_to_move(),
            final(self).spec_score() == old(self).spec_score(),
            final(self).spec_moves_left() == old(self).spec_moves_left(),
    {
        self.result = if winner.get_raw() == 0 { 1 } else { -1 };
    }

    pub fn apply_moves_left(&mut self, moves_left: u16)
        ensures
            final(self).spec_moves_left() == moves_left,
            final(self).spec_board() == old(self).spec_board(),
            final(self).spec_side_to_move() == old(self).spec_side_to_move(),
            final(self).spec_score() == old(self).spec_score(),
            final(self).spec_result() == old(self).spec_result(),
    {
        self.moves_left = moves_left;
    }
}

fn board_to_compressed(board: &ChessBoard) -> (r: [u64; 4])
    requires
        board.wf(),
    ensures
        packs(*board, r@),
{
    let full: u64 = 0xFFFF_FFFF_FFFF_FFFF;
    let mut result: [u64; 4] = [full, full, full, full];
    let occupancy = board.get_occupancy();
    let mut square: u8 = 0;
    proof {
        assert forall|t: int, k: int| 0 <= t < 64 && 0 <= k < 4 implies #[trigger] is_set(result@[k], t) by {
            lemma_full_bits(t);
        }
    }
    while square < 64
        invariant
            square <= 64,
            board.wf(),
            crate::bits::squares(occupancy) == board.occupied_set(),
            result@.len() == 4,
            forall|t: int|
                0 <= t < square ==> if board.occupied_set().contains(t) {
                    &&& forall|k: int| 0 <= k < 3 ==> #[trigger] is_set(result@[k], t) == piece_bit(board.piece_on(t), k)
                    &&& is_set(result@[3], t) == !board.side_set(true).contains(t)
                } else {
                    forall|k: int| 0 <= k < 4 ==> #[trigger] is_set(result@[k], t)
                },
            forall|t: int, k: int| square <= t < 64 && 0 <= k < 4 ==> #[trigger] is_set(result@[k], t),
        decreases 64 - square,
    {
        let ghost s = square as int;
        if (occupancy >> square as u64) & 1 == 1 {
            assert(board.occupied_set().contains(s));
            let ghost before = result@;
            let bit: u64 = 1u64 << square;
            result[0] = result[0] & !bit;
            result[1] = result[1] & !bit;
            result[2] = result[2] & !bit;
            result[3] = result[3] & !bit;
            let piece = board.get_piece_on_square(square).get_raw();
            let color = board.get_piece_color_on_square(square);
            let ghost cleared = result@;
            proof {
                assert forall|t: int, k: int| 0 <= k < 4 && 0 <= t < 64 implies #[trigger] is_set(cleared[k], t) == (is_set(before[k], t) && t != s) by {
                    lemma_clear_square(before[k], s, t);
                }
            }
            let mut bit_index: usize = 0;
            while bit_index < 3
                invariant
                    bit_index <= 3,
                    0 <= s < 64,
                    bit == single(s),
                    piece as int == board.piece_on(s),
                    result@.len() == 4,
                    cleared.len() == 4,
                    result@[3] == cleared[3],
                    forall|k: int| bit_index <= k < 3 ==> #[trigger] result@[k] == cleared[k],
                    forall|k: int, t: int| 0 <= k < bit_index && 0 <= t < 64 ==> #[trigger] is_set(result@[k], t)
                        == (is_set(cleared[k], t) || (t == s && piece_bit(piece as int, k))),
                decreases 3 - bit_index,
            {
                let set = (piece & (1u8 << bit_index as u8)) > 0;
                let bi = bit_index as u8;
                assert(((piece & (1u8 << bi)) > 0) == ((piece >> bi) & 1u8 == 1u8)) by (bit_vector)
                    requires
                        bi < 3,
                ;
                if set {
                    let ghost prev = result@[bit_index as int];
                    result[bit_index] = result[bit_index] | bit;
                    proof {
                        assert forall|t: int| 0 <= t < 64 implies #[trigger] is_set(result@[bit_index as int], t)
                            == (is_set(cleared[bit_index as int], t) || (t == s && piece_bit(piece as int, bit_index as int))) by {
                            lemma_bit_or(prev, bit, t as u64);
                            lemma_bit_single(s as u64, t as u64);
                        }
                    }
                } else {
                    proof {
                        assert forall|t: int| 0 <= t < 64 implies #[trigger] is_set(result@[bit_index as int], t)
                            == (is_set(cleared[bit_index as int], t) || (t == s && piece_bit(piece as int, bit_index as int))) by {}
                    }
                }
                bit_index = bit_index + 1;
            }
            if color.get_raw() != 0 {
                let ghost prev = result@[3];
                result[3] = result[3] | bit;
                proof {
                    assert forall|t: int| 0 <= t < 64 implies #[trigger] is_set(result@[3], t) == (is_set(cleared[3], t) || t == s) by {
                        lemma_bit_or(prev, bit, t as u64);
                        lemma_bit_single(s as u64, t as u64);
                    }
                }
            }
            proof {
                assert forall|t: int| 0 <= t < square + 1 implies if board.occupied_set().contains(t) {
                    &&& forall|k: int| 0 <= k < 3 ==> #[trigger] is_set(result@[k], t) == piece_bit(board.piece_on(t), k)
                    &&& is_set(result@[3], t) == !board.side_set(true).contains(t)
                } else {
                    forall|k: int| 0 <= k < 4 ==> #[trigger] is_set(result@[k], t)
                } by {
                    if t < s {
                        assert forall|k: int| 0 <= k < 4 implies #[trigger] is_set(result@[k], t) == is_set(before[k], t) by {
                            assert(is_set(cleared[k], t) == is_set(before[k], t));
                        }
                    }
                }
                assert forall|t: int, k: int| square + 1 <= t < 64 && 0 <= k < 4 implies #[trigger] is_set(result@[k], t) by {
                    assert(is_set(cleared[k], t));
                }
            }
        } else {
            proof {
                assert(!board.occupied_set().contains(s));
            }
        }
        square = square + 1;
    }
    result
}

} // verus!
