use vstd::prelude::*;
use crate::bits::{is_set, squares, lemma_squares_ops, lemma_squares_single, lemma_zero_iff_empty, lemma_set_square};

verus! {

/// Side to move: `0` is white, `1` is black.
#[derive(Clone, Copy, PartialEq, Eq, Structural)]
pub struct Side(pub u8);

impl Side {
    pub fn white() -> (r: Side)
        ensures
            r.0 == 0,
    {
        Side(0)
    }

    pub fn black() -> (r: Side)
        ensures
            r.0 == 1,
    {
        Side(1)
    }

    pub open spec fn is_white(self) -> bool {
        self.0 == 0
    }

    pub open spec fn valid(self) -> bool {
        self.0 < 2
    }

    pub fn get_raw(&self) -> (r: u8)
        ensures
            r == self.0,
    {
        self.0
    }

    pub fn flipped(&self) -> (r: Side)
        requires
            self.valid(),
        ensures
            r.valid(),
            r.is_white() == !self.is_white(),
    {
        Side(1 - self.0)
    }

    pub fn mut_flip(&mut self)
        requires
            old(self).valid(),
        ensures
            final(self).valid(),
            final(self).is_white() == !old(self).is_white(),
    {
        self.0 = 1 - self.0;
    }
}

/// Piece type: pawn, knight, bishop, rook, queen and king are `0..=5`, `6` is no piece.
#[derive(Clone, Copy, PartialEq, Eq, Structural)]
pub struct Piece(pub u8);

impl Piece {
    pub const PAWN: u8 = 0;
    pub const KNIGHT: u8 = 1;
    pub const BISHOP: u8 = 2;
    pub const ROOK: u8 = 3;
    pub const QUEEN: u8 = 4;
    pub const KING: u8 = 5;
    pub const NONE: u8 = 6;

    pub fn from_raw(raw: u8) -> (r: Piece)
        ensures
            r.0 == raw,
    {
        Piece(raw)
    }

    pub fn get_raw(&self) -> (r: u8)
        ensures
            r == self.0,
    {
        self.0
    }
}

/// Move flags, stored in the top four bits of a move.
pub struct MoveFlag;

impl MoveFlag {
    pub const QUIET_MOVE: u16 = 0;
    pub const DOUBLE_PUSH: u16 = 1;
    pub const KING_SIDE_CASTLE: u16 = 2;
    pub const QUEEN_SIDE_CASTLE: u16 = 3;
    pub const CAPTURE: u16 = 4;
    pub const EN_PASSANT: u16 = 5;
    pub const KNIGHT_PROMOTION: u16 = 8;
    pub const BISHOP_PROMOTION: u16 = 9;
    pub const ROOK_PROMOTION: u16 = 10;
    pub const QUEEN_PROMOTION: u16 = 11;
    pub const KNIGHT_PROMOTION_CAPTURE: u16 = 12;
    pub const BISHOP_PROMOTION_CAPTURE: u16 = 13;
    pub const ROOK_PROMOTION_CAPTURE: u16 = 14;
    pub const QUEEN_PROMOTION_CAPTURE: u16 = 15;
}

/// A move packed in 16 bits: origin square in bits `0..6`, target square in bits `6..12`,
/// flag in bits `12..16`. The raw value `0` is the null move.
#[derive(Clone, Copy, PartialEq, Eq, Structural)]
pub struct Move(pub u16);

impl Move {
    pub fn null() -> (r: Move)
        ensures
            r.0 == 0,
    {
        Move(0)
    }

    pub open spec fn from_sq(self) -> int {
        (self.0 & 63u16) as int
    }

    pub open spec fn to_sq(self) -> int {
        ((self.0 >> 6u16) & 63u16) as int
    }

    pub open spec fn flag(self) -> int {
        (self.0 >> 12u16) as int
    }

    pub open spec fn spec_is_promotion(self) -> bool {
        self.flag() >= 8
    }

    pub open spec fn spec_is_en_passant(self) -> bool {
        self.flag() == 5
    }

    pub open spec fn spec_is_capture(self) -> bool {
        self.flag() == 4 || self.flag() == 5 || self.flag() >= 12
    }

    /// Promoted piece: knight, bishop, rook or queen, by the two low bits of the flag.
    pub open spec fn promotion_piece(self) -> int {
        self.flag() % 4 + 1
    }

    pub fn new(from: u8, to: u8, flag: u16) -> (r: Move)
        requires
            from < 64,
            to < 64,
            flag < 16,
        ensures
            r.from_sq() == from,
            r.to_sq() == to,
            r.flag() == flag,
    {
        let f = from as u16;
        let t = to as u16;
        let raw: u16 = f | (t << 6u16) | (flag << 12u16);
        assert((f | (t << 6u16) | (flag << 12u16)) & 63u16 == f) by (bit_vector)
            requires
                f < 64,
                t < 64,
                flag < 16,
        ;
        assert(((f | (t << 6u16) | (flag << 12u16)) >> 6u16) & 63u16 == t) by (bit_vector)
            requires
                f < 64,
                t < 64,
                flag < 16,
        ;
        assert((f | (t << 6u16) | (flag << 12u16)) >> 12u16 == flag) by (bit_vector)
            requires
                f < 64,
                t < 64,
                flag < 16,
        ;
        Move(raw)
    }

    pub fn from_raw(raw: u16) -> (r: Move)
        ensures
            r.0 == raw,
    {
        Move(raw)
    }

    pub fn get_raw(&self) -> (r: u16)
        ensures
            r == self.0,
    {
        self.0
    }

    pub fn get_from_square(&self) -> (r: u8)
        ensures
            r == self.from_sq(),
            r < 64,
    {
        let raw = self.0;
        assert(raw & 63u16 < 64) by (bit_vector);
        (raw & 63u16) as u8
    }

    pub fn get_to_square(&self) -> (r: u8)
        ensures
            r == self.to_sq(),
            r < 64,
    {
        let raw = self.0;
        assert((raw >> 6u16) & 63u16 < 64) by (bit_vector);
        ((raw >> 6u16) & 63u16) as u8
    }

    pub fn get_flag(&self) -> (r: u16)
        ensures
            r == self.flag(),
            r < 16,
    {
        let raw = self.0;
        assert(raw >> 12u16 < 16) by (bit_vector);
        raw >> 12u16
    }

    pub fn is_promotion(&self) -> (r: bool)
        ensures
            r == self.spec_is_promotion(),
    {
        self.get_flag() >= 8
    }

    pub fn is_en_passant(&self) -> (r: bool)
        ensures
            r == self.spec_is_en_passant(),
    {
        self.get_flag() == MoveFlag::EN_PASSANT
    }

    pub fn is_capture(&self) -> (r: bool)
        ensures
            r == self.spec_is_capture(),
    {
        let f = self.get_flag();
        f == MoveFlag::CAPTURE || f == MoveFlag::EN_PASSANT || f >= 12
    }

    pub fn get_promotion_piece(&self) -> (r: Piece)
        ensures
            r.0 == self.promotion_piece(),
            1 <= r.0 <= 4,
    {
        Piece(((self.get_flag() % 4) + 1) as u8)
    }
}

/// The placement of the pieces and the few state bits that exchange evaluation and
/// data packing read: one bitboard per piece type, one per side, side to move and the
/// en passant square (`64` when there is none).
pub struct ChessBoard {
    pieces: [u64; 6],
    occupancy: [u64; 2],
    side_to_move: Side,
    en_passant: u8,
}

impl ChessBoard {
    pub closed spec fn piece_mask(&self, p: int) -> u64 {
        self.pieces@[p]
    }

    pub closed spec fn side_mask(&self, white: bool) -> u64 {
        if white { self.occupancy@[0] } else { self.occupancy@[1] }
    }

    pub open spec fn piece_set(&self, p: int) -> Set<int> {
        squares(self.piece_mask(p))
    }

    pub open spec fn side_set(&self, white: bool) -> Set<int> {
        squares(self.side_mask(white))
    }

    pub open spec fn occupied_set(&self) -> Set<int> {
        self.side_set(true).union(self.side_set(false))
    }

    pub closed spec fn stm(&self) -> Side {
        self.side_to_move
    }

    pub closed spec fn ep_square(&self) -> int {
        self.en_passant as int
    }

    /// Type of the piece on square `sq`, `6` where the square is empty.
    pub open spec fn piece_on(&self, sq: int) -> int {
        if self.piece_set(0).contains(sq) {
            0
        } else if self.piece_set(1).contains(sq) {
            1
        } else if self.piece_set(2).contains(sq) {
            2
        } else if self.piece_set(3).contains(sq) {
            3
        } else if self.piece_set(4).contains(sq) {
            4
        } else if self.piece_set(5).contains(sq) {
            5
        } else {
            6
        }
    }

    /// Every occupied square holds exactly one piece of exactly one side.
    pub open spec fn wf(&self) -> bool {
        &&& forall|p: int, q: int|
            0 <= p < 6 && 0 <= q < 6 && p != q ==> #[trigger] self.piece_set(p).disjoint(
                #[trigger] self.piece_set(q),
            )
        &&& self.side_set(true).disjoint(self.side_set(false))
        &&& forall|sq: int|
            #![trigger self.occupied_set().contains(sq)]
            self.occupied_set().contains(sq) <==> (exists|p: int|
                0 <= p < 6 && #[trigger] self.piece_set(p).contains(sq))
        &&& self.stm().valid()
        &&& self.ep_square() <= 64
    }

    /// A board without pieces.
    pub fn empty(side_to_move: Side) -> (r: ChessBoard)
        requires
            side_to_move.valid(),
        ensures
            r.wf(),
            r.stm() == side_to_move,
            r.ep_square() == 64,
            forall|p: int| 0 <= p < 6 ==> #[trigger] r.piece_set(p) == Set::<int>::empty(),
            r.side_set(true) == Set::<int>::empty(),
            r.side_set(false) == Set::<int>::empty(),
    {
        let r = ChessBoard { pieces: [0u64; 6], occupancy: [0u64; 2], side_to_move, en_passant: 64 };
        proof {
            lemma_squares_ops(0, 0);
            assert(r.occupied_set() =~= Set::<int>::empty());
        }
        r
    }

    /// Puts a piece of the given side on an empty square. Returns `false`, and leaves the
    /// board as it was, where the square is occupied or a value is out of range.
    pub fn place_piece(&mut self, square: u8, piece: Piece, side: Side) -> (placed: bool)
        requires
            old(self).wf(),
        ensures
            final(self).wf(),
            placed == (square < 64 && piece.0 < 6 && side.valid()
                && !old(self).occupied_set().contains(square as int)),
            placed ==> {
                &&& forall|p: int|
                    0 <= p < 6 ==> #[trigger] final(self).piece_set(p) == if p == piece.0 {
                        old(self).piece_set(p).insert(square as int)
                    } else {
                        old(self).piece_set(p)
                    }
                &&& final(self).side_set(side.is_white()) == old(self).side_set(
                    side.is_white(),
                ).insert(square as int)
                &&& final(self).side_set(!side.is_white()) == old(self).side_set(
                    !side.is_white(),
                )
            },
            !placed ==> *final(self) == *old(self),
            final(self).stm() == old(self).stm(),
            final(self).ep_square() == old(self).ep_square(),
    {
        if square >= 64 || piece.0 >= 6 || side.0 >= 2 {
            return false;
        }
        let bit: u64 = 1u64 << square;
        let occ = self.occupancy[0] | self.occupancy[1];
        proof {
            lemma_squares_ops(self.occupancy@[0], self.occupancy@[1]);
            lemma_squares_ops(occ, bit);
            lemma_squares_single(square as int);
            lemma_zero_iff_empty(occ & bit);
        }
        if occ & bit != 0 {
            proof {
                assert(squares(occ & bit).contains(square as int));
            }
            return false;
        }
        proof {
            assert(!squares(occ & bit).contains(square as int));
        }
        let ghost old_board = *self;
        let p = piece.0 as usize;
        let s = side.0 as usize;
        let new_piece_mask = self.pieces[p] | bit;
        let new_side_mask = self.occupancy[s] | bit;
        proof {
            lemma_set_square(self.pieces@[p as int], square as int);
            lemma_set_square(self.occupancy@[s as int], square as int);
        }
        self.pieces[p] = new_piece_mask;
        self.occupancy[s] = new_side_mask;
        proof {
            let sq = square as int;
            assert forall|q: int| 0 <= q < 6 implies #[trigger] self.piece_set(q) == if q == piece.0 {
                old_board.piece_set(q).insert(sq)
            } else {
                old_board.piece_set(q)
            } by {}
            assert(self.side_set(side.is_white()) == old_board.side_set(side.is_white()).insert(sq));
            assert(self.side_set(!side.is_white()) == old_board.side_set(!side.is_white()));
            assert(self.occupied_set() =~= old_board.occupied_set().insert(sq));
            assert forall|a: int, b: int|
                0 <= a < 6 && 0 <= b < 6 && a != b implies #[trigger] self.piece_set(a).disjoint(
                #[trigger] self.piece_set(b),
            ) by {
                assert(old_board.piece_set(a).disjoint(old_board.piece_set(b)));
                if !old_board.occupied_set().contains(sq) {
                    assert forall|x: int| old_board.piece_set(a).contains(x) implies old_board.occupied_set().contains(x) by {
                        assert(old_board.piece_set(a).contains(x));
                    }
                    assert forall|x: int| old_board.piece_set(b).contains(x) implies old_board.occupied_set().contains(x) by {
                        assert(old_board.piece_set(b).contains(x));
                    }
                }
            }
            assert forall|x: int|
                #![trigger self.occupied_set().contains(x)]
                self.occupied_set().contains(x) <==> (exists|q: int|
                    0 <= q < 6 && #[trigger] self.piece_set(q).contains(x)) by {
                if x == sq {
                    assert(self.piece_set(piece.0 as int).contains(x));
                } else {
                    if old_board.occupied_set().contains(x) {
                        let q = choose|q: int| 0 <= q < 6 && #[trigger] old_board.piece_set(q).contains(x);
                        assert(self.piece_set(q).contains(x));
                    }
                    if exists|q: int| 0 <= q < 6 && #[trigger] self.piece_set(q).contains(x) {
                        let q = choose|q: int| 0 <= q < 6 && #[trigger] self.piece_set(q).contains(x);
                        assert(old_board.piece_set(q).contains(x));
                    }
                }
            }
        }
        true
    }

    /// Sets the en passant square; `64` clears it.
    pub fn set_en_passant(&mut self, square: u8)
        requires
            old(self).wf(),
            square <= 64,
        ensures
            final(self).wf(),
            final(self).ep_square() == square,
            final(self).stm() == old(self).stm(),
            forall|p: int| 0 <= p < 6 ==> #[trigger] final(self).piece_set(p) == old(self).piece_set(p),
            forall|w: bool| #[trigger] final(self).side_set(w) == old(self).side_set(w),
    {
        let ghost before = *self;
        self.en_passant = square;
        proof {
            assert(self.pieces == before.pieces && self.occupancy == before.occupancy);
            assert forall|p: int| 0 <= p < 6 implies #[trigger] self.piece_set(p) == before.piece_set(p) by {}
            assert(self.occupied_set() == before.occupied_set());
            assert forall|sq: int|
                #![trigger self.occupied_set().contains(sq)]
                self.occupied_set().contains(sq) <==> (exists|p: int|
                    0 <= p < 6 && #[trigger] self.piece_set(p).contains(sq)) by {
                assert(before.occupied_set().contains(sq) <==> (exists|p: int|
                    0 <= p < 6 && #[trigger] before.piece_set(p).contains(sq)));
                if exists|p: int| 0 <= p < 6 && #[trigger] self.piece_set(p).contains(sq) {
                    let p = choose|p: int| 0 <= p < 6 && #[trigger] self.piece_set(p).contains(sq);
                    assert(before.piece_set(p).contains(sq));
                }
                if before.occupied_set().contains(sq) {
                    let p = choose|p: int| 0 <= p < 6 && #[trigger] before.piece_set(p).contains(sq);
                    assert(self.piece_set(p).contains(sq));
                }
            }
        }
    }

    pub fn side_to_move(&self) -> (r: Side)
        ensures
            r == self.stm(),
    {
        self.side_to_move
    }

    pub fn en_passant_square(&self) -> (r: u8)
        ensures
            r == self.ep_square(),
    {
        self.en_passant
    }

    pub fn get_piece_mask(&self, piece: Piece) -> (r: u64)
        requires
            piece.0 < 6,
        ensures
            r == self.piece_mask(piece.0 as int),
    {
        self.pieces[piece.0 as usize]
    }

    pub fn get_occupancy_for_side(&self, white: bool) -> (r: u64)
        ensures
            r == self.side_mask(white),
    {
        if white {
            self.occupancy[0]
        } else {
            self.occupancy[1]
        }
    }

    pub fn get_occupancy(&self) -> (r: u64)
        ensures
            squares(r) == self.occupied_set(),
    {
        proof {
            lemma_squares_ops(self.occupancy@[0], self.occupancy@[1]);
        }
        self.occupancy[0] | self.occupancy[1]
    }

    pub fn get_piece_on_square(&self, square: u8) -> (r: Piece)
        ensures
            r.0 == self.piece_on(square as int),
    {
        let mut p: u8 = 0;
        while p < 6
            invariant
                p <= 6,
                forall|q: int| 0 <= q < p ==> !#[trigger] self.piece_set(q).contains(square as int),
            decreases 6 - p,
        {
            let mask = self.pieces[p as usize];
            if square < 64 && (mask >> square as u64) & 1 == 1 {
                proof {
                    assert(self.piece_set(p as int).contains(square as int));
                }
                return Piece(p);
            }
            proof {
                assert(!self.piece_set(p as int).contains(square as int));
            }
            p = p + 1;
        }
        Piece(6)
    }

    /// Side of the piece on `square`: white where the white occupancy holds it, else black.
    pub fn get_piece_color_on_square(&self, square: u8) -> (r: Side)
        ensures
            r.valid(),
            r.is_white() == self.side_set(true).contains(square as int),
    {
        if square < 64 && (self.occupancy[0] >> square as u64) & 1 == 1 {
            Side(0)
        } else {
            Side(1)
        }
    }
}

} // verus!
