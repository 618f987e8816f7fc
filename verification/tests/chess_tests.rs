use jackal::{Attacks, BishopAttacks, ChessBoard, ChessBoardPacked, Move, MoveFlag, Piece, PolicyNetwork, RookAttacks, Side, SEE};

fn sq(file: u8, rank: u8) -> u8 {
    rank * 8 + file
}

#[test]
fn move_packs_squares_and_flag() {
    let mv = Move::new(12, 28, MoveFlag::DOUBLE_PUSH);
    assert_eq!(mv.get_from_square(), 12);
    assert_eq!(mv.get_to_square(), 28);
    assert_eq!(mv.get_flag(), MoveFlag::DOUBLE_PUSH);
    assert_eq!(mv.get_raw(), 12 | (28 << 6) | (1 << 12));
    assert!(!mv.is_capture());
    assert!(!mv.is_promotion());
    assert_eq!(Move::null().get_raw(), 0);
}

#[test]
fn move_promotion_and_en_passant_flags() {
    let promo = Move::new(52, 60, MoveFlag::QUEEN_PROMOTION_CAPTURE);
    assert!(promo.is_promotion());
    assert!(promo.is_capture());
    assert_eq!(promo.get_promotion_piece().get_raw(), Piece::QUEEN);
    let knight_promo = Move::new(52, 60, MoveFlag::KNIGHT_PROMOTION);
    assert_eq!(knight_promo.get_promotion_piece().get_raw(), Piece::KNIGHT);
    assert!(!knight_promo.is_capture());
    let ep = Move::new(36, 43, MoveFlag::EN_PASSANT);
    assert!(ep.is_en_passant());
    assert!(ep.is_capture());
}

#[test]
fn side_flips() {
    let white = Side::white();
    assert_eq!(white.get_raw(), 0);
    assert_eq!(white.flipped().get_raw(), 1);
    let mut s = Side::black();
    s.mut_flip();
    assert_eq!(s.get_raw(), 0);
}

#[test]
fn board_placement_and_lookup() {
    let mut board = ChessBoard::empty(Side::white());
    assert!(board.place_piece(sq(4, 0), Piece::from_raw(Piece::KING), Side::white()));
    assert!(board.place_piece(sq(4, 7), Piece::from_raw(Piece::KING), Side::black()));
    assert!(board.place_piece(sq(3, 3), Piece::from_raw(Piece::QUEEN), Side::white()));
    // occupied square, bad square, bad piece and bad side are refused
    assert!(!board.place_piece(sq(3, 3), Piece::from_raw(Piece::ROOK), Side::black()));
    assert!(!board.place_piece(64, Piece::from_raw(Piece::ROOK), Side::black()));
    assert!(!board.place_piece(10, Piece::from_raw(6), Side::black()));
    assert!(!board.place_piece(10, Piece::from_raw(Piece::PAWN), Side(2)));
    assert_eq!(board.get_piece_on_square(sq(3, 3)).get_raw(), Piece::QUEEN);
    assert_eq!(board.get_piece_on_square(sq(4, 7)).get_raw(), Piece::KING);
    assert_eq!(board.get_piece_on_square(sq(0, 0)).get_raw(), Piece::NONE);
    assert_eq!(board.get_piece_color_on_square(sq(4, 7)).get_raw(), 1);
    assert_eq!(board.get_piece_color_on_square(sq(4, 0)).get_raw(), 0);
    assert_eq!(board.get_occupancy(), (1u64 << 4) | (1u64 << 60) | (1u64 << 27));
    assert_eq!(board.get_occupancy_for_side(false), 1u64 << 60);
    assert_eq!(board.get_piece_mask(Piece::from_raw(Piece::KING)), (1u64 << 4) | (1u64 << 60));
    assert_eq!(board.en_passant_square(), 64);
    board.set_en_passant(20);
    assert_eq!(board.en_passant_square(), 20);
}

#[test]
fn rook_attacks_on_empty_board() {
    assert_eq!(RookAttacks::get_rook_attacks(0, 0), 0x0101_0101_0101_01FE);
    assert_eq!(RookAttacks::get_rook_attacks(0, 0).count_ones(), 14);
}

#[test]
fn rook_attacks_stop_at_blockers() {
    let occupancy = (1u64 << 43) | (1u64 << 25) | (1u64 << 27);
    assert_eq!(RookAttacks::get_rook_attacks(27, occupancy), 0x808f6080808);
}

#[test]
fn bishop_attacks_on_empty_board() {
    assert_eq!(BishopAttacks::get_bishop_attacks(27, 0), 0x8041_2214_0014_2241);
}

#[test]
fn bishop_attacks_stop_at_blockers() {
    // blockers on f6 and b2: the north-east ray stops at f6, the south-west one at b2
    let occupancy = (1u64 << 45) | (1u64 << 9);
    let attacks = BishopAttacks::get_bishop_attacks(27, occupancy);
    assert_eq!(attacks & (1u64 << 45), 1u64 << 45);
    assert_eq!(attacks & (1u64 << 54), 0);
    assert_eq!(attacks & (1u64 << 0), 0);
    assert_eq!(attacks & (1u64 << 9), 1u64 << 9);
    assert_eq!(attacks, 0x0001_2214_0014_2240);
}

#[test]
fn leaper_and_pawn_attacks() {
    assert_eq!(Attacks::get_knight_attacks_for_square(1), 0x50800);
    assert_eq!(Attacks::get_king_attacks_for_square(4), 0x3828);
    assert_eq!(Attacks::get_pawn_attacks_for_square(12, true), 0x280000);
    assert_eq!(Attacks::get_pawn_attacks_for_square(52, false), 0x2800_0000_0000);
    // pawns on the edge files attack one square only
    assert_eq!(Attacks::get_pawn_attacks_for_square(8, true), 1u64 << 17);
}

#[test]
fn pawn_attacks_are_reverse_of_other_side() {
    for s in 0u8..64 {
        for t in 0u8..64 {
            let forward = Attacks::get_pawn_attacks_for_square(s, true) >> t & 1;
            let backward = Attacks::get_pawn_attacks_for_square(t, false) >> s & 1;
            assert_eq!(forward, backward);
            let k1 = Attacks::get_knight_attacks_for_square(s) >> t & 1;
            let k2 = Attacks::get_knight_attacks_for_square(t) >> s & 1;
            assert_eq!(k1, k2);
        }
    }
}

fn board_with(pieces: &[(u8, u8, bool)], white_to_move: bool) -> ChessBoard {
    let mut board = ChessBoard::empty(if white_to_move { Side::white() } else { Side::black() });
    for &(square, piece, white) in pieces {
        assert!(board.place_piece(square, Piece::from_raw(piece), if white { Side::white() } else { Side::black() }));
    }
    board
}

#[test]
fn see_pawn_takes_defended_knight() {
    let board = board_with(
        &[(sq(4, 0), Piece::KING, true), (sq(4, 7), Piece::KING, false), (sq(4, 3), Piece::PAWN, true),
          (sq(3, 4), Piece::KNIGHT, false), (sq(2, 5), Piece::PAWN, false)],
        true,
    );
    let mv = Move::new(sq(4, 3), sq(3, 4), MoveFlag::CAPTURE);
    assert!(SEE::static_exchange_evaluation::<true, false>(&board, mv, 0));
    assert!(SEE::static_exchange_evaluation::<true, false>(&board, mv, 200));
    assert!(!SEE::static_exchange_evaluation::<true, false>(&board, mv, 201));
}

#[test]
fn see_queen_takes_defended_pawn_loses() {
    let board = board_with(
        &[(sq(7, 0), Piece::KING, true), (sq(7, 7), Piece::KING, false), (sq(3, 0), Piece::QUEEN, true),
          (sq(3, 4), Piece::PAWN, false), (sq(4, 5), Piece::PAWN, false)],
        true,
    );
    let mv = Move::new(sq(3, 0), sq(3, 4), MoveFlag::CAPTURE);
    assert!(!SEE::static_exchange_evaluation::<true, false>(&board, mv, 0));
    assert!(SEE::static_exchange_evaluation::<true, false>(&board, mv, -800));
}

#[test]
fn see_queen_takes_undefended_pawn_wins() {
    let board = board_with(
        &[(sq(7, 0), Piece::KING, true), (sq(7, 7), Piece::KING, false), (sq(3, 0), Piece::QUEEN, true),
          (sq(3, 4), Piece::PAWN, false)],
        true,
    );
    let mv = Move::new(sq(3, 0), sq(3, 4), MoveFlag::CAPTURE);
    assert!(SEE::static_exchange_evaluation::<true, false>(&board, mv, 0));
    assert!(SEE::static_exchange_evaluation::<true, false>(&board, mv, 100));
    assert!(!SEE::static_exchange_evaluation::<true, false>(&board, mv, 101));
}

#[test]
fn see_rook_exchange_with_xray_recapture() {
    // white rooks d1 and d2 against a black pawn on d5 defended by a black rook on d8:
    // RxP RxR RxR nets a pawn and a rook for a rook
    let board = board_with(
        &[(sq(7, 0), Piece::KING, true), (sq(7, 7), Piece::KING, false), (sq(3, 0), Piece::ROOK, true),
          (sq(3, 1), Piece::ROOK, true), (sq(3, 4), Piece::PAWN, false), (sq(3, 7), Piece::ROOK, false)],
        true,
    );
    let mv = Move::new(sq(3, 1), sq(3, 4), MoveFlag::CAPTURE);
    assert!(SEE::static_exchange_evaluation::<true, false>(&board, mv, 0));
    assert!(SEE::static_exchange_evaluation::<true, false>(&board, mv, 100));
}

#[test]
fn see_black_to_move() {
    let board = board_with(
        &[(sq(4, 0), Piece::KING, true), (sq(4, 7), Piece::KING, false), (sq(3, 3), Piece::PAWN, true),
          (sq(4, 4), Piece::PAWN, false), (sq(2, 2), Piece::PAWN, true)],
        false,
    );
    // exd4 cxd4: pawn for pawn
    let mv = Move::new(sq(4, 4), sq(3, 3), MoveFlag::CAPTURE);
    assert!(SEE::static_exchange_evaluation::<false, true>(&board, mv, 0));
    assert!(!SEE::static_exchange_evaluation::<false, true>(&board, mv, 1));
}

#[test]
fn see_promotion_castle_and_threshold() {
    let board = board_with(&[(sq(0, 0), Piece::KING, true), (sq(7, 7), Piece::KING, false), (sq(4, 6), Piece::PAWN, true)], true);
    let promo = Move::new(sq(4, 6), sq(4, 7), MoveFlag::QUEEN_PROMOTION);
    assert!(SEE::static_exchange_evaluation::<true, false>(&board, promo, 800));
    assert!(!SEE::static_exchange_evaluation::<true, false>(&board, promo, 801));
    let castle = Move::new(sq(0, 0), sq(7, 0), MoveFlag::KING_SIDE_CASTLE);
    assert!(SEE::static_exchange_evaluation::<true, false>(&board, castle, 0));
    assert!(!SEE::static_exchange_evaluation::<true, false>(&board, castle, 1));
}

#[test]
fn see_en_passant_counts_a_pawn() {
    let mut board = board_with(
        &[(sq(0, 0), Piece::KING, true), (sq(7, 7), Piece::KING, false), (sq(4, 4), Piece::PAWN, true),
          (sq(3, 4), Piece::PAWN, false)],
        true,
    );
    board.set_en_passant(sq(3, 5));
    let ep = Move::new(sq(4, 4), sq(3, 5), MoveFlag::EN_PASSANT);
    assert!(SEE::static_exchange_evaluation::<true, false>(&board, ep, 100));
    assert!(!SEE::static_exchange_evaluation::<true, false>(&board, ep, 101));
}

#[test]
fn packed_board_of_empty_board_is_full() {
    let board = ChessBoard::empty(Side::black());
    let packed = ChessBoardPacked::from_board(&board, 1234);
    assert_eq!(*packed.get_board(), [u64::MAX; 4]);
    assert_eq!(packed.get_side_to_move().get_raw(), 1);
    assert_eq!(packed.get_score(), 1234);
    assert_eq!(packed.get_result(), 0);
    assert_eq!(packed.get_moves_left(), 0);
}

#[test]
fn packed_board_holds_piece_bits_and_colour() {
    // black rook (3 = 0b011) on a8, white knight (1 = 0b001) on b1
    let board = board_with(&[(56, Piece::ROOK, false), (1, Piece::KNIGHT, true)], true);
    let mut packed = ChessBoardPacked::from_board(&board, 0);
    let b = *packed.get_board();
    let others = !((1u64 << 56) | (1u64 << 1));
    assert_eq!(b[0], others | (1u64 << 56) | (1u64 << 1));
    assert_eq!(b[1], others | (1u64 << 56));
    assert_eq!(b[2], others);
    assert_eq!(b[3], others | (1u64 << 56));
    packed.apply_result(Side::black());
    assert_eq!(packed.get_result(), -1);
    packed.apply_result(Side::white());
    assert_eq!(packed.get_result(), 1);
    packed.apply_moves_left(17);
    assert_eq!(packed.get_moves_left(), 17);
}

#[test]
fn see_is_monotone_in_threshold() {
    let board = board_with(
        &[(sq(7, 0), Piece::KING, true), (sq(7, 7), Piece::KING, false), (sq(3, 0), Piece::ROOK, true),
          (sq(3, 1), Piece::ROOK, true), (sq(3, 4), Piece::PAWN, false), (sq(3, 7), Piece::ROOK, false)],
        true,
    );
    let mv = Move::new(sq(3, 1), sq(3, 4), MoveFlag::CAPTURE);
    let results: Vec<bool> = (-1000..=1000)
        .step_by(25)
        .map(|t| SEE::static_exchange_evaluation::<true, false>(&board, mv, t))
        .collect();
    for pair in results.windows(2) {
        assert!(!pair[1] || pair[0]);
    }
    // a threshold above the captured pawn always fails; one that survives losing the rook passes
    assert!(!SEE::static_exchange_evaluation::<true, false>(&board, mv, 101));
    assert!(SEE::static_exchange_evaluation::<true, false>(&board, mv, -400));
}

#[test]
fn policy_inputs_follow_the_side_to_move() {
    let pieces = [(sq(4, 0), Piece::KING, true), (sq(4, 1), Piece::PAWN, true), (sq(4, 7), Piece::KING, false)];
    let white = board_with(&pieces, true);
    assert_eq!(PolicyNetwork::map_policy_inputs::<true, false>(&white), vec![12, 324, 764]);
    // black to move: the board is seen with its ranks mirrored
    let black = board_with(&pieces, false);
    assert_eq!(PolicyNetwork::map_policy_inputs::<false, true>(&black), vec![436, 324, 764]);
    let empty = ChessBoard::empty(Side::white());
    assert!(PolicyNetwork::map_policy_inputs::<true, false>(&empty).is_empty());
}
