use chesscore::board::Board;
use chesscore::fen::fen_to_board;
use chesscore::magic::AttackTables;
use chesscore::moves;
use chesscore::state::Color;

fn tables() -> AttackTables {
    chesscore::state::init().expect("magic tables failed their exhaustive check")
}

#[test]
fn start_position_move_counts() {
    let t = tables();
    let board = Board::default_setup();
    let out = board.generate_moves(&t);

    let mut single_pushes = 0;
    let mut double_pushes = 0;
    let mut captures = 0;
    let mut castles = 0;
    for m in out.iter() {
        let from = m.extract_from();
        let to = m.extract_to();
        let flags = m.extract_flags() as u8;
        if flags == moves::CAPTURE || flags >= moves::PROMO_CAPTURE_FLAGS {
            captures += 1;
        }
        if flags == moves::SHORT_CASTLE || flags == moves::LONG_CASTLE {
            castles += 1;
        }
        if flags == moves::QUIET && from < 16 && to == from + 8 {
            single_pushes += 1;
        }
        if flags == moves::DOUBLE_PAWN_PUSH && from < 16 && to == from + 16 {
            double_pushes += 1;
        }
    }
    assert_eq!(single_pushes, 8);
    assert_eq!(double_pushes, 8);
    assert_eq!(captures, 0);
    assert_eq!(castles, 0);
    // 16 pawn pushes plus the 4 knight moves
    assert_eq!(out.len(), 20);
}

fn has_move(out: &Vec<moves::Move>, from: u16, to: u16, flags: u16) -> bool {
    out.iter().any(|m| {
        m.extract_from() == from && m.extract_to() == to && m.extract_flags() == flags
    })
}

#[test]
fn short_castle_generated_when_path_clear_and_safe() {
    let t = tables();
    let board = fen_to_board("4k3/8/8/8/8/8/8/4K2R w K - 0 1").unwrap();
    let out = board.generate_moves(&t);
    // e1 is 4, g1 is 6
    assert!(has_move(&out, 4, 6, moves::SHORT_CASTLE as u16));
}

#[test]
fn short_castle_absent_when_g1_attacked() {
    let t = tables();
    let board = fen_to_board("4k1r1/8/8/8/8/8/8/4K2R w K - 0 1").unwrap();
    let out = board.generate_moves(&t);
    assert!(!has_move(&out, 4, 6, moves::SHORT_CASTLE as u16));
}

#[test]
fn long_castle_needs_clear_intervening_squares() {
    let t = tables();
    let clear = fen_to_board("4k3/8/8/8/8/8/8/R3K3 w Q - 0 1").unwrap();
    assert!(has_move(&clear.generate_moves(&t), 4, 2, moves::LONG_CASTLE as u16));
    let blocked = fen_to_board("4k3/8/8/8/8/8/8/RN2K3 w Q - 0 1").unwrap();
    assert!(!has_move(&blocked.generate_moves(&t), 4, 2, moves::LONG_CASTLE as u16));
}

#[test]
fn en_passant_capture_generated() {
    let t = tables();
    let board = fen_to_board("4k3/8/8/4Pp2/8/8/8/4K3 w - f6 0 1").unwrap();
    let out = board.generate_moves(&t);
    // e5 is 36, f6 is 45
    assert!(has_move(&out, 36, 45, moves::EN_PASSANT as u16));
}

#[test]
fn promotion_pushes_expand_into_four_moves() {
    let t = tables();
    let board = fen_to_board("4k3/P7/8/8/8/8/8/4K3 w - - 0 1").unwrap();
    let out = board.generate_moves(&t);
    // a7 is 48, a8 is 56
    assert!(has_move(&out, 48, 56, moves::KNIGHT_PROMO as u16));
    assert!(has_move(&out, 48, 56, moves::BISHOP_PROMO as u16));
    assert!(has_move(&out, 48, 56, moves::ROOK_PROMO as u16));
    assert!(has_move(&out, 48, 56, moves::QUEEN_PROMO as u16));
}

#[test]
fn sliders_stop_at_blockers_and_capture_enemies() {
    let t = tables();
    // White rook a1, white pawn a3, black pawn c1.
    let board = fen_to_board("4k3/8/8/8/8/P7/8/R1p1K3 w - - 0 1").unwrap();
    let out = board.generate_moves(&t);
    // a1 is 0: a2 (8) is a quiet move, a3 (16) is own pawn: absent.
    assert!(has_move(&out, 0, 8, moves::QUIET as u16));
    assert!(!has_move(&out, 0, 16, moves::QUIET as u16));
    assert!(!has_move(&out, 0, 16, moves::CAPTURE as u16));
    // b1 (1) quiet, c1 (2) capture, d1 (3) beyond the blocker: absent.
    assert!(has_move(&out, 0, 1, moves::QUIET as u16));
    assert!(has_move(&out, 0, 2, moves::CAPTURE as u16));
    assert!(!has_move(&out, 0, 3, moves::QUIET as u16));
}

#[test]
fn knight_moves_from_corner() {
    let t = tables();
    let bb = chesscore::magic::get_knight_moves_bb(&t, 0, 0);
    // a1 knight reaches b3 (17) and c2 (10) only
    assert_eq!(bb, (1u64 << 17) | (1u64 << 10));
}

#[test]
fn king_moves_masked_by_friendly() {
    let t = tables();
    let friendly = 1u64 << 1; // own piece on b1
    let bb = chesscore::magic::get_king_moves_bb(&t, 0, friendly);
    // a1 king reaches a2 (8) and b2 (9); b1 is its own piece
    assert_eq!(bb, (1u64 << 8) | (1u64 << 9));
}

#[test]
fn magic_lookup_matches_ray_cast_on_sample_squares() {
    let t = tables();
    for &sq in &[0usize, 7, 12, 27, 33, 36, 56, 63] {
        let rook_mask = chesscore::magic::compute_rook_mask(sq);
        let mut subset: u64 = 0;
        loop {
            let looked_up = chesscore::magic::get_rook_moves_bb(&t, sq as u8, 0, subset);
            let truth = chesscore::magic::compute_rook_attacks(sq, subset);
            assert_eq!(looked_up, truth);
            subset = subset.wrapping_sub(rook_mask) & rook_mask;
            if subset == 0 {
                break;
            }
        }
        let bishop_mask = chesscore::magic::compute_bishop_mask(sq);
        let mut subset: u64 = 0;
        loop {
            let looked_up = chesscore::magic::get_bishop_moves_bb(&t, sq as u8, 0, subset);
            let truth = chesscore::magic::compute_bishop_attacks(sq, subset);
            assert_eq!(looked_up, truth);
            subset = subset.wrapping_sub(bishop_mask) & bishop_mask;
            if subset == 0 {
                break;
            }
        }
    }
}

#[test]
fn attack_query_sees_all_piece_kinds() {
    let t = tables();
    let board = fen_to_board("4k3/8/8/3r4/8/8/8/3K4 b - - 0 1").unwrap();
    // Black rook d5 attacks d2 (11) down the open file, but not e2 (12).
    assert!(board.index_in_check(11, Color::Black, &t));
    assert!(!board.index_in_check(12, Color::Black, &t));
    let board2 = fen_to_board("4k3/8/8/8/8/8/4p3/3K4 w - - 0 1").unwrap();
    // Black pawn e2 attacks d1 (3) and f1 (5), not e1 (4).
    assert!(board2.index_in_check(3, Color::Black, &t));
    assert!(board2.index_in_check(5, Color::Black, &t));
    assert!(!board2.index_in_check(4, Color::Black, &t));
}

#[test]
fn black_pawn_pushes_and_promotions() {
    let t = tables();
    let board = fen_to_board("4k3/8/8/8/8/8/p6p/4K3 b - - 0 1").unwrap();
    let out = board.generate_moves(&t);
    // a2 is 8, a1 is 0: four promotion pushes
    assert!(has_move(&out, 8, 0, moves::QUEEN_PROMO as u16));
    assert!(has_move(&out, 8, 0, moves::KNIGHT_PROMO as u16));
    // h2 is 15, h1 is 7 — blocked by nothing
    assert!(has_move(&out, 15, 7, moves::ROOK_PROMO as u16));
    let start = fen_to_board("rnbqkbnr/pppppppp/8/8/8/8/PPPPPPPP/RNBQKBNR b KQkq - 0 1").unwrap();
    let black_moves = start.generate_moves(&t);
    // e7 is 52: single to e6 (44) and double to e5 (36)
    assert!(has_move(&black_moves, 52, 44, moves::QUIET as u16));
    assert!(has_move(&black_moves, 52, 36, moves::DOUBLE_PAWN_PUSH as u16));
    assert_eq!(black_moves.len(), 20);
}

#[test]
fn black_en_passant_and_castling() {
    let t = tables();
    let board = fen_to_board("4k3/8/8/8/4pP2/8/8/4K3 b - f3 0 1").unwrap();
    // e4 is 28, f3 is 21
    assert!(has_move(&board.generate_moves(&t), 28, 21, moves::EN_PASSANT as u16));

    let castle = fen_to_board("r3k2r/8/8/8/8/8/8/4K3 b kq - 0 1").unwrap();
    let out = castle.generate_moves(&t);
    // e8 is 60, g8 is 62, c8 is 58
    assert!(has_move(&out, 60, 62, moves::SHORT_CASTLE as u16));
    assert!(has_move(&out, 60, 58, moves::LONG_CASTLE as u16));

    // With a white rook on d1 the long-castle path square d8 is attacked.
    let pinned = fen_to_board("r3k2r/8/8/8/8/8/8/3RK3 b kq - 0 1").unwrap();
    let out2 = pinned.generate_moves(&t);
    assert!(has_move(&out2, 60, 62, moves::SHORT_CASTLE as u16));
    assert!(!has_move(&out2, 60, 58, moves::LONG_CASTLE as u16));
}

#[test]
fn double_push_blocked_by_intermediate_piece() {
    let t = tables();
    let board = fen_to_board("4k3/8/8/8/8/4n3/4P3/4K3 w - - 0 1").unwrap();
    let out = board.generate_moves(&t);
    // e2 is 12: the knight on e3 (20) blocks both pushes
    assert!(!has_move(&out, 12, 20, moves::QUIET as u16));
    assert!(!has_move(&out, 12, 28, moves::DOUBLE_PAWN_PUSH as u16));
    let board2 = fen_to_board("4k3/8/8/8/4n3/8/4P3/4K3 w - - 0 1").unwrap();
    let out2 = board2.generate_moves(&t);
    // e4 (28) occupied: single push to e3 allowed, double push blocked
    assert!(has_move(&out2, 12, 20, moves::QUIET as u16));
    assert!(!has_move(&out2, 12, 28, moves::DOUBLE_PAWN_PUSH as u16));
}

#[test]
fn queen_moves_come_from_both_slider_passes() {
    let t = tables();
    let board = fen_to_board("4k3/8/8/8/8/8/8/Q3K3 w - - 0 1").unwrap();
    let out = board.generate_moves(&t);
    // a1 queen: a8 (56) straight, h8 (63) diagonal
    assert!(has_move(&out, 0, 56, moves::QUIET as u16));
    assert!(has_move(&out, 0, 63, moves::QUIET as u16));
}

#[test]
fn moves_are_distinct_and_phase_ordered() {
    let t = tables();
    let board =
        fen_to_board("r3k2r/p1ppqpb1/bn2pnp1/3PN3/1p2P3/2N2Q1p/PPPBBPPP/R3K2R w KQkq - 0 1")
            .unwrap();
    let out = board.generate_moves(&t);
    // no move appears twice
    for i in 0..out.len() {
        for j in (i + 1)..out.len() {
            assert!(out[i] != out[j]);
        }
    }
    // castling moves come last
    let first_castle = out.iter().position(|m| {
        let f = m.extract_flags() as u8;
        f == moves::SHORT_CASTLE || f == moves::LONG_CASTLE
    });
    if let Some(k) = first_castle {
        for m in out.iter().skip(k) {
            let f = m.extract_flags() as u8;
            // only king moves from e1 or castles may follow the first castle
            assert!(f == moves::SHORT_CASTLE || f == moves::LONG_CASTLE);
        }
    }
    // pawn moves (non-capture pushes) come before every knight move
    let last_pawn_push = out.iter().rposition(|m| {
        let f = m.extract_flags() as u8;
        f == moves::QUIET && board.piece_table[m.extract_from() as usize]
            == Some(chesscore::state::GenericPiece::Pawn)
    });
    let first_knight = out.iter().position(|m| {
        board.piece_table[m.extract_from() as usize]
            == Some(chesscore::state::GenericPiece::Knight)
    });
    if let (Some(a), Some(b)) = (last_pawn_push, first_knight) {
        assert!(a < b);
    }
}

#[test]
fn pawn_groups_in_original_order() {
    let t = tables();
    let board = Board::default_setup();
    let out = board.generate_moves(&t);
    // all eight single pushes precede all eight double pushes
    let last_single = out.iter().rposition(|m| m.extract_flags() as u8 == moves::QUIET
        && m.extract_to() == m.extract_from() + 8).unwrap();
    let first_double = out.iter().position(|m| {
        m.extract_flags() as u8 == moves::DOUBLE_PAWN_PUSH
    }).unwrap();
    assert!(last_single < first_double);
}
