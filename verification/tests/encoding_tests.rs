use chesscore::moves::Move;

#[test]
fn roundtrip_exhaustive() {
    for from in 0u8..64 {
        for to in 0u8..64 {
            for flags in 0u8..16 {
                let m = Move::from_parts(from, to, flags);
                assert_eq!(m.extract_from(), from as u16);
                assert_eq!(m.extract_to(), to as u16);
                assert_eq!(m.extract_flags(), flags as u16);
            }
        }
    }
}

#[test]
fn from_data_preserves_fields() {
    let m = Move::from_parts(12, 28, 0);
    let n = Move::from_data(12 << 10 | 28 << 4);
    assert_eq!(m, n);
}

#[test]
fn uci_quiet_move() {
    let m = Move::from_parts(12, 28, chesscore::moves::QUIET);
    assert_eq!(m.to_uci(), "e2e4");
}

#[test]
fn uci_corner_squares() {
    assert_eq!(chesscore::moves::square_to_algebraic(0), "a1");
    assert_eq!(chesscore::moves::square_to_algebraic(63), "h8");
    assert_eq!(chesscore::moves::square_to_algebraic(7), "h1");
    assert_eq!(chesscore::moves::square_to_algebraic(56), "a8");
}

#[test]
fn uci_promotions() {
    assert_eq!(Move::from_parts(52, 60, chesscore::moves::QUEEN_PROMO).to_uci(), "e7e8q");
    assert_eq!(Move::from_parts(52, 60, chesscore::moves::KNIGHT_PROMO).to_uci(), "e7e8n");
    assert_eq!(Move::from_parts(52, 60, chesscore::moves::BISHOP_PROMO).to_uci(), "e7e8b");
    assert_eq!(Move::from_parts(52, 60, chesscore::moves::ROOK_PROMO_CAPTURE).to_uci(), "e7e8r");
}

#[test]
fn uci_no_letter_for_non_promotion() {
    assert_eq!(Move::from_parts(4, 6, chesscore::moves::SHORT_CASTLE).to_uci(), "e1g1");
    assert_eq!(Move::from_parts(36, 45, chesscore::moves::EN_PASSANT).to_uci(), "e5f6");
}
