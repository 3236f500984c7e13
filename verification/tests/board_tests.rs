use chesscore::board::Board;
use chesscore::fen::fen_to_board;
use chesscore::state::Color;
use chesscore::state::ColoredPiece;
use chesscore::state::GenericPiece;

#[test]
fn empty_board_is_well_formed() {
    let board = Board::empty();
    assert!(board.check_representation());
    assert_eq!(board.occupied[0], 0);
    assert_eq!(board.occupied[1], 0);
    assert_eq!(board.state.hash, 0);
}

#[test]
fn default_setup_is_well_formed() {
    let board = Board::default_setup();
    assert!(board.check_representation());
    assert_eq!(board.side_to_move, Color::White);
    let total: u32 = board.pieces.iter().map(|bb| bb.count_ones()).sum();
    assert_eq!(total, 32);
}

#[test]
fn check_representation_detects_corruption() {
    let mut board = Board::default_setup();
    board.occupied[0] ^= 1 << 20;
    assert!(!board.check_representation());

    let mut board2 = Board::default_setup();
    board2.piece_table[0] = Some(GenericPiece::Queen);
    assert!(!board2.check_representation());

    let mut board3 = Board::default_setup();
    board3.state.hash ^= 1;
    assert!(!board3.check_representation());

    let mut board4 = Board::default_setup();
    // a second piece on an occupied square
    board4.pieces[8] |= 1;
    assert!(!board4.check_representation());
}

#[test]
fn update_occupied_reproduces_aggregates() {
    let board = fen_to_board("r3k2r/p1ppqpb1/bn2pnp1/3PN3/1p2P3/2N2Q1p/PPPBBPPP/R3K2R w KQkq - 0 1")
        .unwrap();
    let mut copy = board.clone();
    copy.occupied[0] = 0;
    copy.occupied[1] = 0;
    copy.update_occupied();
    assert_eq!(copy.occupied, board.occupied);
}

#[test]
fn update_piece_table_reproduces_cache() {
    let board = fen_to_board("r3k2r/p1ppqpb1/bn2pnp1/3PN3/1p2P3/2N2Q1p/PPPBBPPP/R3K2R w KQkq - 0 1")
        .unwrap();
    let mut copy = board.clone();
    for i in 0..64 {
        copy.piece_table[i] = None;
    }
    copy.update_piece_table();
    assert_eq!(copy.piece_table, board.piece_table);
}

#[test]
fn piece_enums_roundtrip() {
    for i in 0..12 {
        let piece = ColoredPiece::from_index(i).unwrap();
        assert_eq!(piece.index(), i);
    }
    assert_eq!(ColoredPiece::from_index(12), None);
    assert_eq!(ColoredPiece::from_parts(Color::White, GenericPiece::Rook), ColoredPiece::WhiteRook);
    assert_eq!(ColoredPiece::from_parts(Color::Black, GenericPiece::Queen), ColoredPiece::BlackQueen);
    assert_eq!(ColoredPiece::BlackKnight.generic(), GenericPiece::Knight);
    assert_eq!(ColoredPiece::BlackKnight.color(), Color::Black);
    assert_eq!(ColoredPiece::WhiteKing.color(), Color::White);
    assert_eq!(Color::White.opposite(), Color::Black);
    assert_eq!(Color::Black.opposite(), Color::White);
}
