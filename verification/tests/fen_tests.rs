use chesscore::board::Board;
use chesscore::fen::fen_to_board;
use chesscore::state::Color;

const START: &str = "rnbqkbnr/pppppppp/8/8/8/8/PPPPPPPP/RNBQKBNR w KQkq - 0 1";

#[test]
fn parses_start_position() {
    let board = fen_to_board(START).unwrap();
    assert!(board.check_representation());
    assert_eq!(board.side_to_move, Color::White);
    assert_eq!(board.state.castling_rights, chesscore::state::ALL_RIGHTS);
    assert_eq!(board.state.en_passant, None);
    assert_eq!(board.state.halfmove_clock, 0);
    assert_eq!(board.fullmove_clock, 1);
    // 0: white pawns on rank 2, 1: black pawns on rank 7
    assert_eq!(board.pieces[0], 0x0000_0000_0000_FF00);
    assert_eq!(board.pieces[1], 0x00FF_0000_0000_0000);
    assert_eq!(board.occupied[0], 0x0000_0000_0000_FFFF);
    assert_eq!(board.occupied[1], 0xFFFF_0000_0000_0000);
}

#[test]
fn start_position_matches_default_setup() {
    let parsed = fen_to_board(START).unwrap();
    let built = Board::default_setup();
    assert_eq!(parsed.pieces, built.pieces);
    assert_eq!(parsed.occupied, built.occupied);
    assert_eq!(parsed.side_to_move, built.side_to_move);
    assert_eq!(parsed.state.castling_rights, built.state.castling_rights);
    assert_eq!(parsed.state.en_passant, built.state.en_passant);
    assert_eq!(parsed.state.hash, built.state.hash);
}

#[test]
fn rejects_bad_placement_character() {
    assert!(fen_to_board("rnbqkbnr/pppppppp/8/8/8/8/PPPPPPPX/RNBQKBNR w KQkq - 0 1").is_err());
}

#[test]
fn rejects_too_few_fields() {
    assert!(fen_to_board("8/8/8/8/8/8/8/8 w").is_err());
    assert!(fen_to_board("").is_err());
}

#[test]
fn rejects_overfull_rank() {
    assert!(fen_to_board("rnbqkbnr/ppppppppp/8/8/8/8/PPPPPPPP/RNBQKBNR w KQkq - 0 1").is_err());
    assert!(fen_to_board("9/8/8/8/8/8/8/8 w - - 0 1").is_err());
}

#[test]
fn rejects_too_many_ranks() {
    assert!(fen_to_board("8/8/8/8/8/8/8/8/8 w - - 0 1").is_err());
}

#[test]
fn rejects_bad_side() {
    assert!(fen_to_board("8/8/8/8/8/8/8/8 x - - 0 1").is_err());
    assert!(fen_to_board("8/8/8/8/8/8/8/8 ww - - 0 1").is_err());
}

#[test]
fn rejects_bad_castling() {
    assert!(fen_to_board("8/8/8/8/8/8/8/8 w X - 0 1").is_err());
}

#[test]
fn parses_en_passant_square() {
    let board = fen_to_board("4k3/8/8/4Pp2/8/8/8/4K3 w - f6 0 1").unwrap();
    // f6 is file 5, rank index 5
    assert_eq!(board.state.en_passant, Some(45));
    let board2 = fen_to_board("4k3/8/8/8/8/8/8/4K3 b - e3 0 1").unwrap();
    assert_eq!(board2.state.en_passant, Some(20));
}

#[test]
fn rejects_bad_en_passant() {
    assert!(fen_to_board("8/8/8/8/8/8/8/8 w - i3 0 1").is_err());
    assert!(fen_to_board("8/8/8/8/8/8/8/8 w - e3x 0 1").is_err());
    assert!(fen_to_board("8/8/8/8/8/8/8/8 w - -- 0 1").is_err());
    assert!(fen_to_board("8/8/8/8/8/8/8/8 w - e9 0 1").is_err());
    assert!(fen_to_board("8/8/8/8/8/8/8/8 w - e0 0 1").is_err());
    assert!(fen_to_board("8/8/8/8/8/8/8/8 w - e 0 1").is_err());
}

#[test]
fn parses_clock_fields() {
    let board = fen_to_board("8/8/8/8/8/8/8/8 w - - 13 42").unwrap();
    assert_eq!(board.state.halfmove_clock, 13);
    assert_eq!(board.fullmove_clock, 42);
}

#[test]
fn rejects_bad_clock_fields() {
    assert!(fen_to_board("8/8/8/8/8/8/8/8 w - - x 1").is_err());
    assert!(fen_to_board("8/8/8/8/8/8/8/8 w - - 0 99999").is_err());
}

#[test]
fn defaults_clock_fields() {
    let board = fen_to_board("8/8/8/8/8/8/8/8 w - -").unwrap();
    assert_eq!(board.state.halfmove_clock, 0);
    assert_eq!(board.fullmove_clock, 1);
}
