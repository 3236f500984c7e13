use chesscore::board::Board;
use chesscore::fen::fen_to_board;
use chesscore::hash::calculate_hash;
use chesscore::rand::XorShift64;

const START: &str = "rnbqkbnr/pppppppp/8/8/8/8/PPPPPPPP/RNBQKBNR w KQkq - 0 1";

#[test]
fn xorshift_is_deterministic() {
    let mut a = XorShift64::new(0x1234_5678_9abc_def0);
    let mut b = XorShift64::new(0x1234_5678_9abc_def0);
    for _ in 0..100 {
        assert_eq!(a.next(), b.next());
    }
    let mut c = XorShift64::new(1);
    let first = c.next();
    let second = c.next();
    assert_ne!(first, second);
}

#[test]
fn hash_is_pure_over_its_inputs() {
    let a = fen_to_board(START).unwrap();
    let b = fen_to_board(START).unwrap();
    assert_eq!(a.state.hash, b.state.hash);
    // The clocks do not participate.
    let c = fen_to_board("rnbqkbnr/pppppppp/8/8/8/8/PPPPPPPP/RNBQKBNR w KQkq - 30 77").unwrap();
    assert_eq!(a.state.hash, c.state.hash);
}

#[test]
fn hash_depends_on_side_to_move() {
    let a = fen_to_board(START).unwrap();
    let b = fen_to_board("rnbqkbnr/pppppppp/8/8/8/8/PPPPPPPP/RNBQKBNR b KQkq - 0 1").unwrap();
    assert_ne!(a.state.hash, b.state.hash);
}

#[test]
fn hash_depends_on_castling_rights() {
    let a = fen_to_board(START).unwrap();
    let b = fen_to_board("rnbqkbnr/pppppppp/8/8/8/8/PPPPPPPP/RNBQKBNR w KQk - 0 1").unwrap();
    let c = fen_to_board("rnbqkbnr/pppppppp/8/8/8/8/PPPPPPPP/RNBQKBNR w - - 0 1").unwrap();
    assert_ne!(a.state.hash, b.state.hash);
    assert_ne!(a.state.hash, c.state.hash);
    assert_ne!(b.state.hash, c.state.hash);
}

#[test]
fn hash_depends_on_en_passant_presence_by_file() {
    let a = fen_to_board("4k3/8/8/4Pp2/8/8/8/4K3 w - - 0 1").unwrap();
    let b = fen_to_board("4k3/8/8/4Pp2/8/8/8/4K3 w - f6 0 1").unwrap();
    assert_ne!(a.state.hash, b.state.hash);
}

#[test]
fn hash_depends_on_placement() {
    let a = fen_to_board(START).unwrap();
    let b = fen_to_board("rnbqkbnr/pppppppp/8/8/4P3/8/PPPP1PPP/RNBQKBNR w KQkq - 0 1").unwrap();
    assert_ne!(a.state.hash, b.state.hash);
}

#[test]
fn recalculate_hash_is_stable() {
    let mut board = fen_to_board(START).unwrap();
    let stored = board.state.hash;
    assert_eq!(stored, calculate_hash(&board));
    board.recalculate_hash();
    assert_eq!(board.state.hash, stored);
}
