//! Position import from a structured textual description: piece placement,
//! side to move, castling availability, en-passant target, and optional
//! half-move clock and full-move number, separated by single spaces.
//!
//! Parsing is all-or-nothing: any malformed field yields an error and no
//! board.

use vstd::prelude::*;

use crate::bits::bit_set;
use crate::bits::file_of;
use crate::bits::lemma_bit_or;
use crate::bits::lemma_bit_single;
use crate::bits::lemma_coords_square;
use crate::bits::rank_of;
use crate::board::Board;
use crate::state::BLACK_LONG;
use crate::state::BLACK_SHORT;
use crate::state::Color;
use crate::state::WHITE_LONG;
use crate::state::WHITE_SHORT;

verus! {

/// The position of the first space at or after `i`, or the text's length
/// when no space follows.
pub open spec fn first_space(s: Seq<char>, i: int) -> int
    decreases s.len() - i,
{
    if i < 0 || i >= s.len() {
        s.len() as int
    } else if s[i] == ' ' {
        i
    } else {
        first_space(s, i + 1)
    }
}

/// The space-separated fields of the text; every space separates, so
/// consecutive spaces yield empty fields.
pub open spec fn split_fields(s: Seq<char>) -> Seq<Seq<char>>
    decreases s.len(),
{
    let i = first_space(s, 0);
    if i < 0 || i >= s.len() {
        seq![s]
    } else {
        seq![s.subrange(0, i)] + split_fields(s.subrange(i + 1, s.len() as int))
    }
}

/// The interleaved piece index a placement letter stands for, or -1 for
/// any other character.
pub open spec fn fen_piece_index(ch: char) -> int {
    if ch == 'P' {
        0
    } else if ch == 'p' {
        1
    } else if ch == 'N' {
        2
    } else if ch == 'n' {
        3
    } else if ch == 'B' {
        4
    } else if ch == 'b' {
        5
    } else if ch == 'R' {
        6
    } else if ch == 'r' {
        7
    } else if ch == 'Q' {
        8
    } else if ch == 'q' {
        9
    } else if ch == 'K' {
        10
    } else if ch == 'k' {
        11
    } else {
        -1
    }
}

/// The value of an empty-run digit, 1 through 8, or -1 for any other
/// character.
pub open spec fn fen_digit(ch: char) -> int {
    if ch == '1' {
        1
    } else if ch == '2' {
        2
    } else if ch == '3' {
        3
    } else if ch == '4' {
        4
    } else if ch == '5' {
        5
    } else if ch == '6' {
        6
    } else if ch == '7' {
        7
    } else if ch == '8' {
        8
    } else {
        -1
    }
}

/// Parses the placement field from character `k` on, standing at the given
/// rank and file with the boards accumulated so far. Ranks come highest
/// first; a piece letter must stay on the board, an empty run may not push
/// the file past 8, and a rank separator must not fall off rank 0.
pub open spec fn place_rec(f: Seq<char>, k: int, rank: int, file: int, boards: Seq<u64>) -> Option<
    Seq<u64>,
>
    decreases f.len() - k,
{
    if k < 0 || k >= f.len() {
        Some(boards)
    } else {
        let ch = f[k];
        if ch == '/' {
            if rank >= 1 {
                place_rec(f, k + 1, rank - 1, 0, boards)
            } else {
                None
            }
        } else if fen_digit(ch) >= 1 {
            if file + fen_digit(ch) <= 8 {
                place_rec(f, k + 1, rank, file + fen_digit(ch), boards)
            } else {
                None
            }
        } else if fen_piece_index(ch) >= 0 {
            if file <= 7 {
                let p = fen_piece_index(ch);
                place_rec(
                    f,
                    k + 1,
                    rank,
                    file + 1,
                    boards.update(p, boards[p] | (1u64 << ((rank * 8 + file) as u64))),
                )
            } else {
                None
            }
        } else {
            None
        }
    }
}

/// The twelve piece bitboards the placement field describes, or `None` when
/// it is malformed.
pub open spec fn parse_placement(f: Seq<char>) -> Option<Seq<u64>> {
    place_rec(f, 0, 7, 0, Seq::new(12, |i: int| 0u64))
}

/// The side to move the second field names.
pub open spec fn parse_side(f: Seq<char>) -> Option<Color> {
    if f.len() == 1 && f[0] == 'w' {
        Some(Color::White)
    } else if f.len() == 1 && f[0] == 'b' {
        Some(Color::Black)
    } else {
        None
    }
}

/// Folds the castling field from character `k` on into a rights mask.
pub open spec fn castling_rec(f: Seq<char>, k: int, acc: u8) -> Option<u8>
    decreases f.len() - k,
{
    if k < 0 || k >= f.len() {
        Some(acc)
    } else if f[k] == 'K' {
        castling_rec(f, k + 1, acc | WHITE_SHORT)
    } else if f[k] == 'Q' {
        castling_rec(f, k + 1, acc | WHITE_LONG)
    } else if f[k] == 'k' {
        castling_rec(f, k + 1, acc | BLACK_SHORT)
    } else if f[k] == 'q' {
        castling_rec(f, k + 1, acc | BLACK_LONG)
    } else if f[k] == '-' {
        castling_rec(f, k + 1, acc)
    } else {
        None
    }
}

/// The castling-rights mask the third field describes.
pub open spec fn parse_castling(f: Seq<char>) -> Option<u8> {
    castling_rec(f, 0, 0)
}

/// The file index of a coordinate letter, or -1 for any other character.
pub open spec fn coord_file(ch: char) -> int {
    if ch == 'a' {
        0
    } else if ch == 'b' {
        1
    } else if ch == 'c' {
        2
    } else if ch == 'd' {
        3
    } else if ch == 'e' {
        4
    } else if ch == 'f' {
        5
    } else if ch == 'g' {
        6
    } else if ch == 'h' {
        7
    } else {
        -1
    }
}

/// The rank digit of a coordinate, 1 through 8, or -1 for any other
/// character.
pub open spec fn coord_rank(ch: char) -> int {
    fen_digit(ch)
}

/// The en-passant target the fourth field describes: `None` inside `Some`
/// for the single dash, a square for exactly a two-character coordinate;
/// anything else is malformed.
pub open spec fn parse_en_passant(f: Seq<char>) -> Option<Option<u8>> {
    if f.len() == 1 && f[0] == '-' {
        Some(None)
    } else if f.len() == 2 && coord_file(f[0]) >= 0 && coord_rank(f[1]) >= 1 {
        Some(Some((((coord_rank(f[1]) - 1) * 8 + coord_file(f[0])) as u8)))
    } else {
        None
    }
}

/// Folds a decimal clock field from character `k` on; the value must fit
/// in 16 bits.
pub open spec fn clock_rec(f: Seq<char>, k: int, acc: u16) -> Option<u16>
    decreases f.len() - k,
{
    if k < 0 || k >= f.len() {
        Some(acc)
    } else if '0' <= f[k] <= '9' {
        let d = f[k] as int - '0' as int;
        if acc * 10 + d <= 65535 {
            clock_rec(f, k + 1, (acc * 10 + d) as u16)
        } else {
            None
        }
    } else {
        None
    }
}

/// The value of a clock field: an optional leading plus sign, then at
/// least one decimal digit, fitting in 16 bits.
pub open spec fn parse_clock(f: Seq<char>) -> Option<u16> {
    let start: int = if f.len() > 0 && f[0] == '+' {
        1
    } else {
        0
    };
    if f.len() == start {
        None
    } else {
        clock_rec(f, start, 0)
    }
}

/// Whether a position description parses: at least four fields, each of
/// the four required fields well-formed, and each clock field present
/// well-formed.
pub open spec fn fen_valid(s: Seq<char>) -> bool {
    let parts = split_fields(s);
    &&& parts.len() >= 4
    &&& parse_placement(parts[0]) is Some
    &&& parse_side(parts[1]) is Some
    &&& parse_castling(parts[2]) is Some
    &&& parse_en_passant(parts[3]) is Some
    &&& (parts.len() >= 5 ==> parse_clock(parts[4]) is Some)
    &&& (parts.len() >= 6 ==> parse_clock(parts[5]) is Some)
}

proof fn lemma_first_space_at(t: Seq<char>, i: int, j0: int)
    requires
        0 <= i <= j0 <= t.len(),
        forall|k: int| i <= k < j0 ==> t[k] != ' ',
        j0 == t.len() || t[j0] == ' ',
    ensures
        first_space(t, i) == j0,
    decreases j0 - i,
{
    if i < j0 {
        lemma_first_space_at(t, i + 1, j0);
    }
}

/// Splits a text on every single space.
fn split_on_spaces<'a>(s: &'a str) -> (parts: Vec<&'a str>)
    ensures
        parts@.len() == split_fields(s@).len(),
        forall|i: int| 0 <= i < parts@.len() ==> (#[trigger] parts@[i])@ == split_fields(s@)[i],
{
    let n = s.unicode_len();
    let mut parts: Vec<&'a str> = Vec::new();
    let mut pos: usize = 0;
    proof {
        assert(s@.subrange(0, n as int) =~= s@);
        assert(Seq::new(0nat, |i: int| parts@[i]@) + split_fields(s@) =~= split_fields(s@));
    }
    loop
        invariant
            pos <= n,
            n == s@.len(),
            split_fields(s@) =~= Seq::new(parts@.len() as nat, |i: int| parts@[i]@) + split_fields(
                s@.subrange(pos as int, n as int),
            ),
        ensures
            parts@.len() == split_fields(s@).len(),
            forall|i: int| 0 <= i < parts@.len() ==> (#[trigger] parts@[i])@ == split_fields(s@)[i],
        decreases n - pos,
    {
        let ghost suffix = s@.subrange(pos as int, n as int);
        let mut j: usize = pos;
        while j < n && s.get_char(j) != ' '
            invariant
                pos <= j <= n,
                n == s@.len(),
                forall|k: int| pos <= k < j ==> s@[k] != ' ',
            decreases n - j,
        {
            j = j + 1;
        }
        proof {
            assert forall|k: int| 0 <= k < j - pos implies suffix[k] != ' ' by {
                assert(suffix[k] == s@[pos + k]);
            }
            if j < n {
                assert(suffix[j - pos] == s@[j as int]);
            }
            lemma_first_space_at(suffix, 0, j - pos);
        }
        let field = s.substring_char(pos, j);
        parts.push(field);
        if j == n {
            proof {
                assert(field@ =~= suffix);
                assert(split_fields(suffix) =~= seq![suffix]);
                assert(split_fields(s@) =~= Seq::new(
                    parts@.len() as nat,
                    |i: int| parts@[i]@,
                ));
            }
            return parts;
        }
        proof {
            assert(field@ =~= suffix.subrange(0, j - pos));
            assert(suffix.subrange(j - pos + 1, suffix.len() as int) =~= s@.subrange(
                j + 1,
                n as int,
            ));
            assert(split_fields(s@) =~= Seq::new(parts@.len() as nat, |i: int| parts@[i]@)
                + split_fields(s@.subrange(j + 1, n as int)));
        }
        pos = j + 1;
    }
}

/// Parses the piece placement field into the twelve piece bitboards of a
/// board whose bitboards start empty, then rebuilds its aggregate occupancy
/// and per-square cache.
pub fn parse_fen_pieces(board: &mut Board, pieces: &str) -> (r: Result<(), String>)
    requires
        old(board).sizes_ok(),
        forall|k: int| 0 <= k < 12 ==> old(board).pieces@[k] == 0,
    ensures
        r is Ok <==> parse_placement(pieces@) is Some,
        r is Ok ==> parse_placement(pieces@) == Some(final (board).pieces@),
        r is Ok ==> final (board).sizes_ok() && final (board).unique_placement(),
        r is Ok ==> final (board).occupied_ok() && final (board).piece_table_ok(),
        r is Ok ==> final (board).side_to_move == old(board).side_to_move && final (board).state
            == old(board).state && final (board).fullmove_clock == old(board).fullmove_clock
            && final (board).past_states == old(board).past_states,
        r is Err ==> *final (board) == (Board { pieces: final (board).pieces, ..*old(board) }),
{
    let ghost f = pieces@;
    let n = pieces.unicode_len();
    let mut rank: u8 = 7;
    let mut file: u8 = 0;
    let mut k: usize = 0;
    proof {
        crate::bits::lemma_bit_zero(0u64);
        assert(board.pieces@ =~= Seq::new(12, |i: int| 0u64));
    }
    while k < n
        invariant
            k <= n,
            n == f.len(),
            pieces@ == f,
            rank <= 7,
            file <= 8,
            board.sizes_ok(),
            *board == (Board { pieces: board.pieces, ..*old(board) }),
            place_rec(f, k as int, rank as int, file as int, board.pieces@) == parse_placement(f),
            forall|p: int, i: int|
                0 <= p < 12 && #[trigger] bit_set(board.pieces@[p], i) ==> (rank_of(i) > rank
                    || (rank_of(i) == rank && file_of(i) < file)),
            forall|p1: int, p2: int, i: int|
                0 <= p1 < 12 && 0 <= p2 < 12 && #[trigger] bit_set(board.pieces@[p1], i)
                    && #[trigger] bit_set(board.pieces@[p2], i) ==> p1 == p2,
        decreases n - k,
    {
        let ch = pieces.get_char(k);
        if ch == '/' {
            if rank == 0 {
                return Err(String::from_str("Invalid character in FEN string"));
            }
            rank = rank - 1;
            file = 0;
        } else {
            let digit: u8 = match ch {
                '1' => 1,
                '2' => 2,
                '3' => 3,
                '4' => 4,
                '5' => 5,
                '6' => 6,
                '7' => 7,
                '8' => 8,
                _ => 0,
            };
            if digit >= 1 {
                if file + digit > 8 {
                    return Err(String::from_str("Invalid character in FEN string"));
                }
                file = file + digit;
            } else {
                let piece_idx: usize = match ch {
                    'P' => 0,
                    'p' => 1,
                    'N' => 2,
                    'n' => 3,
                    'B' => 4,
                    'b' => 5,
                    'R' => 6,
                    'r' => 7,
                    'Q' => 8,
                    'q' => 9,
                    'K' => 10,
                    'k' => 11,
                    _ => 12,
                };
                if piece_idx == 12 || file > 7 {
                    return Err(String::from_str("Invalid character in FEN string"));
                }
                let sq = rank * 8 + file;
                let cur = board.pieces[piece_idx];
                proof {
                    lemma_coords_square(rank as int, file as int);
                    lemma_bit_single(sq as u64);
                    lemma_bit_or(cur, 1u64 << (sq as u64));
                }
                board.pieces.set(piece_idx, cur | (1u64 << (sq as u64)));
                file = file + 1;
            }
        }
        k = k + 1;
    }
    board.update_occupied();
    board.update_piece_table();
    Ok(())
}

/// Parses the side-to-move field: `w` or `b`.
pub fn parse_fen_side_to_move(board: &mut Board, side: &str) -> (r: Result<(), String>)
    ensures
        r is Ok <==> parse_side(side@) is Some,
        r is Ok ==> parse_side(side@) == Some(final (board).side_to_move),
        r is Ok ==> *final (board) == (Board {
            side_to_move: final (board).side_to_move,
            ..*old(board)
        }),
        r is Err ==> *final (board) == *old(board),
{
    let n = side.unicode_len();
    if n != 1 {
        return Err(String::from_str("Invalid side to move in FEN string"));
    }
    let ch = side.get_char(0);
    if ch == 'w' {
        board.side_to_move = Color::White;
        Ok(())
    } else if ch == 'b' {
        board.side_to_move = Color::Black;
        Ok(())
    } else {
        Err(String::from_str("Invalid side to move in FEN string"))
    }
}

/// Parses the castling-availability field: `-` or any mix of `K`, `Q`,
/// `k`, `q`; the stored mask uses only its four defined bits.
pub fn parse_fen_castling_rights(board: &mut Board, rights: &str) -> (r: Result<(), String>)
    requires
        old(board).state.castling_rights == 0,
    ensures
        r is Ok <==> parse_castling(rights@) is Some,
        r is Ok ==> parse_castling(rights@) == Some(final (board).state.castling_rights),
        r is Ok ==> final (board).state.castling_rights & 0xF0 == 0,
        r is Ok ==> *final (board) == (Board {
            state: crate::board::BoardState {
                castling_rights: final (board).state.castling_rights,
                ..old(board).state
            },
            ..*old(board)
        }),
        r is Err ==> *final (board) == *old(board),
{
    let n = rights.unicode_len();
    let mut k: usize = 0;
    let mut acc: u8 = 0;
    proof {
        assert(0u8 & 0xF0 == 0) by (bit_vector);
    }
    while k < n
        invariant
            k <= n,
            n == rights@.len(),
            acc & 0xF0 == 0,
            castling_rec(rights@, k as int, acc) == parse_castling(rights@),
        decreases n - k,
    {
        let ch = rights.get_char(k);
        let bit: u8 = if ch == 'K' {
            WHITE_SHORT
        } else if ch == 'Q' {
            WHITE_LONG
        } else if ch == 'k' {
            BLACK_SHORT
        } else if ch == 'q' {
            BLACK_LONG
        } else if ch == '-' {
            0
        } else {
            return Err(String::from_str("Invalid castling rights in FEN string"));
        };
        proof {
            let a = acc;
            assert(a & 0xF0 == 0 ==> ((a | 1) & 0xF0 == 0 && (a | 2) & 0xF0 == 0 && (a | 4) & 0xF0
                == 0 && (a | 8) & 0xF0 == 0 && (a | 0) == a)) by (bit_vector);
        }
        acc = acc | bit;
        k = k + 1;
    }
    board.state.castling_rights = acc;
    Ok(())
}

/// Parses the en-passant field: exactly `-` for no target, else exactly a
/// two-character coordinate such as `e3`.
pub fn parse_fen_en_passant(board: &mut Board, en_passant: &str) -> (r: Result<(), String>)
    ensures
        r is Ok <==> parse_en_passant(en_passant@) is Some,
        r is Ok ==> parse_en_passant(en_passant@) == Some(final (board).state.en_passant),
        r is Ok ==> (match final (board).state.en_passant {
            Some(sq) => sq < 64,
            None => true,
        }),
        r is Ok ==> *final (board) == (Board {
            state: crate::board::BoardState {
                en_passant: final (board).state.en_passant,
                ..old(board).state
            },
            ..*old(board)
        }),
        r is Err ==> *final (board) == *old(board),
{
    let n = en_passant.unicode_len();
    if n == 1 && en_passant.get_char(0) == '-' {
        board.state.en_passant = None;
        return Ok(());
    }
    if n != 2 {
        return Err(String::from_str("Invalid en passant in FEN string"));
    }
    let file_ch = en_passant.get_char(0);
    let rank_ch = en_passant.get_char(1);
    let file: u8 = if file_ch == 'a' {
        0
    } else if file_ch == 'b' {
        1
    } else if file_ch == 'c' {
        2
    } else if file_ch == 'd' {
        3
    } else if file_ch == 'e' {
        4
    } else if file_ch == 'f' {
        5
    } else if file_ch == 'g' {
        6
    } else if file_ch == 'h' {
        7
    } else {
        return Err(String::from_str("Invalid file in en passant"));
    };
    let rank: u8 = if rank_ch == '1' {
        1
    } else if rank_ch == '2' {
        2
    } else if rank_ch == '3' {
        3
    } else if rank_ch == '4' {
        4
    } else if rank_ch == '5' {
        5
    } else if rank_ch == '6' {
        6
    } else if rank_ch == '7' {
        7
    } else if rank_ch == '8' {
        8
    } else {
        return Err(String::from_str("Invalid rank in en passant"));
    };
    let square_index = (rank - 1) * 8 + file;
    board.state.en_passant = Some(square_index);
    Ok(())
}

/// Parses a decimal clock field: an optional leading plus sign, then at
/// least one digit, fitting in 16 bits.
fn parse_clock_field(f: &str) -> (r: Option<u16>)
    ensures
        r == parse_clock(f@),
{
    let n = f.unicode_len();
    let start: usize = if n > 0 && f.get_char(0) == '+' {
        1
    } else {
        0
    };
    if n == start {
        return None;
    }
    let mut k: usize = start;
    let mut acc: u16 = 0;
    while k < n
        invariant
            start <= k <= n,
            n == f@.len(),
            clock_rec(f@, k as int, acc) == parse_clock(f@),
        decreases n - k,
    {
        let ch = f.get_char(k);
        if !(ch >= '0' && ch <= '9') {
            return None;
        }
        let d = (ch as u32) - ('0' as u32);
        let v = (acc as u32) * 10 + d;
        if v > 65535 {
            return None;
        }
        acc = v as u16;
        k = k + 1;
    }
    Some(acc)
}

/// Parses a position description and returns the board it names: the four
/// required fields, then an optional half-move clock (default 0) and
/// full-move number (default 1). A successful parse yields a board already
/// satisfying every representation invariant, its hash included; any
/// malformed field yields an error and no board.
pub fn fen_to_board(fen: &str) -> (r: Result<Board, String>)
    ensures
        r is Ok <==> fen_valid(fen@),
        r matches Ok(b) ==> {
            let parts = split_fields(fen@);
            &&& b.wf()
            &&& parse_placement(parts[0]) == Some(b.pieces@)
            &&& parse_side(parts[1]) == Some(b.side_to_move)
            &&& parse_castling(parts[2]) == Some(b.state.castling_rights)
            &&& parse_en_passant(parts[3]) == Some(b.state.en_passant)
            &&& b.state.halfmove_clock == (if parts.len() >= 5 {
                parse_clock(parts[4]) -> Some_0
            } else {
                0u16
            })
            &&& b.fullmove_clock == (if parts.len() >= 6 {
                parse_clock(parts[5]) -> Some_0
            } else {
                1u16
            })
            &&& b.state.captured_piece is None
            &&& b.past_states@.len() == 0
        },
{
    let parts = split_on_spaces(fen);
    if parts.len() < 4 {
        return Err(String::from_str("FEN string must have at least 4 parts"));
    }
    let mut board = Board::empty();
    match parse_fen_pieces(&mut board, parts[0]) {
        Ok(_) => {},
        Err(e) => {
            return Err(e);
        },
    }
    match parse_fen_side_to_move(&mut board, parts[1]) {
        Ok(_) => {},
        Err(e) => {
            return Err(e);
        },
    }
    match parse_fen_castling_rights(&mut board, parts[2]) {
        Ok(_) => {},
        Err(e) => {
            return Err(e);
        },
    }
    match parse_fen_en_passant(&mut board, parts[3]) {
        Ok(_) => {},
        Err(e) => {
            return Err(e);
        },
    }
    if parts.len() >= 5 {
        match parse_clock_field(parts[4]) {
            Some(clock) => {
                board.state.halfmove_clock = clock;
            },
            None => {
                return Err(String::from_str("Invalid halfmove number in FEN string"));
            },
        }
    }
    if parts.len() >= 6 {
        match parse_clock_field(parts[5]) {
            Some(clock) => {
                board.fullmove_clock = clock;
            },
            None => {
                return Err(String::from_str("Invalid fullmove number in FEN string"));
            },
        }
    }
    board.recalculate_hash();
    Ok(board)
}

} // verus!
