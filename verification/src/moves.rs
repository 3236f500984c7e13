//! The packed move encoding — 6 bits source square, 6 bits destination
//! square, 4 bits flag — its textual rendering, and the pseudo-legal move
//! generator.

use vstd::prelude::*;

use crate::bits::bit_set;
use crate::bits::file_of;
use crate::bits::lemma_square_coords;
use crate::bits::rank_of;
use crate::bits::test_bit;
use crate::board::Board;
use crate::board::attacks_square;
use crate::board::lemma_wf_occ_structure;
use crate::board::pawn_attacker_bit;
use crate::magic::AttackTables;
use crate::magic::bishop_attacks;
use crate::magic::bishop_mask;
use crate::magic::get_bishop_moves_bb;
use crate::magic::get_king_moves_bb;
use crate::magic::get_knight_moves_bb;
use crate::magic::get_rook_moves_bb;
use crate::magic::king_attacks;
use crate::magic::knight_attacks;
use crate::magic::rook_attacks;
use crate::magic::rook_mask;
use crate::state::BLACK_LONG;
use crate::state::BLACK_SHORT;
use crate::state::Color;
use crate::state::MAX_PSEUDO_LEGAL_MOVES;
use crate::state::WHITE_LONG;
use crate::state::WHITE_SHORT;
use crate::state::color_index;

verus! {

pub const QUIET: u8 = 0;

pub const DOUBLE_PAWN_PUSH: u8 = 1;

pub const SHORT_CASTLE: u8 = 2;

pub const LONG_CASTLE: u8 = 3;

pub const CAPTURE: u8 = 4;

pub const EN_PASSANT: u8 = 5;

pub const KNIGHT_PROMO: u8 = 8;

pub const BISHOP_PROMO: u8 = 9;

pub const ROOK_PROMO: u8 = 10;

pub const QUEEN_PROMO: u8 = 11;

pub const KNIGHT_PROMO_CAPTURE: u8 = 12;

pub const BISHOP_PROMO_CAPTURE: u8 = 13;

pub const ROOK_PROMO_CAPTURE: u8 = 14;

pub const QUEEN_PROMO_CAPTURE: u8 = 15;

/// Flag bit 3: set on every promotion flag.
pub const PROMO_FLAGS: u8 = 8;

/// Flag bits 3 and 2 together: set on every promotion-with-capture flag.
pub const PROMO_CAPTURE_FLAGS: u8 = 12;

pub const FROM_MASK: u16 = 0b1111110000000000;

pub const TO_MASK: u16 = 0b0000001111110000;

pub const FLAGS_MASK: u16 = 0b0000000000001111;

/// The source square packed in a move word.
pub open spec fn move_from(d: u16) -> u16 {
    d >> 10u16
}

/// The destination square packed in a move word.
pub open spec fn move_to(d: u16) -> u16 {
    (d >> 4u16) & 0x3F
}

/// The flag packed in a move word.
pub open spec fn move_flags(d: u16) -> u16 {
    d & 0xF
}

/// The move word packing the given source, destination and flag.
pub open spec fn encode_move(from: u16, to: u16, flags: u16) -> u16 {
    ((from << 10u16) | (to << 4u16)) | flags
}

/// Decoding inverts encoding on the whole domain: sources and destinations
/// in [0, 64) and flags in [0, 16). Conversely, every move word re-encodes
/// to itself, and its fields lie in that domain.
pub proof fn lemma_move_roundtrip(from: u16, to: u16, flags: u16)
    by (bit_vector)
    requires
        from < 64,
        to < 64,
        flags < 16,
    ensures
        move_from(encode_move(from, to, flags)) == from,
        move_to(encode_move(from, to, flags)) == to,
        move_flags(encode_move(from, to, flags)) == flags,
{
}

/// The three packed fields of any move word lie in the packing domain, and
/// re-encoding them restores the word.
pub proof fn lemma_move_fields(d: u16)
    by (bit_vector)
    ensures
        move_from(d) < 64,
        move_to(d) < 64,
        move_flags(d) < 16,
        encode_move(move_from(d), move_to(d), move_flags(d)) == d,
        (d & FROM_MASK) >> 10u16 == move_from(d),
        (d & TO_MASK) >> 4u16 == move_to(d),
        d & FLAGS_MASK == move_flags(d),
{
}

/// A move: a packed 16-bit word holding source square, destination square
/// and flag.
#[derive(Clone, Copy, Debug, PartialEq, Eq, Structural)]
pub struct Move {
    data: u16,
}

/// The file letter of a square, `a` through `h`.
pub open spec fn file_char(f: int) -> char {
    if f == 0 {
        'a'
    } else if f == 1 {
        'b'
    } else if f == 2 {
        'c'
    } else if f == 3 {
        'd'
    } else if f == 4 {
        'e'
    } else if f == 5 {
        'f'
    } else if f == 6 {
        'g'
    } else {
        'h'
    }
}

/// The rank digit of a square, `1` through `8`.
pub open spec fn rank_char(r: int) -> char {
    if r == 0 {
        '1'
    } else if r == 1 {
        '2'
    } else if r == 2 {
        '3'
    } else if r == 3 {
        '4'
    } else if r == 4 {
        '5'
    } else if r == 5 {
        '6'
    } else if r == 6 {
        '7'
    } else {
        '8'
    }
}

/// The two-character coordinate of a square: file letter then rank digit.
pub open spec fn square_chars(s: int) -> Seq<char> {
    seq![file_char(file_of(s)), rank_char(rank_of(s))]
}

/// The trailing promotion letter a flag calls for: empty unless the flag
/// denotes a promotion.
pub open spec fn promo_chars(flags: u16) -> Seq<char> {
    if flags == 8 || flags == 12 {
        seq!['n']
    } else if flags == 9 || flags == 13 {
        seq!['b']
    } else if flags == 10 || flags == 14 {
        seq!['r']
    } else if flags == 11 || flags == 15 {
        seq!['q']
    } else {
        Seq::empty()
    }
}

/// The coordinate text of a move word: source square, destination square,
/// and the promotion letter when the flag denotes a promotion.
pub open spec fn uci_chars(d: u16) -> Seq<char> {
    square_chars(move_from(d) as int) + square_chars(move_to(d) as int) + promo_chars(
        move_flags(d),
    )
}

/// The algebraic coordinate (e.g. "e4") of a square index.
pub fn square_to_algebraic(square: u8) -> (r: String)
    requires
        square < 64,
    ensures
        r@ == square_chars(square as int),
{
    let file = square % 8;
    let rank = square / 8;
    let mut out = String::new();
    let file_str = match file {
        0 => "a",
        1 => "b",
        2 => "c",
        3 => "d",
        4 => "e",
        5 => "f",
        6 => "g",
        _ => "h",
    };
    proof {
        reveal_strlit("a");
        reveal_strlit("b");
        reveal_strlit("c");
        reveal_strlit("d");
        reveal_strlit("e");
        reveal_strlit("f");
        reveal_strlit("g");
        reveal_strlit("h");
    }
    out.append(file_str);
    let rank_str = match rank {
        0 => "1",
        1 => "2",
        2 => "3",
        3 => "4",
        4 => "5",
        5 => "6",
        6 => "7",
        _ => "8",
    };
    proof {
        reveal_strlit("1");
        reveal_strlit("2");
        reveal_strlit("3");
        reveal_strlit("4");
        reveal_strlit("5");
        reveal_strlit("6");
        reveal_strlit("7");
        reveal_strlit("8");
    }
    out.append(rank_str);
    proof {
        assert(out@ =~= square_chars(square as int));
    }
    out
}

impl Move {
    /// The packed word of this move.
    pub closed spec fn spec_data(self) -> u16 {
        self.data
    }

    /// Packs a source square, a destination square and a flag into a move.
    pub fn from_parts(from: u8, to: u8, flags: u8) -> (m: Move)
        requires
            from < 64,
            to < 64,
            flags < 16,
        ensures
            m.spec_data() == encode_move(from as u16, to as u16, flags as u16),
            move_from(m.spec_data()) == from,
            move_to(m.spec_data()) == to,
            move_flags(m.spec_data()) == flags,
    {
        proof {
            lemma_move_roundtrip(from as u16, to as u16, flags as u16);
        }
        Move { data: ((from as u16) << 10u16) | ((to as u16) << 4u16) | (flags as u16) }
    }

    /// Wraps an already-packed move word.
    pub fn from_data(data: u16) -> (m: Move)
        ensures
            m.spec_data() == data,
    {
        Move { data }
    }

    /// The source square of this move.
    pub fn extract_from(&self) -> (r: u16)
        ensures
            r == move_from(self.spec_data()),
            r < 64,
    {
        proof {
            lemma_move_fields(self.data);
        }
        (self.data & FROM_MASK) >> 10u16
    }

    /// The destination square of this move.
    pub fn extract_to(&self) -> (r: u16)
        ensures
            r == move_to(self.spec_data()),
            r < 64,
    {
        proof {
            lemma_move_fields(self.data);
        }
        (self.data & TO_MASK) >> 4u16
    }

    /// The flag of this move.
    pub fn extract_flags(&self) -> (r: u16)
        ensures
            r == move_flags(self.spec_data()),
            r < 16,
    {
        proof {
            lemma_move_fields(self.data);
        }
        self.data & FLAGS_MASK
    }

    /// The coordinate text of this move: 4 characters, or 5 when the flag
    /// denotes a promotion.
    pub fn to_uci(&self) -> (r: String)
        ensures
            r@ == uci_chars(self.spec_data()),
    {
        let from = self.extract_from();
        let to = self.extract_to();
        let mut out = square_to_algebraic(from as u8);
        let to_str = square_to_algebraic(to as u8);
        out.append(to_str.as_str());
        let flags = self.extract_flags() as u8;
        proof {
            reveal_strlit("n");
            reveal_strlit("b");
            reveal_strlit("r");
            reveal_strlit("q");
        }
        match flags {
            8 | 12 => out.append("n"),
            9 | 13 => out.append("b"),
            10 | 14 => out.append("r"),
            11 | 15 => out.append("q"),
            _ => {},
        }
        proof {
            assert(out@ =~= uci_chars(self.spec_data()));
        }
        out
    }
}

/// The combined occupancy of both colors.
pub open spec fn all_occ(b: Board) -> u64 {
    b.occupied@[0] | b.occupied@[1]
}

/// The index of the side to move.
pub open spec fn side_idx(b: Board) -> int {
    color_index(b.side_to_move)
}

/// The aggregate occupancy of the side to move.
pub open spec fn friendly_occ(b: Board) -> u64 {
    b.occupied@[side_idx(b)]
}

/// A pseudo-legal single-square pawn push of the side to move: one step to
/// an empty square directly ahead, expanded into the four promotion flags
/// when it lands on the far rank, flagged quiet otherwise.
pub open spec fn pawn_single_push_ok(b: Board, d: u16) -> bool {
    let from = move_from(d) as int;
    let to = move_to(d) as int;
    let fl = move_flags(d);
    let white = b.side_to_move == Color::White;
    let promo = rank_of(to) == 7 || rank_of(to) == 0;
    &&& to == from + (if white {
        8int
    } else {
        -8int
    })
    &&& bit_set(b.pieces@[side_idx(b)], from)
    &&& !bit_set(all_occ(b), to)
    &&& {
        ||| (fl == QUIET as u16 && !promo)
        ||| (KNIGHT_PROMO as u16 <= fl <= QUEEN_PROMO as u16 && promo)
    }
}

/// A pseudo-legal double pawn push of the side to move: two steps from the
/// start rank through two empty squares, flagged as a double pawn push.
pub open spec fn pawn_double_push_ok(b: Board, d: u16) -> bool {
    let from = move_from(d) as int;
    let to = move_to(d) as int;
    let white = b.side_to_move == Color::White;
    &&& move_flags(d) == DOUBLE_PAWN_PUSH as u16
    &&& to == from + (if white {
        16int
    } else {
        -16int
    })
    &&& rank_of(to) == (if white {
        3int
    } else {
        4int
    })
    &&& bit_set(b.pieces@[side_idx(b)], from)
    &&& !bit_set(
        all_occ(b),
        from + (if white {
            8int
        } else {
            -8int
        }),
    )
    &&& !bit_set(all_occ(b), to)
}

/// A pseudo-legal pawn push: single or double.
pub open spec fn pawn_push_ok(b: Board, d: u16) -> bool {
    pawn_single_push_ok(b, d) || pawn_double_push_ok(b, d)
}

/// A pseudo-legal en-passant capture: the side to move has a pawn whose
/// capture geometry reaches the recorded en-passant target.
pub open spec fn pawn_ep_ok(b: Board, d: u16) -> bool {
    match b.state.en_passant {
        Some(ep) => move_flags(d) == EN_PASSANT as u16 && move_to(d) == ep && bit_set(
            b.pieces@[side_idx(b)],
            move_from(d) as int,
        ) && pawn_attacker_bit(b.side_to_move, ep as int, move_from(d) as int),
        None => false,
    }
}

/// The place of a pawn move within the pawn phase: single pushes and
/// promotions first, then double pushes, then en-passant captures, told
/// apart by their flags.
pub open spec fn pawn_group(d: u16) -> int {
    if move_flags(d) == EN_PASSANT as u16 {
        3
    } else if move_flags(d) == DOUBLE_PAWN_PUSH as u16 {
        2
    } else {
        1
    }
}

/// A pseudo-legal pawn move: a push or an en-passant capture. This
/// generator emits no ordinary diagonal pawn capture.
pub open spec fn pawn_move_ok(b: Board, d: u16) -> bool {
    pawn_push_ok(b, d) || pawn_ep_ok(b, d)
}

/// A move into the given target set: quiet when the destination is empty,
/// flagged capture when any piece stands there.
pub open spec fn target_move_ok(b: Board, targets: u64, d: u16) -> bool {
    let to = move_to(d) as int;
    let fl = move_flags(d);
    bit_set(targets, to) && ((fl == QUIET as u16 && !bit_set(all_occ(b), to)) || (fl
        == CAPTURE as u16 && bit_set(all_occ(b), to)))
}

/// A pseudo-legal knight move of the side to move.
pub open spec fn knight_move_ok(b: Board, d: u16) -> bool {
    bit_set(b.pieces@[2 + side_idx(b)], move_from(d) as int) && target_move_ok(
        b,
        knight_attacks(move_from(d) as int) & !friendly_occ(b),
        d,
    )
}

/// A pseudo-legal diagonal slider move: a bishop or queen of the side to
/// move travelling along the magic bishop rays of its square.
pub open spec fn bishop_slider_move_ok(b: Board, d: u16) -> bool {
    let from = move_from(d) as int;
    bit_set(b.pieces@[4 + side_idx(b)] | b.pieces@[8 + side_idx(b)], from) && target_move_ok(
        b,
        bishop_attacks(from, all_occ(b) & bishop_mask(from)) & !friendly_occ(b),
        d,
    )
}

/// A pseudo-legal straight slider move: a rook or queen of the side to move
/// travelling along the magic rook rays of its square.
pub open spec fn rook_slider_move_ok(b: Board, d: u16) -> bool {
    let from = move_from(d) as int;
    bit_set(b.pieces@[6 + side_idx(b)] | b.pieces@[8 + side_idx(b)], from) && target_move_ok(
        b,
        rook_attacks(from, all_occ(b) & rook_mask(from)) & !friendly_occ(b),
        d,
    )
}

/// A pseudo-legal king step of the side to move.
pub open spec fn king_move_ok(b: Board, d: u16) -> bool {
    bit_set(b.pieces@[10 + side_idx(b)], move_from(d) as int) && target_move_ok(
        b,
        king_attacks(move_from(d) as int) & !friendly_occ(b),
        d,
    )
}

/// A pseudo-legal castling move: the right is granted, the squares strictly
/// between king and rook are empty, and no square the king transits —
/// its start square included — is attacked by the opponent.
pub open spec fn castle_move_ok(b: Board, d: u16) -> bool {
    let from = move_from(d) as int;
    let to = move_to(d) as int;
    let fl = move_flags(d);
    let rights = b.state.castling_rights;
    let all = all_occ(b);
    if b.side_to_move == Color::White {
        ||| (fl == SHORT_CASTLE as u16 && from == 4 && to == 6 && rights & WHITE_SHORT != 0
            && !bit_set(all, 5) && !bit_set(all, 6) && !attacks_square(b, 4, Color::Black)
            && !attacks_square(b, 5, Color::Black) && !attacks_square(b, 6, Color::Black))
        ||| (fl == LONG_CASTLE as u16 && from == 4 && to == 2 && rights & WHITE_LONG != 0
            && !bit_set(all, 1) && !bit_set(all, 2) && !bit_set(all, 3) && !attacks_square(
            b,
            2,
            Color::Black,
        ) && !attacks_square(b, 3, Color::Black) && !attacks_square(b, 4, Color::Black))
    } else {
        ||| (fl == SHORT_CASTLE as u16 && from == 60 && to == 62 && rights & BLACK_SHORT != 0
            && !bit_set(all, 61) && !bit_set(all, 62) && !attacks_square(b, 60, Color::White)
            && !attacks_square(b, 61, Color::White) && !attacks_square(b, 62, Color::White))
        ||| (fl == LONG_CASTLE as u16 && from == 60 && to == 58 && rights & BLACK_LONG != 0
            && !bit_set(all, 57) && !bit_set(all, 58) && !bit_set(all, 59) && !attacks_square(
            b,
            58,
            Color::White,
        ) && !attacks_square(b, 59, Color::White) && !attacks_square(b, 60, Color::White))
    }
}

/// A pseudo-legal move of the side to move: respects per-piece movement
/// geometry and same-color blocking, and for castling also clear and
/// unattacked king-path squares; it does not check that the mover's own
/// king is safe afterwards.
pub open spec fn is_pseudo_legal(b: Board, d: u16) -> bool {
    ||| pawn_move_ok(b, d)
    ||| knight_move_ok(b, d)
    ||| bishop_slider_move_ok(b, d)
    ||| rook_slider_move_ok(b, d)
    ||| king_move_ok(b, d)
    ||| castle_move_ok(b, d)
}

/// No move word is pseudo-legal for two different piece kinds at once: the
/// piece boards of a well-formed position do not share squares, the castle
/// flags appear in no other kind, and a rook line and a bishop diagonal of
/// one square meet only at that square.
proof fn lemma_move_kinds_exclusive(b: Board, d: u16)
    requires
        b.wf(),
    ensures
        !(pawn_move_ok(b, d) && knight_move_ok(b, d)),
        !(pawn_move_ok(b, d) && bishop_slider_move_ok(b, d)),
        !(pawn_move_ok(b, d) && rook_slider_move_ok(b, d)),
        !(pawn_move_ok(b, d) && king_move_ok(b, d)),
        !(pawn_move_ok(b, d) && castle_move_ok(b, d)),
        !(knight_move_ok(b, d) && bishop_slider_move_ok(b, d)),
        !(knight_move_ok(b, d) && rook_slider_move_ok(b, d)),
        !(knight_move_ok(b, d) && king_move_ok(b, d)),
        !(knight_move_ok(b, d) && castle_move_ok(b, d)),
        !(bishop_slider_move_ok(b, d) && rook_slider_move_ok(b, d)),
        !(bishop_slider_move_ok(b, d) && king_move_ok(b, d)),
        !(bishop_slider_move_ok(b, d) && castle_move_ok(b, d)),
        !(rook_slider_move_ok(b, d) && king_move_ok(b, d)),
        !(rook_slider_move_ok(b, d) && castle_move_ok(b, d)),
        !(king_move_ok(b, d) && castle_move_ok(b, d)),
{
    let from = move_from(d) as int;
    let to = move_to(d) as int;
    let c = side_idx(b);
    lemma_move_fields(d);
    crate::bits::lemma_bit_or(b.pieces@[4 + c], b.pieces@[8 + c]);
    crate::bits::lemma_bit_or(b.pieces@[6 + c], b.pieces@[8 + c]);
    if bishop_slider_move_ok(b, d) && rook_slider_move_ok(b, d) {
        crate::bits::lemma_bit_and(
            bishop_attacks(from, all_occ(b) & bishop_mask(from)),
            !friendly_occ(b),
        );
        crate::bits::lemma_bit_and(
            rook_attacks(from, all_occ(b) & rook_mask(from)),
            !friendly_occ(b),
        );
        crate::magic::lemma_rook_bishop_disjoint(
            from,
            all_occ(b) & rook_mask(from),
            all_occ(b) & bishop_mask(from),
            to,
        );
    }
}

/// The place of a move in the generator's fixed phase order: pawns first,
/// then knights, bishops and queens, rooks and queens, the king, and
/// castling last. On a well-formed board the phases are mutually exclusive,
/// so every pseudo-legal move has exactly one phase.
pub open spec fn move_phase(b: Board, d: u16) -> int {
    if pawn_move_ok(b, d) {
        1
    } else if knight_move_ok(b, d) {
        2
    } else if bishop_slider_move_ok(b, d) {
        3
    } else if rook_slider_move_ok(b, d) {
        4
    } else if king_move_ok(b, d) {
        5
    } else {
        6
    }
}

/// Everything the move generator promises of its output sequence. It holds
/// a move exactly when the move is pseudo-legal, each move exactly once;
/// the phases come in the fixed order; within each of the four piece phases
/// moves ascend strictly by source, then destination; castling emits short
/// before long; and the pawn phase runs in three groups — single pushes
/// (promotions in ascending flag order), double pushes, en-passant
/// captures — each ascending by source square.
pub open spec fn generated_moves_ok(b: Board, out: Seq<Move>) -> bool {
    &&& (forall|m: Move| #[trigger] out.contains(m) <==> is_pseudo_legal(b, m.spec_data()))
    &&& (forall|i: int, j: int|
        0 <= i < j < out.len() ==> #[trigger] out[i] != #[trigger] out[j])
    &&& (forall|i: int, j: int|
        #![trigger out[i], out[j]]
        0 <= i < j < out.len() ==> move_phase(b, out[i].spec_data()) <= move_phase(
            b,
            out[j].spec_data(),
        ))
    &&& (forall|i: int, j: int|
        #![trigger out[i], out[j]]
        0 <= i < j < out.len() && move_phase(b, out[i].spec_data()) == move_phase(
            b,
            out[j].spec_data(),
        ) && 2 <= move_phase(b, out[i].spec_data()) < 6 ==> (move_from(out[i].spec_data())
            < move_from(out[j].spec_data()) || (move_from(out[i].spec_data()) == move_from(
            out[j].spec_data(),
        ) && move_to(out[i].spec_data()) < move_to(out[j].spec_data()))))
    &&& (forall|i: int, j: int|
        #![trigger out[i], out[j]]
        0 <= i < j < out.len() && move_phase(b, out[i].spec_data()) == 6 && move_phase(
            b,
            out[j].spec_data(),
        ) == 6 ==> move_flags(out[i].spec_data()) < move_flags(out[j].spec_data()))
    &&& (forall|i: int, j: int|
        #![trigger out[i], out[j]]
        0 <= i < j < out.len() && move_phase(b, out[i].spec_data()) == 1 && move_phase(
            b,
            out[j].spec_data(),
        ) == 1 ==> {
        let di = out[i].spec_data();
        let dj = out[j].spec_data();
        &&& pawn_group(di) <= pawn_group(dj)
        &&& (pawn_group(di) == pawn_group(dj) ==> move_from(di) <= move_from(dj))
        &&& (pawn_group(di) == pawn_group(dj) && pawn_group(di) != 1 ==> move_from(di)
            < move_from(dj))
        &&& (move_from(di) == move_from(dj) && move_to(di) == move_to(dj) ==> move_flags(di)
            < move_flags(dj))
    })
}

/// Two moves with the same packed word are the same move.
proof fn lemma_move_data_eq(a: Move, b: Move)
    requires
        a.spec_data() == b.spec_data(),
    ensures
        a == b,
{
}

/// Appends every single-square pawn push (quiet or promotion) whose source
/// is the given square.
fn generate_pawn_pushes(board: &Board, from: u8, all: u64, out: &mut Vec<Move>)
    requires
        board.wf(),
        from < 64,
        all == all_occ(*board),
    ensures
        final (out)@.len() >= old(out)@.len(),
        forall|j: int| 0 <= j < old(out)@.len() ==> final (out)@[j] == old(out)@[j],
        forall|j: int|
            old(out)@.len() <= j < final (out)@.len() ==> pawn_single_push_ok(
                *board,
                (#[trigger] final (out)@[j]).spec_data(),
            ) && move_from(final (out)@[j].spec_data()) == from,
        forall|d: u16|
            #[trigger] pawn_single_push_ok(*board, d) && move_from(d) == from ==> exists|j: int|
                old(out)@.len() <= j < final (out)@.len() && final (out)@[j].spec_data() == d,
        forall|i: int, j: int|
            old(out)@.len() <= i < j < final (out)@.len() ==> move_flags(
                (#[trigger] final (out)@[i]).spec_data(),
            ) < move_flags((#[trigger] final (out)@[j]).spec_data()),
{
    let white = matches!(board.side_to_move, Color::White);
    let pawns = board.pieces[if white {
        0
    } else {
        1
    }];
    let ghost base = out@;
    if test_bit(pawns, from) {
        let has_single = if white {
            from <= 55
        } else {
            from >= 8
        };
        if has_single {
            let to = if white {
                from + 8
            } else {
                from - 8
            };
            if !test_bit(all, to) {
                let promo = to / 8 == 7 || to / 8 == 0;
                if promo {
                    out.push(Move::from_parts(from, to, KNIGHT_PROMO));
                    out.push(Move::from_parts(from, to, BISHOP_PROMO));
                    out.push(Move::from_parts(from, to, ROOK_PROMO));
                    out.push(Move::from_parts(from, to, QUEEN_PROMO));
                    proof {
                        assert(out@[base.len() as int].spec_data() == encode_move(
                            from as u16,
                            to as u16,
                            KNIGHT_PROMO as u16,
                        ));
                        assert(out@[base.len() as int + 1].spec_data() == encode_move(
                            from as u16,
                            to as u16,
                            BISHOP_PROMO as u16,
                        ));
                        assert(out@[base.len() as int + 2].spec_data() == encode_move(
                            from as u16,
                            to as u16,
                            ROOK_PROMO as u16,
                        ));
                        assert(out@[base.len() as int + 3].spec_data() == encode_move(
                            from as u16,
                            to as u16,
                            QUEEN_PROMO as u16,
                        ));
                    }
                } else {
                    out.push(Move::from_parts(from, to, QUIET));
                    proof {
                        assert(out@[base.len() as int].spec_data() == encode_move(
                            from as u16,
                            to as u16,
                            QUIET as u16,
                        ));
                    }
                }
            }
        }
    }
    proof {
        assert forall|d: u16|
            #[trigger] pawn_single_push_ok(*board, d) && move_from(d) == from implies exists|j: int|
            base.len() <= j < out@.len() && out@[j].spec_data() == d by {
            lemma_move_fields(d);
            let fl = move_flags(d);
            if fl == QUIET as u16 {
                assert(out@[base.len() as int].spec_data() == d);
            } else {
                assert(out@[base.len() as int + (fl - 8)].spec_data() == d);
            }
        }
    }
}

/// Appends every double pawn push of the side to move, in ascending source
/// order: two steps from the start rank through two empty squares, flagged
/// as a double pawn push.
fn generate_double_pawn_pushes(board: &Board, all: u64, out: &mut Vec<Move>)
    requires
        board.wf(),
        all == all_occ(*board),
    ensures
        final (out)@.len() >= old(out)@.len(),
        forall|j: int| 0 <= j < old(out)@.len() ==> final (out)@[j] == old(out)@[j],
        forall|j: int|
            old(out)@.len() <= j < final (out)@.len() ==> pawn_double_push_ok(
                *board,
                (#[trigger] final (out)@[j]).spec_data(),
            ),
        forall|d: u16|
            #[trigger] pawn_double_push_ok(*board, d) ==> exists|j: int|
                old(out)@.len() <= j < final (out)@.len() && final (out)@[j].spec_data() == d,
        forall|i: int, j: int|
            old(out)@.len() <= i < j < final (out)@.len() ==> move_from(
                (#[trigger] final (out)@[i]).spec_data(),
            ) < move_from((#[trigger] final (out)@[j]).spec_data()),
{
    let white = matches!(board.side_to_move, Color::White);
    let pawns = board.pieces[if white {
        0
    } else {
        1
    }];
    let ghost base = out@;
    let mut from: u8 = 0;
    while from < 64
        invariant
            board.wf(),
            from <= 64,
            all == all_occ(*board),
            white == (board.side_to_move == Color::White),
            pawns == board.pieces@[side_idx(*board)],
            out@.len() >= base.len(),
            forall|j: int| 0 <= j < base.len() ==> out@[j] == base[j],
            forall|j: int|
                base.len() <= j < out@.len() ==> pawn_double_push_ok(
                    *board,
                    (#[trigger] out@[j]).spec_data(),
                ) && move_from(out@[j].spec_data()) < from,
            forall|i: int, j: int|
                base.len() <= i < j < out@.len() ==> move_from(
                    (#[trigger] out@[i]).spec_data(),
                ) < move_from((#[trigger] out@[j]).spec_data()),
            forall|d: u16|
                #[trigger] pawn_double_push_ok(*board, d) && move_from(d) < from ==> exists|j: int|
                    base.len() <= j < out@.len() && out@[j].spec_data() == d,
        decreases 64 - from,
    {
        let ghost entry = out@;
        let on_start = test_bit(pawns, from) && (if white {
            from / 8 == 1
        } else {
            from / 8 == 6
        });
        let clear = on_start && {
            let mid = if white {
                from + 8
            } else {
                from - 8
            };
            let to = if white {
                from + 16
            } else {
                from - 16
            };
            !test_bit(all, mid) && !test_bit(all, to)
        };
        if clear {
            let to = if white {
                from + 16
            } else {
                from - 16
            };
            let m = Move::from_parts(from, to, DOUBLE_PAWN_PUSH);
            out.push(m);
            proof {
                if white {
                    assert((from as int + 16) / 8 == from as int / 8 + 2) by (nonlinear_arith);
                } else {
                    assert((from as int - 16) / 8 == from as int / 8 - 2) by (nonlinear_arith)
                        requires
                            from as int >= 16,
                    ;
                }
                assert(pawn_double_push_ok(*board, m.spec_data()));
                assert(out@[out@.len() - 1] == m);
            }
        }
        proof {
            assert forall|d: u16|
                #[trigger] pawn_double_push_ok(*board, d) && move_from(d) < from + 1 implies exists|
                j: int,
            |
                base.len() <= j < out@.len() && out@[j].spec_data() == d by {
                if move_from(d) < from {
                    let j = choose|j: int|
                        base.len() <= j < entry.len() && entry[j].spec_data() == d;
                    assert(out@[j].spec_data() == d);
                } else {
                    lemma_move_fields(d);
                    if white {
                        assert((from as int + 16) / 8 == from as int / 8 + 2) by (nonlinear_arith);
                    } else {
                        assert((from as int - 16) / 8 == from as int / 8 - 2) by (nonlinear_arith)
                            requires
                                from as int >= 16,
                        ;
                    }
                    assert(out@[out@.len() - 1].spec_data() == d);
                }
            }
        }
        from = from + 1;
    }
}

/// Appends every en-passant capture available to the side to move./// Appends every en-passant capture available to the side to move.
fn generate_en_passant(board: &Board, out: &mut Vec<Move>)
    requires
        board.wf(),
    ensures
        final (out)@.len() >= old(out)@.len(),
        forall|j: int| 0 <= j < old(out)@.len() ==> final (out)@[j] == old(out)@[j],
        forall|j: int|
            old(out)@.len() <= j < final (out)@.len() ==> pawn_ep_ok(
                *board,
                (#[trigger] final (out)@[j]).spec_data(),
            ),
        forall|d: u16|
            #[trigger] pawn_ep_ok(*board, d) ==> exists|j: int|
                old(out)@.len() <= j < final (out)@.len() && final (out)@[j].spec_data() == d,
        forall|i: int, j: int|
            old(out)@.len() <= i < j < final (out)@.len() ==> move_from(
                (#[trigger] final (out)@[i]).spec_data(),
            ) < move_from((#[trigger] final (out)@[j]).spec_data()),
{
    let white = matches!(board.side_to_move, Color::White);
    let pawns = board.pieces[if white {
        0
    } else {
        1
    }];
    let ep_square = match board.state.en_passant {
        Some(sq) => sq,
        None => {
            proof {
                assert forall|d: u16| !(#[trigger] pawn_ep_ok(*board, d)) by {}
            }
            return ;
        },
    };
    let ep_rank = ep_square / 8;
    let ep_file = ep_square % 8;
    let ghost base = out@;
    let mut from: u8 = 0;
    while from < 64
        invariant
            board.wf(),
            from <= 64,
            ep_square < 64,
            board.state.en_passant == Some(ep_square),
            white == (board.side_to_move == Color::White),
            pawns == board.pieces@[side_idx(*board)],
            ep_rank == rank_of(ep_square as int),
            ep_file == file_of(ep_square as int),
            out@.len() >= base.len(),
            forall|j: int| 0 <= j < base.len() ==> out@[j] == base[j],
            forall|j: int|
                base.len() <= j < out@.len() ==> pawn_ep_ok(
                    *board,
                    (#[trigger] out@[j]).spec_data(),
                ) && move_from(out@[j].spec_data()) < from,
            forall|i: int, j: int|
                base.len() <= i < j < out@.len() ==> move_from(
                    (#[trigger] out@[i]).spec_data(),
                ) < move_from((#[trigger] out@[j]).spec_data()),
            forall|d: u16|
                #[trigger] pawn_ep_ok(*board, d) && move_from(d) < from ==> exists|j: int|
                    base.len() <= j < out@.len() && out@[j].spec_data() == d,
        decreases 64 - from,
    {
        let ghost entry = out@;
        let hit = test_bit(pawns, from) && {
            let f_rank = from / 8;
            let f_file = from % 8;
            let rank_ok = if white {
                f_rank + 1 == ep_rank
            } else {
                ep_rank + 1 == f_rank
            };
            let file_ok = f_file + 1 == ep_file || ep_file + 1 == f_file;
            rank_ok && file_ok
        };
        if hit {
            let m = Move::from_parts(from, ep_square, EN_PASSANT);
            out.push(m);
            proof {
                assert(pawn_attacker_bit(board.side_to_move, ep_square as int, from as int));
                assert(pawn_ep_ok(*board, m.spec_data()));
                assert(out@[out@.len() - 1] == m);
                assert forall|d: u16|
                    #[trigger] pawn_ep_ok(*board, d) && move_from(d) == from implies exists|j: int|
                    base.len() <= j < out@.len() && out@[j].spec_data() == d by {
                    lemma_move_fields(d);
                    assert(d == m.spec_data());
                    assert(out@[out@.len() - 1].spec_data() == d);
                }
            }
        } else {
            proof {
                assert forall|d: u16|
                    #[trigger] pawn_ep_ok(*board, d) && move_from(d) == from implies exists|j: int|
                    base.len() <= j < out@.len() && out@[j].spec_data() == d by {
                    lemma_move_fields(d);
                    lemma_square_coords(from as int);
                    lemma_square_coords(ep_square as int);
                }
            }
        }
        proof {
            assert forall|d: u16| #[trigger] pawn_ep_ok(*board, d) && move_from(d) < from + 1
                implies exists|j: int|
                base.len() <= j < out@.len() && out@[j].spec_data() == d by {
                if move_from(d) < from {
                    let j = choose|j: int|
                        base.len() <= j < entry.len() && entry[j].spec_data() == d;
                    assert(out@[j].spec_data() == d);
                }
            }
        }
        from = from + 1;
    }
}

/// Appends all pseudo-legal pawn moves of the side to move: every single
/// push (promotions expanded in ascending flag order) in ascending source
/// order, then every double push in ascending source order, then every
/// en-passant capture in ascending source order.
fn generate_pawn_moves(board: &Board, out: &mut Vec<Move>)
    requires
        board.wf(),
    ensures
        final (out)@.len() >= old(out)@.len(),
        forall|j: int| 0 <= j < old(out)@.len() ==> final (out)@[j] == old(out)@[j],
        forall|j: int|
            old(out)@.len() <= j < final (out)@.len() ==> pawn_move_ok(
                *board,
                (#[trigger] final (out)@[j]).spec_data(),
            ),
        forall|d: u16|
            #[trigger] pawn_move_ok(*board, d) ==> exists|j: int|
                old(out)@.len() <= j < final (out)@.len() && final (out)@[j].spec_data() == d,
        forall|i: int, j: int|
            old(out)@.len() <= i < j < final (out)@.len() ==> #[trigger] final (out)@[i]
                != #[trigger] final (out)@[j],
        forall|i: int, j: int|
            #![trigger final (out)@[i], final (out)@[j]]
            old(out)@.len() <= i < j < final (out)@.len() ==> pawn_group(
                final (out)@[i].spec_data(),
            ) <= pawn_group(final (out)@[j].spec_data()),
        forall|i: int, j: int|
            #![trigger final (out)@[i], final (out)@[j]]
            old(out)@.len() <= i < j < final (out)@.len() && pawn_group(
                final (out)@[i].spec_data(),
            ) == pawn_group(final (out)@[j].spec_data()) ==> move_from(
                final (out)@[i].spec_data(),
            ) <= move_from(final (out)@[j].spec_data()),
        forall|i: int, j: int|
            #![trigger final (out)@[i], final (out)@[j]]
            old(out)@.len() <= i < j < final (out)@.len() && pawn_group(
                final (out)@[i].spec_data(),
            ) == pawn_group(final (out)@[j].spec_data()) && pawn_group(
                final (out)@[i].spec_data(),
            ) != 1 ==> move_from(final (out)@[i].spec_data()) < move_from(
                final (out)@[j].spec_data(),
            ),
        forall|i: int, j: int|
            #![trigger final (out)@[i], final (out)@[j]]
            old(out)@.len() <= i < j < final (out)@.len() && move_from(
                final (out)@[i].spec_data(),
            ) == move_from(final (out)@[j].spec_data()) && move_to(final (out)@[i].spec_data())
                == move_to(final (out)@[j].spec_data()) ==> move_flags(
                final (out)@[i].spec_data(),
            ) < move_flags(final (out)@[j].spec_data()),
{
    let all = board.occupied[0] | board.occupied[1];
    let ghost base = out@;
    let mut from: u8 = 0;
    while from < 64
        invariant
            board.wf(),
            from <= 64,
            all == all_occ(*board),
            out@.len() >= base.len(),
            forall|j: int| 0 <= j < base.len() ==> out@[j] == base[j],
            forall|j: int|
                base.len() <= j < out@.len() ==> pawn_single_push_ok(
                    *board,
                    (#[trigger] out@[j]).spec_data(),
                ) && move_from(out@[j].spec_data()) < from,
            forall|d: u16|
                #[trigger] pawn_single_push_ok(*board, d) && move_from(d) < from ==> exists|j: int|
                    base.len() <= j < out@.len() && out@[j].spec_data() == d,
            forall|i: int, j: int|
                #![trigger out@[i], out@[j]]
                base.len() <= i < j < out@.len() ==> move_from(out@[i].spec_data()) <= move_from(
                    out@[j].spec_data(),
                ),
            forall|i: int, j: int|
                #![trigger out@[i], out@[j]]
                base.len() <= i < j < out@.len() && move_from(out@[i].spec_data()) == move_from(
                    out@[j].spec_data(),
                ) ==> move_flags(out@[i].spec_data()) < move_flags(out@[j].spec_data()),
        decreases 64 - from,
    {
        let ghost entry = out@;
        generate_pawn_pushes(board, from, all, out);
        proof {
            assert forall|d: u16|
                #[trigger] pawn_single_push_ok(*board, d) && move_from(d) < from + 1 implies exists|
                j: int,
            |
                base.len() <= j < out@.len() && out@[j].spec_data() == d by {
                if move_from(d) < from {
                    let j = choose|j: int|
                        base.len() <= j < entry.len() && entry[j].spec_data() == d;
                    assert(out@[j].spec_data() == d);
                } else {
                    let j = choose|j: int|
                        entry.len() <= j < out@.len() && out@[j].spec_data() == d;
                    assert(out@[j].spec_data() == d);
                }
            }
        }
        from = from + 1;
    }
    let ghost singles = out@;
    generate_double_pawn_pushes(board, all, out);
    let ghost doubles = out@;
    generate_en_passant(board, out);
    proof {
        assert forall|i: int, j: int|
            base.len() <= i < j < out@.len() implies #[trigger] out@[i] != #[trigger] out@[j] by {
            if out@[i] == out@[j] {
                if j < singles.len() {
                } else if i >= doubles.len() {
                } else if singles.len() <= i && j < doubles.len() {
                } else if i < singles.len() && j < doubles.len() {
                    assert(pawn_single_push_ok(*board, out@[i].spec_data()));
                    assert(pawn_double_push_ok(*board, out@[j].spec_data()));
                } else if i < singles.len() {
                    assert(pawn_single_push_ok(*board, out@[i].spec_data()));
                    assert(pawn_ep_ok(*board, out@[j].spec_data()));
                } else {
                    assert(pawn_double_push_ok(*board, out@[i].spec_data()));
                    assert(pawn_ep_ok(*board, out@[j].spec_data()));
                }
            }
        }
    }
}

/// Appends one move per set square of `targets`, from the given source
/// square: quiet onto empty squares, capture onto occupied ones.
fn push_target_moves(board: &Board, from: u8, targets: u64, out: &mut Vec<Move>)
    requires
        board.wf(),
        from < 64,
    ensures
        final (out)@.len() >= old(out)@.len(),
        forall|j: int| 0 <= j < old(out)@.len() ==> final (out)@[j] == old(out)@[j],
        forall|j: int|
            old(out)@.len() <= j < final (out)@.len() ==> target_move_ok(
                *board,
                targets,
                (#[trigger] final (out)@[j]).spec_data(),
            ) && move_from(final (out)@[j].spec_data()) == from,
        forall|d: u16|
            #[trigger] target_move_ok(*board, targets, d) && move_from(d) == from ==> exists|j: int|
                old(out)@.len() <= j < final (out)@.len() && final (out)@[j].spec_data() == d,
        forall|i: int, j: int|
            old(out)@.len() <= i < j < final (out)@.len() ==> move_to(
                (#[trigger] final (out)@[i]).spec_data(),
            ) < move_to((#[trigger] final (out)@[j]).spec_data()),
{
    proof {
        lemma_wf_occ_structure(*board);
    }
    let ghost base = out@;
    let mut to: u8 = 0;
    while to < 64
        invariant
            board.wf(),
            from < 64,
            to <= 64,
            out@.len() >= base.len(),
            forall|j: int| 0 <= j < base.len() ==> out@[j] == base[j],
            forall|j: int|
                base.len() <= j < out@.len() ==> target_move_ok(
                    *board,
                    targets,
                    (#[trigger] out@[j]).spec_data(),
                ) && move_from(out@[j].spec_data()) == from && move_to(out@[j].spec_data())
                    < to,
            forall|i: int, j: int|
                base.len() <= i < j < out@.len() ==> move_to(
                    (#[trigger] out@[i]).spec_data(),
                ) < move_to((#[trigger] out@[j]).spec_data()),
            forall|d: u16|
                #[trigger] target_move_ok(*board, targets, d) && move_from(d) == from && move_to(d)
                    < to ==> exists|j: int|
                    base.len() <= j < out@.len() && out@[j].spec_data() == d,
        decreases 64 - to,
    {
        let ghost entry = out@;
        if test_bit(targets, to) {
            proof {
                lemma_wf_occ_structure(*board);
            }
            let is_capture = board.piece_table[to as usize].is_some();
            let flags = if is_capture {
                CAPTURE
            } else {
                QUIET
            };
            let m = Move::from_parts(from, to, flags);
            out.push(m);
            proof {
                assert(target_move_ok(*board, targets, m.spec_data()));
                assert(out@[out@.len() - 1] == m);
                assert forall|d: u16|
                    #[trigger] target_move_ok(*board, targets, d) && move_from(d) == from
                        && move_to(d) == to implies exists|j: int|
                    base.len() <= j < out@.len() && out@[j].spec_data() == d by {
                    lemma_move_fields(d);
                    assert(move_flags(d) == flags as u16);
                    assert(d == m.spec_data());
                    assert(out@[out@.len() - 1].spec_data() == d);
                }
            }
        } else {
            proof {
                assert forall|d: u16|
                    #[trigger] target_move_ok(*board, targets, d) && move_from(d) == from
                        && move_to(d) == to implies exists|j: int|
                    base.len() <= j < out@.len() && out@[j].spec_data() == d by {
                    lemma_move_fields(d);
                }
            }
        }
        proof {
            assert forall|d: u16|
                #[trigger] target_move_ok(*board, targets, d) && move_from(d) == from && move_to(d)
                    < to + 1 implies exists|j: int|
                base.len() <= j < out@.len() && out@[j].spec_data() == d by {
                if move_to(d) < to {
                    let j = choose|j: int|
                        base.len() <= j < entry.len() && entry[j].spec_data() == d;
                    assert(out@[j].spec_data() == d);
                }
            }
        }
        to = to + 1;
    }
}

/// Appends the castling moves available to the side to move: for each
/// granted right, the squares strictly between king and rook must be empty
/// and every square the king transits must be unattacked.
fn generate_castling(board: &Board, tables: &AttackTables, out: &mut Vec<Move>)
    requires
        board.wf(),
        tables.wf(),
    ensures
        final (out)@.len() >= old(out)@.len(),
        forall|j: int| 0 <= j < old(out)@.len() ==> final (out)@[j] == old(out)@[j],
        forall|j: int|
            old(out)@.len() <= j < final (out)@.len() ==> castle_move_ok(
                *board,
                (#[trigger] final (out)@[j]).spec_data(),
            ),
        forall|d: u16|
            #[trigger] castle_move_ok(*board, d) ==> exists|j: int|
                old(out)@.len() <= j < final (out)@.len() && final (out)@[j].spec_data() == d,
        forall|i: int, j: int|
            old(out)@.len() <= i < j < final (out)@.len() ==> move_flags(
                (#[trigger] final (out)@[i]).spec_data(),
            ) < move_flags((#[trigger] final (out)@[j]).spec_data()),
{
    let all = board.occupied[0] | board.occupied[1];
    let rights = board.state.castling_rights;
    let ghost base = out@;
    match board.side_to_move {
        Color::White => {
            let short_ok = rights & WHITE_SHORT != 0 && !test_bit(all, 5) && !test_bit(all, 6)
                && !board.index_in_check(4, Color::Black, tables) && !board.index_in_check(
                5,
                Color::Black,
                tables,
            ) && !board.index_in_check(6, Color::Black, tables);
            if short_ok {
                out.push(Move::from_parts(4, 6, SHORT_CASTLE));
            }
            let ghost after_short = out@;
            let long_ok = rights & WHITE_LONG != 0 && !test_bit(all, 1) && !test_bit(all, 2)
                && !test_bit(all, 3) && !board.index_in_check(2, Color::Black, tables)
                && !board.index_in_check(3, Color::Black, tables) && !board.index_in_check(
                4,
                Color::Black,
                tables,
            );
            if long_ok {
                out.push(Move::from_parts(4, 2, LONG_CASTLE));
            }
            proof {
                assert forall|d: u16| #[trigger] castle_move_ok(*board, d) implies exists|j: int|
                    base.len() <= j < out@.len() && out@[j].spec_data() == d by {
                    lemma_move_fields(d);
                    if move_flags(d) == SHORT_CASTLE as u16 {
                        assert(short_ok);
                        assert(d == encode_move(4, 6, SHORT_CASTLE as u16));
                        assert(out@[base.len() as int].spec_data() == d);
                    } else {
                        assert(long_ok);
                        assert(d == encode_move(4, 2, LONG_CASTLE as u16));
                        assert(out@[after_short.len() as int].spec_data() == d);
                    }
                }
            }
        },
        Color::Black => {
            let short_ok = rights & BLACK_SHORT != 0 && !test_bit(all, 61) && !test_bit(all, 62)
                && !board.index_in_check(60, Color::White, tables) && !board.index_in_check(
                61,
                Color::White,
                tables,
            ) && !board.index_in_check(62, Color::White, tables);
            if short_ok {
                out.push(Move::from_parts(60, 62, SHORT_CASTLE));
            }
            let ghost after_short = out@;
            let long_ok = rights & BLACK_LONG != 0 && !test_bit(all, 57) && !test_bit(all, 58)
                && !test_bit(all, 59) && !board.index_in_check(58, Color::White, tables)
                && !board.index_in_check(59, Color::White, tables) && !board.index_in_check(
                60,
                Color::White,
                tables,
            );
            if long_ok {
                out.push(Move::from_parts(60, 58, LONG_CASTLE));
            }
            proof {
                assert forall|d: u16| #[trigger] castle_move_ok(*board, d) implies exists|j: int|
                    base.len() <= j < out@.len() && out@[j].spec_data() == d by {
                    lemma_move_fields(d);
                    if move_flags(d) == SHORT_CASTLE as u16 {
                        assert(short_ok);
                        assert(d == encode_move(60, 62, SHORT_CASTLE as u16));
                        assert(out@[base.len() as int].spec_data() == d);
                    } else {
                        assert(long_ok);
                        assert(d == encode_move(60, 58, LONG_CASTLE as u16));
                        assert(out@[after_short.len() as int].spec_data() == d);
                    }
                }
            }
        },
    }
}

/// A well-formed position with White to move, the short-castle right
/// granted, f1 and g1 empty, and none of e1, f1, g1 attacked by Black has
/// the short castle e1g1 among its pseudo-legal moves — so every generated
/// move list contains it, by the generator's membership clause.
pub proof fn lemma_short_castle_available(b: Board)
    requires
        b.wf(),
        b.side_to_move == Color::White,
        b.state.castling_rights & WHITE_SHORT != 0,
        !bit_set(all_occ(b), 5),
        !bit_set(all_occ(b), 6),
        !attacks_square(b, 4, Color::Black),
        !attacks_square(b, 5, Color::Black),
        !attacks_square(b, 6, Color::Black),
    ensures
        is_pseudo_legal(b, encode_move(4, 6, SHORT_CASTLE as u16)),
{
    lemma_move_roundtrip(4, 6, SHORT_CASTLE as u16);
    assert(castle_move_ok(b, encode_move(4, 6, SHORT_CASTLE as u16)));
}

/// When g1 is attacked by Black, the short castle e1g1 is not pseudo-legal
/// for White — so no generated move list contains it.
pub proof fn lemma_short_castle_blocked(b: Board)
    requires
        b.wf(),
        b.side_to_move == Color::White,
        attacks_square(b, 6, Color::Black),
    ensures
        !is_pseudo_legal(b, encode_move(4, 6, SHORT_CASTLE as u16)),
{
    lemma_move_roundtrip(4, 6, SHORT_CASTLE as u16);
}

/// Generates every pseudo-legal move of the side to move, in a fixed
/// order: pawns, knights, bishops and queens, rooks and queens, king,
/// castling. The output holds a move exactly when it is pseudo-legal, each
/// exactly once, in the order `generated_moves_ok` spells out.
pub fn generate_moves(board: &Board, tables: &AttackTables) -> (out: Vec<Move>)
    requires
        board.wf(),
        tables.wf(),
    ensures
        generated_moves_ok(*board, out@),
{
    let mut out: Vec<Move> = Vec::with_capacity(MAX_PSEUDO_LEGAL_MOVES);
    let c = board.side_to_move.index();
    let friendly = board.occupied[c];
    let enemy = board.occupied[1 - c];
    proof {
        let o0 = board.occupied@[0];
        let o1 = board.occupied@[1];
        assert(o0 | o1 == o1 | o0) by (bit_vector);
    }

    generate_pawn_moves(board, &mut out);
    let ghost after_pawn = out@;

    let knights = board.pieces[2 + c];
    let mut from: u8 = 0;
    while from < 64
        invariant
            board.wf(),
            tables.wf(),
            from <= 64,
            c == side_idx(*board),
            0 <= c < 2,
            friendly == friendly_occ(*board),
            friendly | enemy == all_occ(*board),
            knights == board.pieces@[2 + c as int],
            out@.len() >= after_pawn.len(),
            forall|j: int| 0 <= j < after_pawn.len() ==> out@[j] == after_pawn[j],
            forall|j: int|
                after_pawn.len() <= j < out@.len() ==> knight_move_ok(
                    *board,
                    (#[trigger] out@[j]).spec_data(),
                ) && move_from(out@[j].spec_data()) < from,
            forall|d: u16|
                #[trigger] knight_move_ok(*board, d) && move_from(d) < from ==> exists|j: int|
                    after_pawn.len() <= j < out@.len() && out@[j].spec_data() == d,
            forall|i: int, j: int|
                #![trigger out@[i], out@[j]]
                after_pawn.len() <= i < j < out@.len() ==> (move_from(out@[i].spec_data())
                    < move_from(out@[j].spec_data()) || (move_from(out@[i].spec_data())
                    == move_from(out@[j].spec_data()) && move_to(out@[i].spec_data()) < move_to(
                    out@[j].spec_data(),
                ))),
        decreases 64 - from,
    {
        let ghost entry = out@;
        if test_bit(knights, from) {
            let att = get_knight_moves_bb(tables, from, friendly);
            push_target_moves(board, from, att, &mut out);
        }
        proof {
            assert forall|d: u16| #[trigger] knight_move_ok(*board, d) && move_from(d) < from + 1
                implies exists|j: int|
                after_pawn.len() <= j < out@.len() && out@[j].spec_data() == d by {
                if move_from(d) < from {
                    let j = choose|j: int|
                        after_pawn.len() <= j < entry.len() && entry[j].spec_data() == d;
                    assert(out@[j].spec_data() == d);
                } else {
                    let j = choose|j: int|
                        entry.len() <= j < out@.len() && out@[j].spec_data() == d;
                    assert(out@[j].spec_data() == d);
                }
            }
        }
        from = from + 1;
    }
    let ghost after_knight = out@;

    let bishops = board.pieces[4 + c] | board.pieces[8 + c];
    let mut from: u8 = 0;
    while from < 64
        invariant
            board.wf(),
            tables.wf(),
            from <= 64,
            c == side_idx(*board),
            0 <= c < 2,
            friendly == friendly_occ(*board),
            friendly | enemy == all_occ(*board),
            bishops == (board.pieces@[4 + c as int] | board.pieces@[8 + c as int]),
            after_pawn.len() <= after_knight.len() <= out@.len(),
            forall|j: int| 0 <= j < after_knight.len() ==> out@[j] == after_knight[j],
            forall|j: int|
                after_knight.len() <= j < out@.len() ==> bishop_slider_move_ok(
                    *board,
                    (#[trigger] out@[j]).spec_data(),
                ) && move_from(out@[j].spec_data()) < from,
            forall|d: u16|
                #[trigger] bishop_slider_move_ok(*board, d) && move_from(d) < from ==> exists|
                    j: int,
                |
                    after_knight.len() <= j < out@.len() && out@[j].spec_data() == d,
            forall|i: int, j: int|
                #![trigger out@[i], out@[j]]
                after_knight.len() <= i < j < out@.len() ==> (move_from(out@[i].spec_data())
                    < move_from(out@[j].spec_data()) || (move_from(out@[i].spec_data())
                    == move_from(out@[j].spec_data()) && move_to(out@[i].spec_data()) < move_to(
                    out@[j].spec_data(),
                ))),
        decreases 64 - from,
    {
        let ghost entry = out@;
        if test_bit(bishops, from) {
            let att = get_bishop_moves_bb(tables, from, friendly, enemy) & !friendly;
            push_target_moves(board, from, att, &mut out);
        }
        proof {
            assert forall|d: u16|
                #[trigger] bishop_slider_move_ok(*board, d) && move_from(d) < from + 1 implies
                exists|j: int|
                after_knight.len() <= j < out@.len() && out@[j].spec_data() == d by {
                if move_from(d) < from {
                    let j = choose|j: int|
                        after_knight.len() <= j < entry.len() && entry[j].spec_data() == d;
                    assert(out@[j].spec_data() == d);
                } else {
                    let j = choose|j: int|
                        entry.len() <= j < out@.len() && out@[j].spec_data() == d;
                    assert(out@[j].spec_data() == d);
                }
            }
        }
        from = from + 1;
    }
    let ghost after_bishop = out@;

    let rooks = board.pieces[6 + c] | board.pieces[8 + c];
    let mut from: u8 = 0;
    while from < 64
        invariant
            board.wf(),
            tables.wf(),
            from <= 64,
            c == side_idx(*board),
            0 <= c < 2,
            friendly == friendly_occ(*board),
            friendly | enemy == all_occ(*board),
            rooks == (board.pieces@[6 + c as int] | board.pieces@[8 + c as int]),
            after_bishop.len() <= out@.len(),
            forall|j: int| 0 <= j < after_bishop.len() ==> out@[j] == after_bishop[j],
            forall|j: int|
                after_bishop.len() <= j < out@.len() ==> rook_slider_move_ok(
                    *board,
                    (#[trigger] out@[j]).spec_data(),
                ) && move_from(out@[j].spec_data()) < from,
            forall|d: u16|
                #[trigger] rook_slider_move_ok(*board, d) && move_from(d) < from ==> exists|j: int|
                    after_bishop.len() <= j < out@.len() && out@[j].spec_data() == d,
            forall|i: int, j: int|
                #![trigger out@[i], out@[j]]
                after_bishop.len() <= i < j < out@.len() ==> (move_from(out@[i].spec_data())
                    < move_from(out@[j].spec_data()) || (move_from(out@[i].spec_data())
                    == move_from(out@[j].spec_data()) && move_to(out@[i].spec_data()) < move_to(
                    out@[j].spec_data(),
                ))),
        decreases 64 - from,
    {
        let ghost entry = out@;
        if test_bit(rooks, from) {
            let att = get_rook_moves_bb(tables, from, friendly, enemy) & !friendly;
            push_target_moves(board, from, att, &mut out);
        }
        proof {
            assert forall|d: u16|
                #[trigger] rook_slider_move_ok(*board, d) && move_from(d) < from + 1 implies exists|
                    j: int,
                |
                    after_bishop.len() <= j < out@.len() && out@[j].spec_data() == d by {
                if move_from(d) < from {
                    let j = choose|j: int|
                        after_bishop.len() <= j < entry.len() && entry[j].spec_data() == d;
                    assert(out@[j].spec_data() == d);
                } else {
                    let j = choose|j: int|
                        entry.len() <= j < out@.len() && out@[j].spec_data() == d;
                    assert(out@[j].spec_data() == d);
                }
            }
        }
        from = from + 1;
    }
    let ghost after_rook = out@;

    let king = board.pieces[10 + c];
    let mut from: u8 = 0;
    while from < 64
        invariant
            board.wf(),
            tables.wf(),
            from <= 64,
            c == side_idx(*board),
            0 <= c < 2,
            friendly == friendly_occ(*board),
            friendly | enemy == all_occ(*board),
            king == board.pieces@[10 + c as int],
            after_rook.len() <= out@.len(),
            forall|j: int| 0 <= j < after_rook.len() ==> out@[j] == after_rook[j],
            forall|j: int|
                after_rook.len() <= j < out@.len() ==> king_move_ok(
                    *board,
                    (#[trigger] out@[j]).spec_data(),
                ) && move_from(out@[j].spec_data()) < from,
            forall|d: u16|
                #[trigger] king_move_ok(*board, d) && move_from(d) < from ==> exists|j: int|
                    after_rook.len() <= j < out@.len() && out@[j].spec_data() == d,
            forall|i: int, j: int|
                #![trigger out@[i], out@[j]]
                after_rook.len() <= i < j < out@.len() ==> (move_from(out@[i].spec_data())
                    < move_from(out@[j].spec_data()) || (move_from(out@[i].spec_data())
                    == move_from(out@[j].spec_data()) && move_to(out@[i].spec_data()) < move_to(
                    out@[j].spec_data(),
                ))),
        decreases 64 - from,
    {
        let ghost entry = out@;
        if test_bit(king, from) {
            let att = get_king_moves_bb(tables, from, friendly);
            push_target_moves(board, from, att, &mut out);
        }
        proof {
            assert forall|d: u16| #[trigger] king_move_ok(*board, d) && move_from(d) < from + 1
                implies exists|j: int|
                after_rook.len() <= j < out@.len() && out@[j].spec_data() == d by {
                if move_from(d) < from {
                    let j = choose|j: int|
                        after_rook.len() <= j < entry.len() && entry[j].spec_data() == d;
                    assert(out@[j].spec_data() == d);
                } else {
                    let j = choose|j: int|
                        entry.len() <= j < out@.len() && out@[j].spec_data() == d;
                    assert(out@[j].spec_data() == d);
                }
            }
        }
        from = from + 1;
    }
    let ghost after_king = out@;

    generate_castling(board, tables, &mut out);

    proof {
        let b = *board;
        let l1 = after_pawn.len() as int;
        let l2 = after_knight.len() as int;
        let l3 = after_bishop.len() as int;
        let l4 = after_rook.len() as int;
        let l5 = after_king.len() as int;
        // every element keeps its phase-entry value
        assert forall|j: int| 0 <= j < l5 implies out@[j] == after_king[j] by {}
        assert forall|k: int| 0 <= k < out@.len() implies {
            &&& (k < l1 ==> pawn_move_ok(b, (#[trigger] out@[k]).spec_data()))
            &&& (l1 <= k < l2 ==> knight_move_ok(b, out@[k].spec_data()))
            &&& (l2 <= k < l3 ==> bishop_slider_move_ok(b, out@[k].spec_data()))
            &&& (l3 <= k < l4 ==> rook_slider_move_ok(b, out@[k].spec_data()))
            &&& (l4 <= k < l5 ==> king_move_ok(b, out@[k].spec_data()))
            &&& (l5 <= k ==> castle_move_ok(b, out@[k].spec_data()))
        } by {
            if k < l1 {
                assert(out@[k] == after_pawn[k]);
            } else if k < l2 {
                assert(out@[k] == after_knight[k]);
            } else if k < l3 {
                assert(out@[k] == after_bishop[k]);
            } else if k < l4 {
                assert(out@[k] == after_rook[k]);
            } else if k < l5 {
                assert(out@[k] == after_king[k]);
            }
        }
        // the phase of each element equals its segment
        assert forall|k: int| 0 <= k < out@.len() implies {
            &&& (k < l1 ==> move_phase(b, (#[trigger] out@[k]).spec_data()) == 1)
            &&& (l1 <= k < l2 ==> move_phase(b, out@[k].spec_data()) == 2)
            &&& (l2 <= k < l3 ==> move_phase(b, out@[k].spec_data()) == 3)
            &&& (l3 <= k < l4 ==> move_phase(b, out@[k].spec_data()) == 4)
            &&& (l4 <= k < l5 ==> move_phase(b, out@[k].spec_data()) == 5)
            &&& (l5 <= k ==> move_phase(b, out@[k].spec_data()) == 6)
        } by {
            lemma_move_kinds_exclusive(b, out@[k].spec_data());
        }
        // membership
        assert forall|m: Move|
            #[trigger] out@.contains(m) <==> is_pseudo_legal(b, m.spec_data()) by {
            if out@.contains(m) {
                let j = choose|j: int| 0 <= j < out@.len() && out@[j] == m;
                assert(is_pseudo_legal(b, out@[j].spec_data()));
            }
            if is_pseudo_legal(b, m.spec_data()) {
                let d = m.spec_data();
                if pawn_move_ok(b, d) {
                    let j = choose|j: int| 0 <= j < l1 && after_pawn[j].spec_data() == d;
                    assert(out@[j] == after_pawn[j]);
                    lemma_move_data_eq(out@[j], m);
                } else if knight_move_ok(b, d) {
                    let j = choose|j: int| l1 <= j < l2 && after_knight[j].spec_data() == d;
                    assert(out@[j] == after_knight[j]);
                    lemma_move_data_eq(out@[j], m);
                } else if bishop_slider_move_ok(b, d) {
                    let j = choose|j: int| l2 <= j < l3 && after_bishop[j].spec_data() == d;
                    assert(out@[j] == after_bishop[j]);
                    lemma_move_data_eq(out@[j], m);
                } else if rook_slider_move_ok(b, d) {
                    let j = choose|j: int| l3 <= j < l4 && after_rook[j].spec_data() == d;
                    assert(out@[j] == after_rook[j]);
                    lemma_move_data_eq(out@[j], m);
                } else if king_move_ok(b, d) {
                    let j = choose|j: int| l4 <= j < l5 && after_king[j].spec_data() == d;
                    assert(out@[j] == after_king[j]);
                    lemma_move_data_eq(out@[j], m);
                } else {
                    let j = choose|j: int|
                        l5 <= j < out@.len() && out@[j].spec_data() == d;
                    lemma_move_data_eq(out@[j], m);
                }
            }
        }
        // no duplicates: within a segment by its ordering, across segments by
        // phase exclusivity
        assert forall|i: int, j: int| 0 <= i < j < out@.len() implies #[trigger] out@[i]
            != #[trigger] out@[j] by {
            if out@[i] == out@[j] {
                lemma_move_kinds_exclusive(b, out@[i].spec_data());
                if j < l1 {
                    assert(out@[i] == after_pawn[i] && out@[j] == after_pawn[j]);
                } else if l1 <= i && j < l2 {
                    assert(out@[i] == after_knight[i] && out@[j] == after_knight[j]);
                } else if l2 <= i && j < l3 {
                    assert(out@[i] == after_bishop[i] && out@[j] == after_bishop[j]);
                } else if l3 <= i && j < l4 {
                    assert(out@[i] == after_rook[i] && out@[j] == after_rook[j]);
                } else if l4 <= i && j < l5 {
                    assert(out@[i] == after_king[i] && out@[j] == after_king[j]);
                }
            }
        }
        // phase order and the per-phase orderings
        assert forall|i: int, j: int|
            #![trigger out@[i], out@[j]]
            0 <= i < j < out@.len() implies move_phase(b, out@[i].spec_data()) <= move_phase(
            b,
            out@[j].spec_data(),
        ) by {}
        assert forall|i: int, j: int|
            #![trigger out@[i], out@[j]]
            0 <= i < j < out@.len() && move_phase(b, out@[i].spec_data()) == move_phase(
            b,
            out@[j].spec_data(),
        ) && 2 <= move_phase(b, out@[i].spec_data()) < 6 implies (move_from(out@[i].spec_data())
            < move_from(out@[j].spec_data()) || (move_from(out@[i].spec_data()) == move_from(
            out@[j].spec_data(),
        ) && move_to(out@[i].spec_data()) < move_to(out@[j].spec_data()))) by {
            if l1 <= i && j < l2 {
                assert(out@[i] == after_knight[i] && out@[j] == after_knight[j]);
            } else if l2 <= i && j < l3 {
                assert(out@[i] == after_bishop[i] && out@[j] == after_bishop[j]);
            } else if l3 <= i && j < l4 {
                assert(out@[i] == after_rook[i] && out@[j] == after_rook[j]);
            } else if l4 <= i && j < l5 {
                assert(out@[i] == after_king[i] && out@[j] == after_king[j]);
            }
        }
        assert forall|i: int, j: int|
            #![trigger out@[i], out@[j]]
            0 <= i < j < out@.len() && move_phase(b, out@[i].spec_data()) == 6 && move_phase(
            b,
            out@[j].spec_data(),
        ) == 6 implies move_flags(out@[i].spec_data()) < move_flags(out@[j].spec_data()) by {}
        assert forall|i: int, j: int|
            #![trigger out@[i], out@[j]]
            0 <= i < j < out@.len() && move_phase(b, out@[i].spec_data()) == 1 && move_phase(
            b,
            out@[j].spec_data(),
        ) == 1 implies {
            let di = out@[i].spec_data();
            let dj = out@[j].spec_data();
            &&& pawn_group(di) <= pawn_group(dj)
            &&& (pawn_group(di) == pawn_group(dj) ==> move_from(di) <= move_from(dj))
            &&& (pawn_group(di) == pawn_group(dj) && pawn_group(di) != 1 ==> move_from(di)
                < move_from(dj))
            &&& (move_from(di) == move_from(dj) && move_to(di) == move_to(dj) ==> move_flags(di)
                < move_flags(dj))
        } by {
            assert(out@[i] == after_pawn[i] && out@[j] == after_pawn[j]);
        }
    }
    out
}

} // verus!
