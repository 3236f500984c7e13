//! The board representation: twelve piece bitboards, two aggregate
//! occupancy bitboards, a per-square piece-kind cache, the side to move,
//! the move counters and the mutable state record.

use vstd::prelude::*;

use crate::bits::BitFunctions;
use crate::bits::bit_set;
use crate::bits::file_of;
use crate::bits::lemma_bit_and;
use crate::bits::lemma_bit_or;
use crate::bits::lemma_bit_zero;
use crate::bits::lemma_bits_eq;
use crate::bits::lemma_coords_square;
use crate::bits::lemma_no_bits_zero;
use crate::bits::lemma_square_coords;
use crate::bits::rank_of;
use crate::bits::square_at;
use crate::bits::test_bit;
use crate::magic::AttackTables;
use crate::moves::Move;
use crate::magic::bishop_attacks;
use crate::magic::bishop_mask;
use crate::magic::get_bishop_moves_bb;
use crate::magic::get_king_moves_bb;
use crate::magic::get_knight_moves_bb;
use crate::magic::get_rook_moves_bb;
use crate::magic::king_attacks;
use crate::magic::knight_attacks;
use crate::magic::rook_attacks;
use crate::magic::rook_mask;
use crate::state::color_index;
use crate::hash::board_hash;
use crate::hash::bb_keys_hash;
use crate::hash::calculate_hash;
use crate::hash::pieces_hash;
use crate::state::Color;
use crate::state::ColoredPiece;
use crate::state::GenericPiece;
use crate::state::generic_of_index;
use crate::state::piece_index;

verus! {

/// The mutable part of a board: everything a move application would have to
/// save to be able to roll back.
#[derive(Clone, Debug)]
pub struct BoardState {
    pub halfmove_clock: u16,
    pub en_passant: Option<u8>,
    pub castling_rights: u8,
    pub captured_piece: Option<GenericPiece>,
    pub hash: u64,
}

/// A chess position. `pieces` holds one bitboard per colored piece, indexed
/// by the interleaved piece index; `occupied` holds one aggregate bitboard
/// per color; `piece_table` caches the piece kind standing on each square.
#[derive(Clone, Debug)]
pub struct Board {
    pub pieces: Vec<u64>,
    pub occupied: Vec<u64>,
    pub piece_table: Vec<Option<GenericPiece>>,
    pub side_to_move: Color,
    pub fullmove_clock: u16,
    pub state: BoardState,
    pub past_states: Vec<BoardState>,
}

/// Union of color `c`'s bitboards among the first `n` of the 12 piece
/// bitboards.
pub open spec fn occ_upto(pieces: Seq<u64>, c: int, n: int) -> u64
    decreases n,
{
    if n <= 0 {
        0
    } else {
        occ_upto(pieces, c, n - 1) | (if (n - 1) % 2 == c {
            pieces[n - 1]
        } else {
            0
        })
    }
}

/// The aggregate occupancy of color `c`: the union of its six piece
/// bitboards.
pub open spec fn occ_of(pieces: Seq<u64>, c: int) -> u64 {
    occ_upto(pieces, c, 12)
}

impl Board {
    /// The three vectors have their fixed lengths.
    pub open spec fn sizes_ok(self) -> bool {
        self.pieces.len() == 12 && self.occupied.len() == 2 && self.piece_table.len() == 64
    }

    /// No square is held by two piece bitboards at once.
    pub open spec fn unique_placement(self) -> bool {
        forall|p1: int, p2: int, s: int|
            0 <= p1 < 12 && 0 <= p2 < 12 && #[trigger] bit_set(self.pieces@[p1], s)
                && #[trigger] bit_set(self.pieces@[p2], s) ==> p1 == p2
    }

    /// Each color's stored aggregate occupancy equals the union of its six
    /// piece bitboards.
    pub open spec fn occupied_ok(self) -> bool {
        self.occupied@[0] == occ_of(self.pieces@, 0) && self.occupied@[1] == occ_of(
            self.pieces@,
            1,
        )
    }

    /// The per-square cache holds exactly the piece kind standing on each
    /// square, or `None` on an empty square.
    pub open spec fn piece_table_ok(self) -> bool {
        (forall|p: int, s: int|
            0 <= p < 12 && 0 <= s < 64 && #[trigger] bit_set(self.pieces@[p], s)
                ==> self.piece_table@[s] == Some(generic_of_index(p))) && (forall|s: int|
            0 <= s < 64 && (#[trigger] self.piece_table@[s]) is Some ==> exists|p: int|
                0 <= p < 12 && #[trigger] bit_set(self.pieces@[p], s) && self.piece_table@[s]
                    == Some(generic_of_index(p)))
    }

    /// The en-passant target, when present, is a square index, and the
    /// castling mask uses only its four defined bits.
    pub open spec fn state_ok(self) -> bool {
        (match self.state.en_passant {
            Some(sq) => sq < 64,
            None => true,
        }) && self.state.castling_rights & 0xF0 == 0
    }

    /// The stored hash equals the pure recomputation over the placement,
    /// side, castling rights and en-passant file.
    pub open spec fn hash_ok(self) -> bool {
        self.state.hash == board_hash(
            self.pieces@,
            self.side_to_move,
            self.state.castling_rights,
            self.state.en_passant,
        )
    }

    /// Every invariant a board must satisfy whenever it is externally
    /// observable.
    pub open spec fn wf(self) -> bool {
        self.sizes_ok() && self.unique_placement() && self.occupied_ok() && self.piece_table_ok()
            && self.state_ok() && self.hash_ok()
    }

    /// A board with no pieces, White to move, no castling rights and no
    /// en-passant target.
    pub fn empty() -> (r: Self)
        ensures
            r.wf(),
            r.pieces@ == Seq::new(12, |i: int| 0u64),
            r.occupied@ == Seq::new(2, |i: int| 0u64),
            r.piece_table@ == Seq::new(64, |i: int| None::<GenericPiece>),
            r.side_to_move == Color::White,
            r.fullmove_clock == 1,
            r.state.halfmove_clock == 0,
            r.state.en_passant is None,
            r.state.castling_rights == 0,
            r.state.captured_piece is None,
            r.state.hash == 0,
            r.past_states@.len() == 0,
    {
        let mut pieces: Vec<u64> = Vec::new();
        let mut i: usize = 0;
        while i < 12
            invariant
                i <= 12,
                pieces@ == Seq::new(i as nat, |k: int| 0u64),
            decreases 12 - i,
        {
            pieces.push(0);
            i = i + 1;
            proof {
                assert(pieces@ =~= Seq::new(i as nat, |k: int| 0u64));
            }
        }
        let mut occupied: Vec<u64> = Vec::new();
        occupied.push(0);
        occupied.push(0);
        let mut piece_table: Vec<Option<GenericPiece>> = Vec::new();
        let mut j: usize = 0;
        while j < 64
            invariant
                j <= 64,
                piece_table@ == Seq::new(j as nat, |k: int| None::<GenericPiece>),
            decreases 64 - j,
        {
            piece_table.push(None);
            j = j + 1;
            proof {
                assert(piece_table@ =~= Seq::new(j as nat, |k: int| None::<GenericPiece>));
            }
        }
        let board = Self {
            pieces,
            occupied,
            piece_table,
            side_to_move: Color::White,
            fullmove_clock: 1,
            state: BoardState {
                halfmove_clock: 0,
                en_passant: None,
                castling_rights: 0,
                captured_piece: None,
                hash: 0,
            },
            past_states: Vec::new(),
        };
        proof {
            assert(board.occupied@ =~= Seq::new(2, |i: int| 0u64));
            lemma_bit_zero(0u64);
            lemma_occ_upto_zero(board.pieces@, 0, 12);
            lemma_occ_upto_zero(board.pieces@, 1, 12);
            lemma_pieces_hash_zero(board.pieces@, 12);
            assert(0u8 & 0xF0u8 == 0u8) by (bit_vector);
            assert((0u8 & 1u8 == 0) && (0u8 & 2u8 == 0) && (0u8 & 4u8 == 0) && (0u8 & 8u8 == 0))
                by (bit_vector);
            assert(0u64 ^ 0u64 == 0u64) by (bit_vector);
        }
        board
    }

    /// Rebuilds both aggregate occupancy bitboards from the twelve piece
    /// bitboards; no other field changes.
    pub fn update_occupied(&mut self)
        requires
            old(self).pieces.len() == 12,
            old(self).occupied.len() == 2,
        ensures
            final (self).occupied.len() == 2,
            final (self).occupied@[0] == occ_of(final (self).pieces@, 0),
            final (self).occupied@[1] == occ_of(final (self).pieces@, 1),
            *final (self) == (Board { occupied: final (self).occupied, ..*old(self) }),
    {
        let mut white: u64 = 0;
        let mut black: u64 = 0;
        let mut i: usize = 0;
        while i < 12
            invariant
                i <= 12,
                self.pieces.len() == 12,
                white == occ_upto(self.pieces@, 0, i as int),
                black == occ_upto(self.pieces@, 1, i as int),
            decreases 12 - i,
        {
            if i % 2 == 0 {
                white = white | self.pieces[i];
                proof {
                    assert(black | 0u64 == black) by (bit_vector);
                }
            } else {
                black = black | self.pieces[i];
                proof {
                    assert(white | 0u64 == white) by (bit_vector);
                }
            }
            i = i + 1;
        }
        self.occupied.set(0, white);
        self.occupied.set(1, black);
    }

    /// Rebuilds the per-square piece cache from the twelve piece bitboards;
    /// no other field changes. The bitboards must not overlap.
    #[verifier::rlimit(30)]
    pub fn update_piece_table(&mut self)
        requires
            old(self).pieces.len() == 12,
            old(self).piece_table.len() == 64,
            old(self).unique_placement(),
        ensures
            final (self).piece_table.len() == 64,
            final (self).piece_table_ok(),
            *final (self) == (Board { piece_table: final (self).piece_table, ..*old(self) }),
    {
        let mut s: usize = 0;
        while s < 64
            invariant
                s <= 64,
                self.piece_table.len() == 64,
                self.pieces.len() == 12,
                forall|k: int| 0 <= k < s ==> #[trigger] self.piece_table@[k] is None,
                *self == (Board { piece_table: self.piece_table, ..*old(self) }),
            decreases 64 - s,
        {
            self.piece_table.set(s, None);
            s = s + 1;
        }
        let mut p: usize = 0;
        while p < 12
            invariant
                p <= 12,
                self.piece_table.len() == 64,
                self.pieces.len() == 12,
                self.unique_placement(),
                *self == (Board { piece_table: self.piece_table, ..*old(self) }),
                forall|p0: int, s0: int|
                    0 <= p0 < p && 0 <= s0 < 64 && #[trigger] bit_set(self.pieces@[p0], s0)
                        ==> self.piece_table@[s0] == Some(generic_of_index(p0)),
                forall|s0: int|
                    0 <= s0 < 64 && (#[trigger] self.piece_table@[s0]) is Some ==> exists|p0: int|
                        0 <= p0 < p && #[trigger] bit_set(self.pieces@[p0], s0)
                            && self.piece_table@[s0] == Some(generic_of_index(p0)),
            decreases 12 - p,
        {
            let piece = match ColoredPiece::from_index(p) {
                Some(cp) => cp,
                None => ColoredPiece::WhitePawn,
            };
            let generic_piece = piece.generic();
            proof {
                assert(piece_index(crate::state::piece_of_index(p as int)) == p as int);
            }
            let bb = self.pieces[p];
            let mut s: usize = 0;
            while s < 64
                invariant
                    s <= 64,
                    p < 12,
                    self.piece_table.len() == 64,
                    self.pieces.len() == 12,
                    self.unique_placement(),
                    bb == self.pieces@[p as int],
                    generic_piece == generic_of_index(p as int),
                    *self == (Board { piece_table: self.piece_table, ..*old(self) }),
                    forall|p0: int, s0: int|
                        0 <= p0 < p && 0 <= s0 < 64 && #[trigger] bit_set(self.pieces@[p0], s0)
                            ==> self.piece_table@[s0] == Some(generic_of_index(p0)),
                    forall|s0: int|
                        0 <= s0 < s && #[trigger] bit_set(self.pieces@[p as int], s0)
                            ==> self.piece_table@[s0] == Some(generic_of_index(p as int)),
                    forall|s0: int|
                        0 <= s0 < 64 && (#[trigger] self.piece_table@[s0]) is Some ==> exists|
                            p0: int,
                        |
                            (0 <= p0 < p || (p0 == p && s0 < s)) && #[trigger] bit_set(
                                self.pieces@[p0],
                                s0,
                            ) && self.piece_table@[s0] == Some(generic_of_index(p0)),
                decreases 64 - s,
            {
                let ghost pre = self.piece_table@;
                if test_bit(bb, s as u8) {
                    self.piece_table.set(s, Some(generic_piece));
                }
                proof {
                    assert forall|s0: int|
                        0 <= s0 < 64 && (#[trigger] self.piece_table@[s0]) is Some implies exists|
                        p0: int,
                    |
                        (0 <= p0 < p || (p0 == p && s0 < s + 1)) && #[trigger] bit_set(
                            self.pieces@[p0],
                            s0,
                        ) && self.piece_table@[s0] == Some(generic_of_index(p0)) by {
                        if s0 == s && bit_set(self.pieces@[p as int], s0) {
                            let p0 = p as int;
                            assert((p0 == p && s0 < s + 1) && bit_set(self.pieces@[p0], s0)
                                && self.piece_table@[s0] == Some(generic_of_index(p0)));
                        } else {
                            assert(self.piece_table@[s0] == pre[s0]);
                            let p0 = choose|p0: int|
                                (0 <= p0 < p || (p0 == p && s0 < s)) && #[trigger] bit_set(
                                    self.pieces@[p0],
                                    s0,
                                ) && pre[s0] == Some(generic_of_index(p0));
                            assert(bit_set(self.pieces@[p0], s0) && self.piece_table@[s0] == Some(
                                generic_of_index(p0),
                            ));
                        }
                    }
                }
                s = s + 1;
            }
            p = p + 1;
        }
    }

    /// Recomputes and stores the board hash from scratch; no other field
    /// changes.
    pub fn recalculate_hash(&mut self)
        requires
            old(self).pieces.len() == 12,
        ensures
            final (self).hash_ok(),
            final (self).state.hash == board_hash(
                old(self).pieces@,
                old(self).side_to_move,
                old(self).state.castling_rights,
                old(self).state.en_passant,
            ),
            *final (self) == (Board {
                state: BoardState { hash: final (self).state.hash, ..old(self).state },
                ..*old(self)
            }),
    {
        let hash = calculate_hash(self);
        self.state.hash = hash;
    }
}

/// The union of all-zero bitboards is zero.
proof fn lemma_occ_upto_zero(pieces: Seq<u64>, c: int, n: int)
    requires
        forall|k: int| 0 <= k < n ==> pieces[k] == 0u64,
    ensures
        occ_upto(pieces, c, n) == 0,
    decreases n,
{
    if n > 0 {
        lemma_occ_upto_zero(pieces, c, n - 1);
        assert(0u64 | 0u64 == 0u64) by (bit_vector);
    }
}

/// The piece-key hash of all-zero bitboards is zero.
proof fn lemma_pieces_hash_zero(pieces: Seq<u64>, p: int)
    requires
        forall|k: int| 0 <= k < p ==> pieces[k] == 0u64,
    ensures
        pieces_hash(pieces, p) == 0,
    decreases p,
{
    if p > 0 {
        lemma_pieces_hash_zero(pieces, p - 1);
        lemma_bb_keys_hash_zero(p - 1, 64);
        assert(0u64 ^ 0u64 == 0u64) by (bit_vector);
    }
}

/// The piece-key hash of an empty bitboard is zero.
proof fn lemma_bb_keys_hash_zero(p: int, n: int)
    ensures
        bb_keys_hash(0u64, p, n) == 0,
    decreases n,
{
    if n > 0 {
        lemma_bb_keys_hash_zero(p, n - 1);
        lemma_bit_zero(0u64);
        assert(0u64 ^ 0u64 == 0u64) by (bit_vector);
    }
}


/// The squares from which a pawn of color `by` would attack square `sq`:
/// the two diagonally-behind squares relative to the attacking color.
pub open spec fn pawn_attacker_bit(by: Color, sq: int, i: int) -> bool {
    0 <= i < 64 && rank_of(i) == rank_of(sq) + (if by == Color::White {
        -1int
    } else {
        1int
    }) && (file_of(i) == file_of(sq) - 1 || file_of(i) == file_of(sq) + 1)
}

/// Whether color `by` attacks square `sq` on board `b`: a rook or queen on
/// a magic rook ray, a bishop or queen on a magic bishop ray, a knight or
/// king a fixed offset away, or a pawn a capture step behind. En passant is
/// not modeled as an attack.
pub open spec fn attacks_square(b: Board, sq: int, by: Color) -> bool {
    let c = color_index(by);
    let all = b.occupied@[0] | b.occupied@[1];
    ||| rook_attacks(sq, all & rook_mask(sq)) & (b.pieces@[6 + c] | b.pieces@[8 + c]) != 0
    ||| bishop_attacks(sq, all & bishop_mask(sq)) & (b.pieces@[4 + c] | b.pieces@[8 + c]) != 0
    ||| knight_attacks(sq) & b.pieces@[2 + c] != 0
    ||| king_attacks(sq) & b.pieces@[10 + c] != 0
    ||| (exists|i: int| #[trigger] pawn_attacker_bit(by, sq, i) && bit_set(b.pieces@[c], i))
}

/// Each bit of a partial aggregate occupancy comes from exactly the piece
/// bitboards of its color that the aggregate has folded in.
proof fn lemma_occ_upto_bit(pieces: Seq<u64>, c: int, n: int)
    requires
        0 <= n <= 12,
        pieces.len() == 12,
    ensures
        forall|i: int|
            #![trigger bit_set(occ_upto(pieces, c, n), i)]
            bit_set(occ_upto(pieces, c, n), i) <==> (exists|p: int|
                0 <= p < n && p % 2 == c && #[trigger] bit_set(pieces[p], i)),
    decreases n,
{
    if n > 0 {
        lemma_occ_upto_bit(pieces, c, n - 1);
        if (n - 1) % 2 == c {
            lemma_bit_or(occ_upto(pieces, c, n - 1), pieces[n - 1]);
        } else {
            crate::bits::lemma_and_identities();
        }
        assert forall|i: int|
            bit_set(occ_upto(pieces, c, n), i) <==> (exists|p: int|
                0 <= p < n && p % 2 == c && #[trigger] bit_set(pieces[p], i)) by {
            if bit_set(occ_upto(pieces, c, n), i) {
                if bit_set(occ_upto(pieces, c, n - 1), i) {
                    let p = choose|p: int|
                        0 <= p < n - 1 && p % 2 == c && #[trigger] bit_set(pieces[p], i);
                    assert(0 <= p < n && p % 2 == c && bit_set(pieces[p], i));
                } else {
                    assert((n - 1) % 2 == c && bit_set(pieces[n - 1], i));
                }
            }
            if exists|p: int| 0 <= p < n && p % 2 == c && #[trigger] bit_set(pieces[p], i) {
                let p = choose|p: int| 0 <= p < n && p % 2 == c && #[trigger] bit_set(pieces[p], i);
                if p < n - 1 {
                    assert(bit_set(occ_upto(pieces, c, n - 1), i));
                }
                assert(bit_set(occ_upto(pieces, c, n), i));
            }
        }
    } else {
        lemma_bit_zero(occ_upto(pieces, c, n));
    }
}

/// On a well-formed board the two aggregates are disjoint, every piece
/// bitboard lies inside its color's aggregate, and the per-square cache is
/// occupied exactly where some piece stands.
pub proof fn lemma_wf_occ_structure(b: Board)
    requires
        b.wf(),
    ensures
        b.occupied@[0] & b.occupied@[1] == 0,
        forall|p: int|
            0 <= p < 12 ==> #[trigger] (b.pieces@[p] & b.occupied@[p % 2]) == b.pieces@[p],
        forall|s: int|
            0 <= s < 64 ==> ((#[trigger] b.piece_table@[s]) is Some <==> bit_set(
                b.occupied@[0] | b.occupied@[1],
                s,
            )),
{
    lemma_occ_upto_bit(b.pieces@, 0, 12);
    lemma_occ_upto_bit(b.pieces@, 1, 12);
    lemma_bit_and(b.occupied@[0], b.occupied@[1]);
    lemma_bit_or(b.occupied@[0], b.occupied@[1]);
    assert forall|i: int| !(#[trigger] bit_set(b.occupied@[0] & b.occupied@[1], i)) by {
        if bit_set(b.occupied@[0] & b.occupied@[1], i) {
            let p0 = choose|p: int| 0 <= p < 12 && p % 2 == 0 && #[trigger] bit_set(b.pieces@[p], i);
            let p1 = choose|p: int| 0 <= p < 12 && p % 2 == 1 && #[trigger] bit_set(b.pieces@[p], i);
            assert(p0 == p1);
        }
    }
    lemma_no_bits_zero(b.occupied@[0] & b.occupied@[1]);
    assert forall|p: int| 0 <= p < 12 implies #[trigger] (b.pieces@[p] & b.occupied@[p % 2])
        == b.pieces@[p] by {
        lemma_bit_and(b.pieces@[p], b.occupied@[p % 2]);
        assert forall|i: int|
            #[trigger] bit_set(b.pieces@[p] & b.occupied@[p % 2], i) <==> bit_set(
                b.pieces@[p],
                i,
            ) by {
            if bit_set(b.pieces@[p], i) {
                assert(bit_set(occ_upto(b.pieces@, p % 2, 12), i));
            }
        }
        lemma_bits_eq(b.pieces@[p] & b.occupied@[p % 2], b.pieces@[p]);
    }
    assert forall|s: int| 0 <= s < 64 implies ((#[trigger] b.piece_table@[s]) is Some <==> bit_set(
        b.occupied@[0] | b.occupied@[1],
        s,
    )) by {
        if b.piece_table@[s] is Some {
            let p = choose|p: int| 0 <= p < 12 && #[trigger] bit_set(b.pieces@[p], s)
                && b.piece_table@[s] == Some(generic_of_index(p));
            assert(bit_set(occ_upto(b.pieces@, p % 2, 12), s));
        }
        if bit_set(b.occupied@[0] | b.occupied@[1], s) {
            if bit_set(b.occupied@[0], s) {
                let p = choose|p: int|
                    0 <= p < 12 && p % 2 == 0 && #[trigger] bit_set(b.pieces@[p], s);
                assert(b.piece_table@[s] == Some(generic_of_index(p)));
            } else {
                let p = choose|p: int|
                    0 <= p < 12 && p % 2 == 1 && #[trigger] bit_set(b.pieces@[p], s);
                assert(b.piece_table@[s] == Some(generic_of_index(p)));
            }
        }
    }
}

/// Intersecting with a set that avoids `f` ignores a prior removal of `f`,
/// in either operand order.
proof fn lemma_masked_intersect(x: u64, f: u64, t: u64)
    requires
        t & f == 0,
    ensures
        (x & !f) & t == x & t,
        t & (x & !f) == x & t,
        t & x == x & t,
{
    assert(t & f == 0 ==> ((x & !f) & t == x & t && t & (x & !f) == x & t && t & x == x & t))
        by (bit_vector);
}

/// A subset of a set disjoint from another is itself disjoint from it.
proof fn lemma_subset_disjoint(t: u64, a: u64, b: u64)
    requires
        a & b == 0,
        t & a == t,
    ensures
        t & b == 0,
{
    assert(a & b == 0 && t & a == t ==> t & b == 0) by (bit_vector);
}

/// Two ORs of the same operands are equal in either order.
proof fn lemma_or_comm(a: u64, b: u64)
    ensures
        a | b == b | a,
{
    assert(a | b == b | a) by (bit_vector);
}

/// Recomputing the aggregate occupancy of a well-formed board from its
/// twelve piece bitboards reproduces the stored aggregates exactly.
pub proof fn lemma_wf_occupancy(b: Board)
    requires
        b.wf(),
    ensures
        b.occupied@[0] == occ_of(b.pieces@, 0),
        b.occupied@[1] == occ_of(b.pieces@, 1),
{
}

/// Avoiding a set is preserved by union and symmetric under AND order.
proof fn lemma_disjoint_union(a: u64, b: u64, f: u64)
    requires
        a & f == 0,
        b & f == 0,
    ensures
        (a | b) & f == 0,
        f & a == 0,
{
    assert(a & f == 0 && b & f == 0 ==> ((a | b) & f == 0 && f & a == 0)) by (bit_vector);
}

/// The union of two of a color's piece bitboards avoids the other color's
/// aggregate occupancy.
proof fn lemma_pieces_avoid_opponent(b: Board, p1: int, p2: int)
    requires
        b.wf(),
        0 <= p1 < 12,
        0 <= p2 < 12,
        p1 % 2 == p2 % 2,
    ensures
        (b.pieces@[p1] | b.pieces@[p2]) & b.occupied@[1 - (p1 % 2)] == 0,
        b.pieces@[p1] & b.occupied@[1 - (p1 % 2)] == 0,
{
    lemma_wf_occ_structure(b);
    let c = p1 % 2;
    let f = b.occupied@[1 - c];
    if c == 0 {
        lemma_subset_disjoint(b.pieces@[p1], b.occupied@[0], f);
        lemma_subset_disjoint(b.pieces@[p2], b.occupied@[0], f);
    } else {
        let o0 = b.occupied@[0];
        let o1 = b.occupied@[1];
        assert(o1 & o0 == 0) by (bit_vector)
            requires
                o0 & o1 == 0,
        ;
        lemma_subset_disjoint(b.pieces@[p1], b.occupied@[1], f);
        lemma_subset_disjoint(b.pieces@[p2], b.occupied@[1], f);
    }
    lemma_disjoint_union(b.pieces@[p1], b.pieces@[p2], f);
}

impl Board {
    /// Whether the given square is under attack by any piece of the given
    /// color. Does not consider en passant.
    pub fn index_in_check(&self, index: u32, by_color: Color, tables: &AttackTables) -> (r: bool)
        requires
            self.wf(),
            tables.wf(),
            index < 64,
        ensures
            r == attacks_square(*self, index as int, by_color),
    {
        let c = by_color.index();
        let opp = Color::opposite(by_color).index();
        let friendly = self.occupied[opp];
        let enemy = self.occupied[c];
        let ghost all = self.occupied@[0] | self.occupied@[1];
        proof {
            lemma_wf_occ_structure(*self);
            lemma_or_comm(friendly, enemy);
            assert(friendly | enemy == all);
        }

        let rooks_and_queens = self.pieces[6 + c] | self.pieces[8 + c];
        proof {
            crate::bits::lemma_and_identities();
        }
        let potential_rook_attacks = get_rook_moves_bb(tables, index as u8, friendly, enemy);
        if rooks_and_queens.contains(potential_rook_attacks) {
            return true;
        }

        let bishops_and_queens = self.pieces[4 + c] | self.pieces[8 + c];
        let potential_bishop_attacks = get_bishop_moves_bb(tables, index as u8, friendly, enemy);
        if bishops_and_queens.contains(potential_bishop_attacks) {
            return true;
        }

        let knights = self.pieces[2 + c];
        proof {
            lemma_pieces_avoid_opponent(*self, 2 + c as int, 2 + c as int);
            lemma_masked_intersect(knight_attacks(index as int), friendly, knights);
        }
        let potential_knight_attacks = get_knight_moves_bb(tables, index as u8, friendly);
        if knights.contains(potential_knight_attacks) {
            return true;
        }

        let king = self.pieces[10 + c];
        proof {
            lemma_pieces_avoid_opponent(*self, 10 + c as int, 10 + c as int);
            lemma_masked_intersect(king_attacks(index as int), friendly, king);
        }
        let potential_king_attacks = get_king_moves_bb(tables, index as u8, friendly);
        if king.contains(potential_king_attacks) {
            return true;
        }

        let pawns = self.pieces[c];
        let rank = (index / 8) as u8;
        let file = (index % 8) as u8;
        proof {
            lemma_square_coords(index as int);
        }
        let pawn_hit = match by_color {
            Color::White => {
                let low = rank >= 1 && file >= 1 && test_bit(pawns, (rank - 1) * 8 + (file - 1));
                let high = rank >= 1 && file <= 6 && test_bit(pawns, (rank - 1) * 8 + (file + 1));
                proof {
                    if rank >= 1 && file >= 1 {
                        lemma_coords_square(rank as int - 1, file as int - 1);
                    }
                    if rank >= 1 && file <= 6 {
                        lemma_coords_square(rank as int - 1, file as int + 1);
                    }
                    if low {
                        assert(pawn_attacker_bit(
                            by_color,
                            index as int,
                            square_at(rank as int - 1, file as int - 1),
                        ) && bit_set(
                            self.pieces@[c as int],
                            square_at(rank as int - 1, file as int - 1),
                        ));
                    }
                    if high {
                        assert(pawn_attacker_bit(
                            by_color,
                            index as int,
                            square_at(rank as int - 1, file as int + 1),
                        ) && bit_set(
                            self.pieces@[c as int],
                            square_at(rank as int - 1, file as int + 1),
                        ));
                    }
                }
                low || high
            },
            Color::Black => {
                let low = rank <= 6 && file >= 1 && test_bit(pawns, (rank + 1) * 8 + (file - 1));
                let high = rank <= 6 && file <= 6 && test_bit(pawns, (rank + 1) * 8 + (file + 1));
                proof {
                    if rank <= 6 && file >= 1 {
                        lemma_coords_square(rank as int + 1, file as int - 1);
                    }
                    if rank <= 6 && file <= 6 {
                        lemma_coords_square(rank as int + 1, file as int + 1);
                    }
                    if low {
                        assert(pawn_attacker_bit(
                            by_color,
                            index as int,
                            square_at(rank as int + 1, file as int - 1),
                        ) && bit_set(
                            self.pieces@[c as int],
                            square_at(rank as int + 1, file as int - 1),
                        ));
                    }
                    if high {
                        assert(pawn_attacker_bit(
                            by_color,
                            index as int,
                            square_at(rank as int + 1, file as int + 1),
                        ) && bit_set(
                            self.pieces@[c as int],
                            square_at(rank as int + 1, file as int + 1),
                        ));
                    }
                }
                low || high
            },
        };
        proof {
            if !pawn_hit {
                assert forall|i: int|
                    !(#[trigger] pawn_attacker_bit(by_color, index as int, i) && bit_set(
                        self.pieces@[c as int],
                        i,
                    )) by {
                    if pawn_attacker_bit(by_color, index as int, i) {
                        lemma_square_coords(i);
                    }
                }
            }
        }
        pawn_hit
    }
}

impl Board {
    /// The standard starting position: all 32 pieces on their home squares,
    /// White to move, all four castling rights, no en-passant target.
    pub fn default_setup() -> (r: Self)
        ensures
            r.wf(),
            r.pieces@ == seq![0x000000000000FF00u64, 0x00FF000000000000u64, 0x0000000000000042u64, 0x4200000000000000u64, 0x0000000000000024u64, 0x2400000000000000u64, 0x0000000000000081u64, 0x8100000000000000u64, 0x0000000000000008u64, 0x0800000000000000u64, 0x0000000000000010u64, 0x1000000000000000u64],
            r.side_to_move == Color::White,
            r.state.castling_rights == crate::state::ALL_RIGHTS,
            r.state.en_passant is None,
            r.state.halfmove_clock == 0,
            r.fullmove_clock == 1,
            r.state.captured_piece is None,
            r.past_states@.len() == 0,
    {
        let mut board = Board::empty();
        board.pieces.set(0, 0x000000000000FF00);
        board.pieces.set(1, 0x00FF000000000000);
        board.pieces.set(2, 0x0000000000000042);
        board.pieces.set(3, 0x4200000000000000);
        board.pieces.set(4, 0x0000000000000024);
        board.pieces.set(5, 0x2400000000000000);
        board.pieces.set(6, 0x0000000000000081);
        board.pieces.set(7, 0x8100000000000000);
        board.pieces.set(8, 0x0000000000000008);
        board.pieces.set(9, 0x0800000000000000);
        board.pieces.set(10, 0x0000000000000010);
        board.pieces.set(11, 0x1000000000000000);
        proof {
            assert(board.pieces@ =~= seq![0x000000000000FF00u64, 0x00FF000000000000u64, 0x0000000000000042u64, 0x4200000000000000u64, 0x0000000000000024u64, 0x2400000000000000u64, 0x0000000000000081u64, 0x8100000000000000u64, 0x0000000000000008u64, 0x0800000000000000u64, 0x0000000000000010u64, 0x1000000000000000u64]);
            assert(0x000000000000FF00u64 & 0x00FF000000000000u64 == 0 && 0x000000000000FF00u64 & 0x0000000000000042u64 == 0 && 0x000000000000FF00u64 & 0x4200000000000000u64 == 0 && 0x000000000000FF00u64 & 0x0000000000000024u64 == 0 && 0x000000000000FF00u64 & 0x2400000000000000u64 == 0 && 0x000000000000FF00u64 & 0x0000000000000081u64 == 0 && 0x000000000000FF00u64 & 0x8100000000000000u64 == 0 && 0x000000000000FF00u64 & 0x0000000000000008u64 == 0 && 0x000000000000FF00u64 & 0x0800000000000000u64 == 0 && 0x000000000000FF00u64 & 0x0000000000000010u64 == 0 && 0x000000000000FF00u64 & 0x1000000000000000u64 == 0 && 0x00FF000000000000u64 & 0x000000000000FF00u64 == 0 && 0x00FF000000000000u64 & 0x0000000000000042u64 == 0 && 0x00FF000000000000u64 & 0x4200000000000000u64 == 0 && 0x00FF000000000000u64 & 0x0000000000000024u64 == 0 && 0x00FF000000000000u64 & 0x2400000000000000u64 == 0 && 0x00FF000000000000u64 & 0x0000000000000081u64 == 0 && 0x00FF000000000000u64 & 0x8100000000000000u64 == 0 && 0x00FF000000000000u64 & 0x0000000000000008u64 == 0 && 0x00FF000000000000u64 & 0x0800000000000000u64 == 0 && 0x00FF000000000000u64 & 0x0000000000000010u64 == 0 && 0x00FF000000000000u64 & 0x1000000000000000u64 == 0 && 0x0000000000000042u64 & 0x000000000000FF00u64 == 0 && 0x0000000000000042u64 & 0x00FF000000000000u64 == 0 && 0x0000000000000042u64 & 0x4200000000000000u64 == 0 && 0x0000000000000042u64 & 0x0000000000000024u64 == 0 && 0x0000000000000042u64 & 0x2400000000000000u64 == 0 && 0x0000000000000042u64 & 0x0000000000000081u64 == 0 && 0x0000000000000042u64 & 0x8100000000000000u64 == 0 && 0x0000000000000042u64 & 0x0000000000000008u64 == 0 && 0x0000000000000042u64 & 0x0800000000000000u64 == 0 && 0x0000000000000042u64 & 0x0000000000000010u64 == 0 && 0x0000000000000042u64 & 0x1000000000000000u64 == 0 && 0x4200000000000000u64 & 0x000000000000FF00u64 == 0 && 0x4200000000000000u64 & 0x00FF000000000000u64 == 0 && 0x4200000000000000u64 & 0x0000000000000042u64 == 0 && 0x4200000000000000u64 & 0x0000000000000024u64 == 0 && 0x4200000000000000u64 & 0x2400000000000000u64 == 0 && 0x4200000000000000u64 & 0x0000000000000081u64 == 0 && 0x4200000000000000u64 & 0x8100000000000000u64 == 0 && 0x4200000000000000u64 & 0x0000000000000008u64 == 0 && 0x4200000000000000u64 & 0x0800000000000000u64 == 0 && 0x4200000000000000u64 & 0x0000000000000010u64 == 0 && 0x4200000000000000u64 & 0x1000000000000000u64 == 0 && 0x0000000000000024u64 & 0x000000000000FF00u64 == 0 && 0x0000000000000024u64 & 0x00FF000000000000u64 == 0 && 0x0000000000000024u64 & 0x0000000000000042u64 == 0 && 0x0000000000000024u64 & 0x4200000000000000u64 == 0 && 0x0000000000000024u64 & 0x2400000000000000u64 == 0 && 0x0000000000000024u64 & 0x0000000000000081u64 == 0 && 0x0000000000000024u64 & 0x8100000000000000u64 == 0 && 0x0000000000000024u64 & 0x0000000000000008u64 == 0 && 0x0000000000000024u64 & 0x0800000000000000u64 == 0 && 0x0000000000000024u64 & 0x0000000000000010u64 == 0 && 0x0000000000000024u64 & 0x1000000000000000u64 == 0 && 0x2400000000000000u64 & 0x000000000000FF00u64 == 0 && 0x2400000000000000u64 & 0x00FF000000000000u64 == 0 && 0x2400000000000000u64 & 0x0000000000000042u64 == 0 && 0x2400000000000000u64 & 0x4200000000000000u64 == 0 && 0x2400000000000000u64 & 0x0000000000000024u64 == 0 && 0x2400000000000000u64 & 0x0000000000000081u64 == 0 && 0x2400000000000000u64 & 0x8100000000000000u64 == 0 && 0x2400000000000000u64 & 0x0000000000000008u64 == 0 && 0x2400000000000000u64 & 0x0800000000000000u64 == 0 && 0x2400000000000000u64 & 0x0000000000000010u64 == 0 && 0x2400000000000000u64 & 0x1000000000000000u64 == 0 && 0x0000000000000081u64 & 0x000000000000FF00u64 == 0 && 0x0000000000000081u64 & 0x00FF000000000000u64 == 0 && 0x0000000000000081u64 & 0x0000000000000042u64 == 0 && 0x0000000000000081u64 & 0x4200000000000000u64 == 0 && 0x0000000000000081u64 & 0x0000000000000024u64 == 0 && 0x0000000000000081u64 & 0x2400000000000000u64 == 0 && 0x0000000000000081u64 & 0x8100000000000000u64 == 0 && 0x0000000000000081u64 & 0x0000000000000008u64 == 0 && 0x0000000000000081u64 & 0x0800000000000000u64 == 0 && 0x0000000000000081u64 & 0x0000000000000010u64 == 0 && 0x0000000000000081u64 & 0x1000000000000000u64 == 0 && 0x8100000000000000u64 & 0x000000000000FF00u64 == 0 && 0x8100000000000000u64 & 0x00FF000000000000u64 == 0 && 0x8100000000000000u64 & 0x0000000000000042u64 == 0 && 0x8100000000000000u64 & 0x4200000000000000u64 == 0 && 0x8100000000000000u64 & 0x0000000000000024u64 == 0 && 0x8100000000000000u64 & 0x2400000000000000u64 == 0 && 0x8100000000000000u64 & 0x0000000000000081u64 == 0 && 0x8100000000000000u64 & 0x0000000000000008u64 == 0 && 0x8100000000000000u64 & 0x0800000000000000u64 == 0 && 0x8100000000000000u64 & 0x0000000000000010u64 == 0 && 0x8100000000000000u64 & 0x1000000000000000u64 == 0 && 0x0000000000000008u64 & 0x000000000000FF00u64 == 0 && 0x0000000000000008u64 & 0x00FF000000000000u64 == 0 && 0x0000000000000008u64 & 0x0000000000000042u64 == 0 && 0x0000000000000008u64 & 0x4200000000000000u64 == 0 && 0x0000000000000008u64 & 0x0000000000000024u64 == 0 && 0x0000000000000008u64 & 0x2400000000000000u64 == 0 && 0x0000000000000008u64 & 0x0000000000000081u64 == 0 && 0x0000000000000008u64 & 0x8100000000000000u64 == 0 && 0x0000000000000008u64 & 0x0800000000000000u64 == 0 && 0x0000000000000008u64 & 0x0000000000000010u64 == 0 && 0x0000000000000008u64 & 0x1000000000000000u64 == 0 && 0x0800000000000000u64 & 0x000000000000FF00u64 == 0 && 0x0800000000000000u64 & 0x00FF000000000000u64 == 0 && 0x0800000000000000u64 & 0x0000000000000042u64 == 0 && 0x0800000000000000u64 & 0x4200000000000000u64 == 0 && 0x0800000000000000u64 & 0x0000000000000024u64 == 0 && 0x0800000000000000u64 & 0x2400000000000000u64 == 0 && 0x0800000000000000u64 & 0x0000000000000081u64 == 0 && 0x0800000000000000u64 & 0x8100000000000000u64 == 0 && 0x0800000000000000u64 & 0x0000000000000008u64 == 0 && 0x0800000000000000u64 & 0x0000000000000010u64 == 0 && 0x0800000000000000u64 & 0x1000000000000000u64 == 0 && 0x0000000000000010u64 & 0x000000000000FF00u64 == 0 && 0x0000000000000010u64 & 0x00FF000000000000u64 == 0 && 0x0000000000000010u64 & 0x0000000000000042u64 == 0 && 0x0000000000000010u64 & 0x4200000000000000u64 == 0 && 0x0000000000000010u64 & 0x0000000000000024u64 == 0 && 0x0000000000000010u64 & 0x2400000000000000u64 == 0 && 0x0000000000000010u64 & 0x0000000000000081u64 == 0 && 0x0000000000000010u64 & 0x8100000000000000u64 == 0 && 0x0000000000000010u64 & 0x0000000000000008u64 == 0 && 0x0000000000000010u64 & 0x0800000000000000u64 == 0 && 0x0000000000000010u64 & 0x1000000000000000u64 == 0 && 0x1000000000000000u64 & 0x000000000000FF00u64 == 0 && 0x1000000000000000u64 & 0x00FF000000000000u64 == 0 && 0x1000000000000000u64 & 0x0000000000000042u64 == 0 && 0x1000000000000000u64 & 0x4200000000000000u64 == 0 && 0x1000000000000000u64 & 0x0000000000000024u64 == 0 && 0x1000000000000000u64 & 0x2400000000000000u64 == 0 && 0x1000000000000000u64 & 0x0000000000000081u64 == 0 && 0x1000000000000000u64 & 0x8100000000000000u64 == 0 && 0x1000000000000000u64 & 0x0000000000000008u64 == 0 && 0x1000000000000000u64 & 0x0800000000000000u64 == 0 && 0x1000000000000000u64 & 0x0000000000000010u64 == 0) by (bit_vector);
            assert forall|p1: int, p2: int, i: int|
                0 <= p1 < 12 && 0 <= p2 < 12 && #[trigger] bit_set(board.pieces@[p1], i)
                    && #[trigger] bit_set(board.pieces@[p2], i) implies p1 == p2 by {
                if p1 != p2 {
                    lemma_bit_and(board.pieces@[p1], board.pieces@[p2]);
                    lemma_bit_zero(board.pieces@[p1] & board.pieces@[p2]);
                }
            }
        }
        board.update_occupied();
        board.update_piece_table();
        board.state.castling_rights = crate::state::ALL_RIGHTS;
        proof {
            assert(crate::state::ALL_RIGHTS & 0xF0 == 0) by (bit_vector);
        }
        board.recalculate_hash();
        board
    }

    /// All pseudo-legal moves of the side to move, exactly as the free
    /// generator returns them — the same sequence, element for element; the
    /// board itself is never changed.
    pub fn generate_moves(&self, tables: &AttackTables) -> (out: Vec<Move>)
        requires
            self.wf(),
            tables.wf(),
        ensures
            crate::moves::generated_moves_ok(*self, out@),
    {
        crate::moves::generate_moves(self, tables)
    }
}

impl Board {
    /// Checks every representation invariant of this board from scratch:
    /// the aggregate occupancy, the per-square cache, the uniqueness of the
    /// placement, the state fields and the hash. True exactly when the
    /// board is well-formed; a diagnostic aid, not part of the production
    /// error contract.
    pub fn check_representation(&self) -> (r: bool)
        ensures
            r == self.wf(),
    {
        if !(self.pieces.len() == 12 && self.occupied.len() == 2 && self.piece_table.len() == 64) {
            return false;
        }
        let mut white: u64 = 0;
        let mut black: u64 = 0;
        let mut i: usize = 0;
        while i < 12
            invariant
                i <= 12,
                self.pieces.len() == 12,
                white == occ_upto(self.pieces@, 0, i as int),
                black == occ_upto(self.pieces@, 1, i as int),
            decreases 12 - i,
        {
            if i % 2 == 0 {
                white = white | self.pieces[i];
                proof {
                    assert(black | 0u64 == black) by (bit_vector);
                }
            } else {
                black = black | self.pieces[i];
                proof {
                    assert(white | 0u64 == white) by (bit_vector);
                }
            }
            i = i + 1;
        }
        if white != self.occupied[0] || black != self.occupied[1] {
            return false;
        }
        let mut s: usize = 0;
        while s < 64
            invariant
                s <= 64,
                self.pieces.len() == 12,
                self.piece_table.len() == 64,
                forall|p: int, s0: int|
                    0 <= p < 12 && 0 <= s0 < s && #[trigger] bit_set(self.pieces@[p], s0)
                        ==> self.piece_table@[s0] == Some(generic_of_index(p)),
                forall|s0: int|
                    0 <= s0 < s && (#[trigger] self.piece_table@[s0]) is Some ==> exists|p: int|
                        0 <= p < 12 && #[trigger] bit_set(self.pieces@[p], s0)
                            && self.piece_table@[s0] == Some(generic_of_index(p)),
                forall|p1: int, p2: int, s0: int|
                    0 <= p1 < 12 && 0 <= p2 < 12 && 0 <= s0 < s && #[trigger] bit_set(
                        self.pieces@[p1],
                        s0,
                    ) && #[trigger] bit_set(self.pieces@[p2], s0) ==> p1 == p2,
            decreases 64 - s,
        {
            let mut found: usize = 12;
            let mut p: usize = 0;
            while p < 12
                invariant
                    p <= 12,
                    s < 64,
                    self.pieces.len() == 12,
                    found == 12 || (found < p && bit_set(self.pieces@[found as int], s as int)),
                    forall|p0: int|
                        0 <= p0 < p && p0 != found ==> !bit_set(self.pieces@[p0], s as int),
                decreases 12 - p,
            {
                if test_bit(self.pieces[p], s as u8) {
                    if found < 12 {
                        return false;
                    }
                    found = p;
                }
                p = p + 1;
            }
            let expected: Option<GenericPiece> = if found < 12 {
                let piece = match ColoredPiece::from_index(found) {
                    Some(cp) => cp,
                    None => ColoredPiece::WhitePawn,
                };
                proof {
                    assert(piece_index(crate::state::piece_of_index(found as int)) == found as int);
                }
                Some(piece.generic())
            } else {
                None
            };
            let matches_cache = match (expected, self.piece_table[s]) {
                (None, None) => true,
                (Some(a), Some(b)) => a == b,
                _ => false,
            };
            if !matches_cache {
                proof {
                    if self.wf() {
                        if self.piece_table@[s as int] is Some {
                            let p0 = choose|p0: int|
                                0 <= p0 < 12 && #[trigger] bit_set(self.pieces@[p0], s as int)
                                    && self.piece_table@[s as int] == Some(generic_of_index(p0));
                            assert(found == p0);
                        }
                    }
                }
                return false;
            }
            s = s + 1;
        }
        match self.state.en_passant {
            Some(sq) => {
                if sq >= 64 {
                    return false;
                }
            },
            None => {},
        }
        if self.state.castling_rights & 0xF0 != 0 {
            return false;
        }
        let hash = calculate_hash(self);
        if hash != self.state.hash {
            return false;
        }
        true
    }
}

} // verus!
