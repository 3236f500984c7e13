//! The Zobrist position hash: deterministic key tables drawn from fixed
//! seeds, and the full-hash computation over a board.
//!
//! The hash is the XOR of the piece key of every occupied (square, colored
//! piece) pair, the side key if Black is to move, one castling key per
//! active right, and the en-passant file key if an en-passant target exists.

use vstd::prelude::*;

use crate::bits::bit_set;
use crate::bits::lemma_bit_single;
use crate::bits::lemma_bit_xor;
use crate::bits::lemma_xor_identities;
use crate::board::Board;
use crate::rand::lemma_xorshift_stream_nonzero;
use crate::rand::XorShift64;
use crate::rand::xorshift_step;
use crate::rand::xorshift_stream;
use crate::state::BLACK_LONG;
use crate::state::BLACK_SHORT;
use crate::state::Color;
use crate::state::WHITE_LONG;
use crate::state::WHITE_SHORT;

verus! {

pub const PIECE_SEED: u64 = 0x1b9013473f4957ca;

pub const SIDE_SEED: u64 = 0xbb09af174b919702;

pub const CASTLE_SEED: u64 = 0x3f30da02e189b20d;

pub const EN_PASSANT_SEED: u64 = 0x65e4cba05505ca9c;

/// The Zobrist key of colored piece `p` standing on square `s`: the keys are
/// drawn piece-major from one stream, so key (s, p) is element p * 64 + s + 1.
pub open spec fn piece_key(s: int, p: int) -> u64 {
    xorshift_stream(PIECE_SEED, (p * 64 + s + 1) as nat)
}

/// The side-to-move key, hashed in when Black is to move.
pub open spec fn side_key() -> u64 {
    xorshift_stream(SIDE_SEED, 1)
}

/// The key of castling right `i`, in mask-bit order: white short 0,
/// white long 1, black short 2, black long 3.
pub open spec fn castle_key(i: int) -> u64 {
    xorshift_stream(CASTLE_SEED, (i + 1) as nat)
}

/// The en-passant key of file `f`.
pub open spec fn en_passant_key(f: int) -> u64 {
    xorshift_stream(EN_PASSANT_SEED, (f + 1) as nat)
}

/// XOR of the keys of colored piece `p` over the squares below `n` that are
/// set in its bitboard `bb`.
pub open spec fn bb_keys_hash(bb: u64, p: int, n: int) -> u64
    decreases n,
{
    if n <= 0 {
        0
    } else {
        bb_keys_hash(bb, p, n - 1) ^ (if bit_set(bb, n - 1) {
            piece_key(n - 1, p)
        } else {
            0
        })
    }
}

/// XOR of the piece keys of every occupied square of the colored pieces
/// below `p`.
pub open spec fn pieces_hash(pieces: Seq<u64>, p: int) -> u64
    decreases p,
{
    if p <= 0 {
        0
    } else {
        pieces_hash(pieces, p - 1) ^ bb_keys_hash(pieces[p - 1], p - 1, 64)
    }
}

/// XOR of the castling keys of the rights active in `c`.
pub open spec fn castle_hash(c: u8) -> u64 {
    (if c & WHITE_SHORT != 0 {
        castle_key(0)
    } else {
        0
    }) ^ (if c & WHITE_LONG != 0 {
        castle_key(1)
    } else {
        0
    }) ^ (if c & BLACK_SHORT != 0 {
        castle_key(2)
    } else {
        0
    }) ^ (if c & BLACK_LONG != 0 {
        castle_key(3)
    } else {
        0
    })
}

/// The en-passant part of the hash: the key of the target's file, if a
/// target exists.
pub open spec fn en_passant_hash(ep: Option<u8>) -> u64 {
    match ep {
        Some(sq) => en_passant_key((sq % 8) as int),
        None => 0,
    }
}

/// The full position hash: a pure function of the piece placement, the side
/// to move, the castling rights and the en-passant target's file.
pub open spec fn board_hash(pieces: Seq<u64>, side: Color, castling: u8, ep: Option<u8>) -> u64 {
    pieces_hash(pieces, 12) ^ (if side == Color::Black {
        side_key()
    } else {
        0
    }) ^ castle_hash(castling) ^ en_passant_hash(ep)
}

/// The piece/square key table as one flat vector: entry p * 64 + s is the
/// key of colored piece p on square s.
pub fn generate_piece_hash() -> (r: Vec<u64>)
    ensures
        r.len() == 768,
        forall|s: int, p: int|
            0 <= s < 64 && 0 <= p < 12 ==> r@[p * 64 + s] == #[trigger] piece_key(s, p),
{
    let mut rng = XorShift64::new(PIECE_SEED);
    let mut keys: Vec<u64> = Vec::new();
    let mut i: usize = 0;
    while i < 768
        invariant
            i <= 768,
            keys.len() == i,
            rng.spec_state() == xorshift_stream(PIECE_SEED, i as nat),
            forall|k: int| 0 <= k < i ==> keys@[k] == xorshift_stream(PIECE_SEED, (k + 1) as nat),
        decreases 768 - i,
    {
        let key = rng.next();
        keys.push(key);
        i = i + 1;
    }
    proof {
        assert forall|s: int, p: int| 0 <= s < 64 && 0 <= p < 12 implies keys@[p * 64 + s]
            == #[trigger] piece_key(s, p) by {
            assert(0 <= p * 64 + s < 768) by (nonlinear_arith)
                requires
                    0 <= s < 64 && 0 <= p < 12,
            ;
        }
    }
    keys
}

/// The side-to-move key.
pub fn generate_side_hash() -> (r: u64)
    ensures
        r == side_key(),
{
    let mut rng = XorShift64::new(SIDE_SEED);
    let key = rng.next();
    proof {
        assert(xorshift_stream(SIDE_SEED, 1) == xorshift_step(xorshift_stream(SIDE_SEED, 0)));
    }
    key
}

/// The four castling-right keys, in mask-bit order.
pub fn generate_castle_hash() -> (r: Vec<u64>)
    ensures
        r.len() == 4,
        forall|i: int| 0 <= i < 4 ==> r@[i] == #[trigger] castle_key(i),
{
    let mut rng = XorShift64::new(CASTLE_SEED);
    let mut keys: Vec<u64> = Vec::new();
    let mut i: usize = 0;
    while i < 4
        invariant
            i <= 4,
            keys.len() == i,
            rng.spec_state() == xorshift_stream(CASTLE_SEED, i as nat),
            forall|k: int| 0 <= k < i ==> keys@[k] == #[trigger] castle_key(k),
        decreases 4 - i,
    {
        let key = rng.next();
        keys.push(key);
        i = i + 1;
    }
    keys
}

/// The eight en-passant file keys.
pub fn generate_en_passant_hash() -> (r: Vec<u64>)
    ensures
        r.len() == 8,
        forall|f: int| 0 <= f < 8 ==> r@[f] == #[trigger] en_passant_key(f),
{
    let mut rng = XorShift64::new(EN_PASSANT_SEED);
    let mut keys: Vec<u64> = Vec::new();
    let mut i: usize = 0;
    while i < 8
        invariant
            i <= 8,
            keys.len() == i,
            rng.spec_state() == xorshift_stream(EN_PASSANT_SEED, i as nat),
            forall|k: int| 0 <= k < i ==> keys@[k] == #[trigger] en_passant_key(k),
        decreases 8 - i,
    {
        let key = rng.next();
        keys.push(key);
        i = i + 1;
    }
    keys
}

/// XOR of the keys of the castling rights active in the given mask.
pub fn get_castling_hash(castling_rights: u8) -> (r: u64)
    ensures
        r == castle_hash(castling_rights),
{
    let keys = generate_castle_hash();
    let white_short = if castling_rights & WHITE_SHORT != 0 {
        keys[0]
    } else {
        0
    };
    let white_long = if castling_rights & WHITE_LONG != 0 {
        keys[1]
    } else {
        0
    };
    let black_short = if castling_rights & BLACK_SHORT != 0 {
        keys[2]
    } else {
        0
    };
    let black_long = if castling_rights & BLACK_LONG != 0 {
        keys[3]
    } else {
        0
    };
    ((white_short ^ white_long) ^ black_short) ^ black_long
}

/// The Zobrist hash of the given board position, computed from scratch.
pub fn calculate_hash(board: &Board) -> (r: u64)
    requires
        board.pieces.len() == 12,
    ensures
        r == board_hash(
            board.pieces@,
            board.side_to_move,
            board.state.castling_rights,
            board.state.en_passant,
        ),
{
    let keys = generate_piece_hash();
    let mut hash: u64 = 0;
    let mut p: usize = 0;
    while p < 12
        invariant
            p <= 12,
            keys.len() == 768,
            board.pieces.len() == 12,
            forall|s: int, pi: int|
                0 <= s < 64 && 0 <= pi < 12 ==> keys@[pi * 64 + s] == #[trigger] piece_key(s, pi),
            hash == pieces_hash(board.pieces@, p as int),
        decreases 12 - p,
    {
        let bb = board.pieces[p];
        let mut s: usize = 0;
        let mut part: u64 = 0;
        while s < 64
            invariant
                s <= 64,
                p < 12,
                keys.len() == 768,
                board.pieces.len() == 12,
                bb == board.pieces@[p as int],
                forall|s0: int, pi: int|
                    0 <= s0 < 64 && 0 <= pi < 12 ==> keys@[pi * 64 + s0] == #[trigger] piece_key(
                        s0,
                        pi,
                    ),
                part == bb_keys_hash(bb, p as int, s as int),
            decreases 64 - s,
        {
            proof {
                crate::bits::lemma_xor_identities();
                assert(0 <= p * 64 + s < 768) by (nonlinear_arith)
                    requires
                        0 <= s < 64 && 0 <= p < 12,
                ;
                assert(bb_keys_hash(bb, p as int, s as int + 1) == bb_keys_hash(
                    bb,
                    p as int,
                    s as int,
                ) ^ (if bit_set(bb, s as int) {
                    piece_key(s as int, p as int)
                } else {
                    0u64
                }));
            }
            if crate::bits::test_bit(bb, s as u8) {
                part = part ^ keys[p * 64 + s];
            }
            s = s + 1;
        }
        hash = hash ^ part;
        p = p + 1;
        proof {
            lemma_pieces_hash_step(board.pieces@, p as int);
        }
    }
    let side_part = if matches!(board.side_to_move, Color::Black) {
        generate_side_hash()
    } else {
        0
    };
    let castle_part = get_castling_hash(board.state.castling_rights);
    let ep_part = match board.state.en_passant {
        Some(sq) => {
            let ep_keys = generate_en_passant_hash();
            ep_keys[(sq % 8) as usize]
        },
        None => 0,
    };
    ((hash ^ side_part) ^ castle_part) ^ ep_part
}

proof fn lemma_pieces_hash_step(pieces: Seq<u64>, p: int)
    requires
        p >= 1,
    ensures
        pieces_hash(pieces, p) == pieces_hash(pieces, p - 1) ^ bb_keys_hash(
            pieces[p - 1],
            p - 1,
            64,
        ),
{
}

/// Flipping one XOR component of the hash, at any of its four positions,
/// changes the whole.
proof fn lemma_xor_component(p: u64, s: u64, c: u64, e: u64, x: u64, y: u64)
    by (bit_vector)
    requires
        x != y,
    ensures
        ((x ^ s) ^ c) ^ e != ((y ^ s) ^ c) ^ e,
        ((p ^ x) ^ c) ^ e != ((p ^ y) ^ c) ^ e,
        ((p ^ s) ^ x) ^ e != ((p ^ s) ^ y) ^ e,
        ((p ^ s) ^ c) ^ x != ((p ^ s) ^ c) ^ y,
{
}

/// The hash is a pure function of the piece placement, the side to move,
/// the castling rights and the en-passant file: two well-formed boards
/// agreeing on those hold the same hash, whatever their clocks or history.
pub proof fn lemma_hash_pure(b1: Board, b2: Board)
    requires
        b1.wf(),
        b2.wf(),
        b1.pieces@ == b2.pieces@,
        b1.side_to_move == b2.side_to_move,
        b1.state.castling_rights == b2.state.castling_rights,
        match (b1.state.en_passant, b2.state.en_passant) {
            (Some(s1), Some(s2)) => s1 % 8 == s2 % 8,
            (None, None) => true,
            _ => false,
        },
    ensures
        b1.state.hash == b2.state.hash,
{
    assert(en_passant_hash(b1.state.en_passant) == en_passant_hash(b2.state.en_passant));
}

/// Changing the side to move alone changes the hash.
pub proof fn lemma_hash_side_differs(b1: Board, b2: Board)
    requires
        b1.wf(),
        b2.wf(),
        b1.pieces@ == b2.pieces@,
        b1.side_to_move != b2.side_to_move,
        b1.state.castling_rights == b2.state.castling_rights,
        b1.state.en_passant == b2.state.en_passant,
    ensures
        b1.state.hash != b2.state.hash,
{
    lemma_xorshift_stream_nonzero(SIDE_SEED, 1);
    let p = pieces_hash(b1.pieces@, 12);
    let c = castle_hash(b1.state.castling_rights);
    let e = en_passant_hash(b1.state.en_passant);
    lemma_xor_component(p, 0, c, e, 0, side_key());
}

/// Toggling one castling right alone changes the hash.
pub proof fn lemma_hash_castling_differs(b1: Board, b2: Board, i: int)
    requires
        b1.wf(),
        b2.wf(),
        b1.pieces@ == b2.pieces@,
        b1.side_to_move == b2.side_to_move,
        0 <= i < 4,
        b2.state.castling_rights == b1.state.castling_rights ^ (1u8 << (i as u8)),
        b1.state.en_passant == b2.state.en_passant,
    ensures
        b1.state.hash != b2.state.hash,
{
    lemma_xorshift_stream_nonzero(CASTLE_SEED, (i + 1) as nat);
    let c1 = b1.state.castling_rights;
    let c2 = b2.state.castling_rights;
    let j = i as u8;
    assert(j < 4 ==> {
        let d = (1u8 << j);
        &&& (((c1 ^ d) & 1u8 != 0) <==> !(c1 & 1u8 != 0)) == (j == 0)
        &&& (((c1 ^ d) & 2u8 != 0) <==> !(c1 & 2u8 != 0)) == (j == 1)
        &&& (((c1 ^ d) & 4u8 != 0) <==> !(c1 & 4u8 != 0)) == (j == 2)
        &&& (((c1 ^ d) & 8u8 != 0) <==> !(c1 & 8u8 != 0)) == (j == 3)
    }) by (bit_vector);
    lemma_xor_identities();
    let k = castle_key(i);
    assert(castle_hash(c2) == castle_hash(c1) ^ k) by {
        let w1 = if c1 & WHITE_SHORT != 0 { castle_key(0) } else { 0u64 };
        let w2 = if c1 & WHITE_LONG != 0 { castle_key(1) } else { 0u64 };
        let w3 = if c1 & BLACK_SHORT != 0 { castle_key(2) } else { 0u64 };
        let w4 = if c1 & BLACK_LONG != 0 { castle_key(3) } else { 0u64 };
        let v1 = if c2 & WHITE_SHORT != 0 { castle_key(0) } else { 0u64 };
        let v2 = if c2 & WHITE_LONG != 0 { castle_key(1) } else { 0u64 };
        let v3 = if c2 & BLACK_SHORT != 0 { castle_key(2) } else { 0u64 };
        let v4 = if c2 & BLACK_LONG != 0 { castle_key(3) } else { 0u64 };
        assert(v1 == w1 ^ (if j == 0 { k } else { 0u64 }));
        assert(v2 == w2 ^ (if j == 1 { k } else { 0u64 }));
        assert(v3 == w3 ^ (if j == 2 { k } else { 0u64 }));
        assert(v4 == w4 ^ (if j == 3 { k } else { 0u64 }));
        assert(((v1 ^ v2) ^ v3) ^ v4 == ((((w1 ^ w2) ^ w3) ^ w4) ^ k)) by (bit_vector)
            requires
                j < 4 && (v1 == w1 ^ (if j == 0 { k } else { 0u64 })) && (v2 == w2 ^ (if j == 1 { k } else { 0u64 }))
                    && (v3 == w3 ^ (if j == 2 { k } else { 0u64 })) && (v4 == w4 ^ (if j == 3 { k } else { 0u64 })),
        ;
    }
    let p = pieces_hash(b1.pieces@, 12);
    let sd = if b1.side_to_move == Color::Black { side_key() } else { 0u64 };
    let e = en_passant_hash(b1.state.en_passant);
    let ch1 = castle_hash(c1);
    let ch2 = castle_hash(c2);
    assert(k != 0 && ch2 == ch1 ^ k ==> ch2 != ch1) by (bit_vector);
    lemma_xor_component(p, sd, ch1, e, ch1, ch2);
}

/// Adding or removing the en-passant target alone changes the hash.
pub proof fn lemma_hash_en_passant_differs(b1: Board, b2: Board)
    requires
        b1.wf(),
        b2.wf(),
        b1.pieces@ == b2.pieces@,
        b1.side_to_move == b2.side_to_move,
        b1.state.castling_rights == b2.state.castling_rights,
        b1.state.en_passant is Some,
        b2.state.en_passant is None,
    ensures
        b1.state.hash != b2.state.hash,
{
    let sq = b1.state.en_passant -> Some_0;
    lemma_xorshift_stream_nonzero(EN_PASSANT_SEED, (sq % 8 + 1) as nat);
    let p = pieces_hash(b1.pieces@, 12);
    let sd = if b1.side_to_move == Color::Black { side_key() } else { 0u64 };
    let c = castle_hash(b1.state.castling_rights);
    lemma_xor_component(p, sd, c, 0, en_passant_key((sq % 8) as int), 0);
}

/// Toggling one square of one piece bitboard flips that piece key in the
/// bitboard's key hash.
proof fn lemma_bb_keys_hash_toggle(bb: u64, p: int, s: int, n: int)
    requires
        0 <= s < 64,
    ensures
        bb_keys_hash(bb ^ (1u64 << (s as u64)), p, n) == bb_keys_hash(bb, p, n) ^ (if s < n {
            piece_key(s, p)
        } else {
            0u64
        }),
    decreases n,
{
    lemma_xor_identities();
    lemma_bit_single(s as u64);
    lemma_bit_xor(bb, 1u64 << (s as u64));
    if n > 0 {
        lemma_bb_keys_hash_toggle(bb, p, s, n - 1);
        if s == n - 1 {
            assert(bit_set(bb ^ (1u64 << (s as u64)), s) == !bit_set(bb, s));
        } else {
            assert(bit_set(bb ^ (1u64 << (s as u64)), n - 1) == bit_set(bb, n - 1));
        }
        let a = bb_keys_hash(bb, p, n - 1);
        let k = piece_key((n - 1) as int, p);
        let ks = if s < n - 1 { piece_key(s, p) } else { 0u64 };
        if s == n - 1 {
            if bit_set(bb, s) {
                assert((a ^ 0u64) == (a ^ k) ^ k) by (bit_vector);
            } else {
                assert((a ^ k) == (a ^ 0u64) ^ k) by (bit_vector);
            }
        } else {
            if bit_set(bb, n - 1) {
                assert((a ^ ks) ^ k == (a ^ k) ^ ks) by (bit_vector);
            }
        }
    }
}

/// Toggling one square of one piece bitboard flips that piece key in the
/// full placement hash.
proof fn lemma_pieces_hash_toggle(p1: Seq<u64>, p2: Seq<u64>, p: int, s: int, n: int)
    requires
        0 <= p < 12,
        0 <= s < 64,
        n <= 12,
        p1.len() == 12,
        p2 == p1.update(p, p1[p] ^ (1u64 << (s as u64))),
    ensures
        pieces_hash(p2, n) == (if p < n {
            pieces_hash(p1, n) ^ piece_key(s, p)
        } else {
            pieces_hash(p1, n)
        }),
    decreases n,
{
    lemma_xor_identities();
    if n > 0 {
        lemma_pieces_hash_toggle(p1, p2, p, s, n - 1);
        if p == n - 1 {
            lemma_bb_keys_hash_toggle(p1[p], p, s, 64);
            let a = pieces_hash(p1, n - 1);
            let b = bb_keys_hash(p1[p], p, 64);
            let k = piece_key(s, p);
            assert(a ^ (b ^ k) == (a ^ b) ^ k) by (bit_vector);
        } else if p < n - 1 {
            let a = pieces_hash(p1, n - 1);
            let b = bb_keys_hash(p1[n - 1], (n - 1) as int, 64);
            let k = piece_key(s, p);
            assert((a ^ k) ^ b == (a ^ b) ^ k) by (bit_vector);
        }
    }
}

/// Toggling one square of one piece bitboard alone changes the hash.
pub proof fn lemma_hash_piece_differs(b1: Board, b2: Board, p: int, s: int)
    requires
        b1.wf(),
        b2.wf(),
        0 <= p < 12,
        0 <= s < 64,
        b2.pieces@ == b1.pieces@.update(p, b1.pieces@[p] ^ (1u64 << (s as u64))),
        b1.side_to_move == b2.side_to_move,
        b1.state.castling_rights == b2.state.castling_rights,
        b1.state.en_passant == b2.state.en_passant,
    ensures
        b1.state.hash != b2.state.hash,
{
    lemma_xorshift_stream_nonzero(PIECE_SEED, (p * 64 + s + 1) as nat);
    assert(p * 64 + s + 1 >= 0) by (nonlinear_arith)
        requires
            0 <= p && 0 <= s,
    ;
    lemma_pieces_hash_toggle(b1.pieces@, b2.pieces@, p, s, 12);
    let sd = if b1.side_to_move == Color::Black { side_key() } else { 0u64 };
    let c = castle_hash(b1.state.castling_rights);
    let e = en_passant_hash(b1.state.en_passant);
    assert(pieces_hash(b2.pieces@, 12) == pieces_hash(b1.pieces@, 12) ^ piece_key(s, p));
    let a = pieces_hash(b1.pieces@, 12);
    let k = piece_key(s, p);
    assert(k != 0 ==> a ^ k != a) by (bit_vector);
    lemma_xor_component(a, sd, c, e, a, pieces_hash(b2.pieces@, 12));
}

} // verus!
