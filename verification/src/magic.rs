//! Sliding-piece attack computation and the magic-bitboard lookup tables,
//! together with the fixed knight and king attack tables.
//!
//! For each square and slider class the tables hold a relevant-occupancy
//! mask, a baked-in magic multiplier, a shift, and an attack table indexed
//! by `(blockers * magic) >> shift`. Construction enumerates every subset
//! of each mask with the carry-ripple trick and checks the stored entry
//! against the ray-cast ground truth, so a well-formed table answers every
//! masked occupancy correctly.

use vstd::prelude::*;

use crate::bits::BitFunctions;
use crate::bits::bb_of;
use crate::bits::bit_set;
use crate::bits::file_of;
use crate::bits::lemma_bb_of_bits;
use crate::bits::lemma_bit_and;
use crate::bits::lemma_bit_or;
use crate::bits::lemma_bit_single;
use crate::bits::lemma_bit_zero;
use crate::bits::lemma_bits_eq;
use crate::bits::lemma_coords_square;
use crate::bits::lemma_square_coords;
use crate::bits::on_board;
use crate::bits::rank_of;
use crate::bits::square_at;
use crate::bits::test_bit;

verus! {

/// The squares a rook's relevant-occupancy mask holds: the squares of its
/// rank and file, leaving out the board edges and the rook's own square.
pub open spec fn rook_mask_bit(s: int, i: int) -> bool {
    0 <= i < 64 && i != s && ((rank_of(i) == rank_of(s) && 1 <= file_of(i) <= 6) || (file_of(i)
        == file_of(s) && 1 <= rank_of(i) <= 6))
}

/// The squares a bishop's relevant-occupancy mask holds: the squares of its
/// two diagonals, leaving out the board edges and the bishop's own square.
pub open spec fn bishop_mask_bit(s: int, i: int) -> bool {
    0 <= i < 64 && i != s && (rank_of(i) + file_of(i) == rank_of(s) + file_of(s) || rank_of(i)
        - file_of(i) == rank_of(s) - file_of(s)) && 1 <= rank_of(i) <= 6 && 1 <= file_of(i) <= 6
}

/// A rook's relevant-occupancy mask on square `s`.
pub open spec fn rook_mask(s: int) -> u64 {
    bb_of(|i: int| rook_mask_bit(s, i))
}

/// A bishop's relevant-occupancy mask on square `s`.
pub open spec fn bishop_mask(s: int) -> u64 {
    bb_of(|i: int| bishop_mask_bit(s, i))
}

/// The attack ray cast from rank `r`, file `f` in direction (`dr`, `df`):
/// every square along the direction up to and including the first square
/// held by `blockers`, or the board edge.
pub open spec fn ray_attacks(r: int, f: int, dr: int, df: int, blockers: u64, fuel: nat) -> u64
    decreases fuel,
{
    if fuel == 0 {
        0
    } else {
        let r1 = r + dr;
        let f1 = f + df;
        if !on_board(r1, f1) {
            0
        } else {
            (1u64 << (square_at(r1, f1) as u64)) | (if bit_set(blockers, square_at(r1, f1)) {
                0
            } else {
                ray_attacks(r1, f1, dr, df, blockers, (fuel - 1) as nat)
            })
        }
    }
}

/// The squares a rook on square `s` attacks through the given blockers:
/// the union of its four rays.
pub open spec fn rook_attacks(s: int, blockers: u64) -> u64 {
    ray_attacks(rank_of(s), file_of(s), 1, 0, blockers, 7) | ray_attacks(
        rank_of(s),
        file_of(s),
        -1,
        0,
        blockers,
        7,
    ) | ray_attacks(rank_of(s), file_of(s), 0, 1, blockers, 7) | ray_attacks(
        rank_of(s),
        file_of(s),
        0,
        -1,
        blockers,
        7,
    )
}

/// The squares a bishop on square `s` attacks through the given blockers:
/// the union of its four diagonal rays.
pub open spec fn bishop_attacks(s: int, blockers: u64) -> u64 {
    ray_attacks(rank_of(s), file_of(s), 1, 1, blockers, 7) | ray_attacks(
        rank_of(s),
        file_of(s),
        1,
        -1,
        blockers,
        7,
    ) | ray_attacks(rank_of(s), file_of(s), -1, 1, blockers, 7) | ray_attacks(
        rank_of(s),
        file_of(s),
        -1,
        -1,
        blockers,
        7,
    )
}

/// The squares a knight on square `s` attacks.
pub open spec fn knight_attack_bit(s: int, i: int) -> bool {
    0 <= i < 64 && {
        let dr = rank_of(i) - rank_of(s);
        let df = file_of(i) - file_of(s);
        ((dr == 2 || dr == -2) && (df == 1 || df == -1)) || ((dr == 1 || dr == -1) && (df == 2
            || df == -2))
    }
}

/// The knight attack set of square `s`.
pub open spec fn knight_attacks(s: int) -> u64 {
    bb_of(|i: int| knight_attack_bit(s, i))
}

/// The squares a king on square `s` attacks: the adjacent squares.
pub open spec fn king_attack_bit(s: int, i: int) -> bool {
    0 <= i < 64 && i != s && {
        let dr = rank_of(i) - rank_of(s);
        let df = file_of(i) - file_of(s);
        -1 <= dr <= 1 && -1 <= df <= 1
    }
}

/// The king attack set of square `s`.
pub open spec fn king_attacks(s: int) -> u64 {
    bb_of(|i: int| king_attack_bit(s, i))
}

/// The table index a magic multiplier assigns to a masked occupancy.
pub open spec fn magic_index(blockers: u64, magic: u64, shift: u64) -> u64 {
    vstd::wrapping::u64_specs::wrapping_mul(blockers, magic) >> shift
}

/// The relevant-occupancy mask of square `s` for the given slider class.
pub open spec fn slider_mask(s: int, rook: bool) -> u64 {
    if rook {
        rook_mask(s)
    } else {
        bishop_mask(s)
    }
}

/// The attack set of square `s` through the given blockers for the given
/// slider class.
pub open spec fn slider_attacks(s: int, b: u64, rook: bool) -> u64 {
    if rook {
        rook_attacks(s, b)
    } else {
        bishop_attacks(s, b)
    }
}

/// The table shift of square `s`: 64 minus the popcount of its mask.
pub open spec fn mask_shift(s: int, rook: bool) -> u64 {
    (64 - crate::bits::popcount(slider_mask(s, rook)) as int) as u64
}

/// A magic multiplier serves a square when it is a perfect hash of that
/// square's mask subsets, up to attack-set equality: any two subsets it
/// sends to the same table index have the same ray-cast attack set.
pub open spec fn magic_serves(magic: u64, s: int, rook: bool) -> bool {
    forall|b1: u64, b2: u64|
        #![trigger magic_index(b1, magic, mask_shift(s, rook)), magic_index(b2, magic, mask_shift(s, rook))]
        b1 & slider_mask(s, rook) == b1 && b2 & slider_mask(s, rook) == b2 && magic_index(
            b1,
            magic,
            mask_shift(s, rook),
        ) == magic_index(b2, magic, mask_shift(s, rook)) ==> slider_attacks(s, b1, rook)
            == slider_attacks(s, b2, rook)
}

/// Exactly when a magic entry for square `s` can be built: the mask's
/// popcount lies in the supported range and the multiplier serves the
/// square.
pub open spec fn magic_builds(magic: u64, s: int, rook: bool) -> bool {
    1 <= crate::bits::popcount(slider_mask(s, rook)) <= 16 && magic_serves(magic, s, rook)
}

/// One square's magic lookup data for one slider class.
pub struct MagicInfo {
    pub magic: u64,
    pub shift: u64,
    pub mask: u64,
    pub attacks: Vec<u64>,
}

impl MagicInfo {
    /// The entry serves square `s` for the slider class given by `rook`:
    /// its mask is that square's relevant-occupancy mask, its table spans
    /// the index range the shift allows, and every subset of the mask maps
    /// to the ray-cast ground truth for that exact occupancy.
    pub open spec fn wf_for(self, s: int, rook: bool) -> bool {
        &&& 1 <= self.shift < 64
        &&& self.mask == (if rook {
            rook_mask(s)
        } else {
            bishop_mask(s)
        })
        &&& self.attacks.len() as u64 == 1u64 << ((64 - self.shift) as u64)
        &&& forall|b: u64|
            #![trigger magic_index(b, self.magic, self.shift)]
            b & self.mask == b ==> self.attacks@[magic_index(b, self.magic, self.shift) as int]
                == (if rook {
                rook_attacks(s, b)
            } else {
                bishop_attacks(s, b)
            })
    }
}

/// The process-wide attack tables: one magic entry per square for rooks and
/// bishops, and the fixed knight and king attack sets.
pub struct AttackTables {
    pub rook: Vec<MagicInfo>,
    pub bishop: Vec<MagicInfo>,
    pub knight: Vec<u64>,
    pub king: Vec<u64>,
}

impl AttackTables {
    /// Every per-square entry is well-formed for its square.
    pub open spec fn wf(self) -> bool {
        &&& self.rook.len() == 64
        &&& self.bishop.len() == 64
        &&& self.knight.len() == 64
        &&& self.king.len() == 64
        &&& forall|s: int| 0 <= s < 64 ==> (#[trigger] self.rook@[s]).wf_for(s, true)
        &&& forall|s: int| 0 <= s < 64 ==> (#[trigger] self.bishop@[s]).wf_for(s, false)
        &&& forall|s: int| 0 <= s < 64 ==> #[trigger] self.knight@[s] == knight_attacks(s)
        &&& forall|s: int| 0 <= s < 64 ==> #[trigger] self.king@[s] == king_attacks(s)
    }
}

/// Computes the blocker mask for a rook on the given square.
pub fn compute_rook_mask(square: usize) -> (r: u64)
    requires
        square < 64,
    ensures
        r == rook_mask(square as int),
{
    let mut mask: u64 = 0;
    let mut i: usize = 0;
    proof {
        lemma_bit_zero(mask);
    }
    while i < 64
        invariant
            i <= 64,
            square < 64,
            forall|k: int| #[trigger] bit_set(mask, k) <==> k < i && rook_mask_bit(square as int, k),
        decreases 64 - i,
    {
        let rank = i / 8;
        let file = i % 8;
        let on_rank = rank == square / 8 && 1 <= file && file <= 6;
        let on_file = file == square % 8 && 1 <= rank && rank <= 6;
        if i != square && (on_rank || on_file) {
            proof {
                crate::bits::lemma_bit_single(i as u64);
                lemma_bit_or(mask, 1u64 << (i as u64));
            }
            mask = mask | (1u64 << (i as u64));
        }
        i = i + 1;
    }
    proof {
        lemma_bb_of_bits(|k: int| rook_mask_bit(square as int, k));
        lemma_bits_eq(mask, rook_mask(square as int));
    }
    mask
}

/// Computes the blocker mask for a bishop on the given square.
pub fn compute_bishop_mask(square: usize) -> (r: u64)
    requires
        square < 64,
    ensures
        r == bishop_mask(square as int),
{
    let mut mask: u64 = 0;
    let mut i: usize = 0;
    proof {
        lemma_bit_zero(mask);
    }
    while i < 64
        invariant
            i <= 64,
            square < 64,
            forall|k: int|
                #[trigger] bit_set(mask, k) <==> k < i && bishop_mask_bit(square as int, k),
        decreases 64 - i,
    {
        let rank = i / 8;
        let file = i % 8;
        let sum_diag = rank + file == square / 8 + square % 8;
        let diff_diag = rank + square % 8 == square / 8 + file;
        let interior = 1 <= rank && rank <= 6 && 1 <= file && file <= 6;
        if i != square && (sum_diag || diff_diag) && interior {
            proof {
                crate::bits::lemma_bit_single(i as u64);
                lemma_bit_or(mask, 1u64 << (i as u64));
            }
            mask = mask | (1u64 << (i as u64));
        }
        i = i + 1;
    }
    proof {
        lemma_bb_of_bits(|k: int| bishop_mask_bit(square as int, k));
        lemma_bits_eq(mask, bishop_mask(square as int));
    }
    mask
}

/// Casts one attack ray from the given coordinates, stopping at (and
/// including) the first square held by `blockers`, or the board edge.
fn cast_ray(r: i32, f: i32, dr: i32, df: i32, blockers: u64, fuel: u32) -> (out: u64)
    requires
        0 <= r < 8,
        0 <= f < 8,
        -1 <= dr <= 1,
        -1 <= df <= 1,
        fuel <= 7,
    ensures
        out == ray_attacks(r as int, f as int, dr as int, df as int, blockers, fuel as nat),
    decreases fuel,
{
    if fuel == 0 {
        return 0;
    }
    let r1 = r + dr;
    let f1 = f + df;
    if !(0 <= r1 && r1 < 8 && 0 <= f1 && f1 < 8) {
        return 0;
    }
    let sq = (r1 * 8 + f1) as u8;
    proof {
        lemma_coords_square(r1 as int, f1 as int);
    }
    let bit = 1u64 << (sq as u64);
    proof {
        crate::bits::lemma_and_identities();
    }
    if test_bit(blockers, sq) {
        bit
    } else {
        bit | cast_ray(r1, f1, dr, df, blockers, fuel - 1)
    }
}

/// Computes the rook attack set for a square and blocker configuration by
/// ray casting: the ground truth the magic tables are checked against.
pub fn compute_rook_attacks(square: usize, blockers: u64) -> (r: u64)
    requires
        square < 64,
    ensures
        r == rook_attacks(square as int, blockers),
{
    proof {
        lemma_square_coords(square as int);
    }
    let rank = (square / 8) as i32;
    let file = (square % 8) as i32;
    ((cast_ray(rank, file, 1, 0, blockers, 7) | cast_ray(rank, file, -1, 0, blockers, 7)) | cast_ray(
        rank,
        file,
        0,
        1,
        blockers,
        7,
    )) | cast_ray(rank, file, 0, -1, blockers, 7)
}

/// Computes the bishop attack set for a square and blocker configuration by
/// ray casting: the ground truth the magic tables are checked against.
pub fn compute_bishop_attacks(square: usize, blockers: u64) -> (r: u64)
    requires
        square < 64,
    ensures
        r == bishop_attacks(square as int, blockers),
{
    proof {
        lemma_square_coords(square as int);
    }
    let rank = (square / 8) as i32;
    let file = (square % 8) as i32;
    ((cast_ray(rank, file, 1, 1, blockers, 7) | cast_ray(rank, file, 1, -1, blockers, 7)) | cast_ray(
        rank,
        file,
        -1,
        1,
        blockers,
        7,
    )) | cast_ray(rank, file, -1, -1, blockers, 7)
}

/// The next subset of `m` after `b` in increasing numeric order: adding one
/// ripples the carry through the bits outside the mask.
fn next_subset(b: u64, m: u64) -> (r: u64)
    requires
        b & m == b,
        b != m,
    ensures
        r & m == r,
        b < r,
        forall|t: u64| #![trigger t & m] t & m == t && t > b ==> t >= r,
{
    proof {
        lemma_next_subset_step(b, m);
        assert forall|t: u64| #![trigger t & m] t & m == t && t > b implies t >= ((b | !m) + 1)
            as u64 & m by {
            lemma_next_subset_least(b, m, t);
        }
    }
    ((b | !m) + 1) & m
}

proof fn lemma_next_subset_step(b: u64, m: u64)
    requires
        b & m == b,
        b != m,
    ensures
        (b | !m) < 0xFFFF_FFFF_FFFF_FFFFu64,
        (((b | !m) + 1) as u64 & m) & m == ((b | !m) + 1) as u64 & m,
        b < ((b | !m) + 1) as u64 & m,
{
    assert(b & m == b && b != m ==> (b | !m) < 0xFFFF_FFFF_FFFF_FFFFu64 && ((((b | !m) + 1) as u64
        & m) & m == ((b | !m) + 1) as u64 & m) && b < ((b | !m) + 1) as u64 & m) by (bit_vector);
}

proof fn lemma_next_subset_least(b: u64, m: u64, t: u64)
    requires
        b & m == b,
        b != m,
        t & m == t,
        t > b,
    ensures
        t >= ((b | !m) + 1) as u64 & m,
{
    assert(b & m == b && b != m && t & m == t && t > b ==> t >= ((b | !m) + 1) as u64 & m)
        by (bit_vector);
}

/// Every subset of a mask is at most the mask.
proof fn lemma_subset_le(b: u64, m: u64)
    requires
        b & m == b,
    ensures
        b <= m,
{
    assert(b & m == b ==> b <= m) by (bit_vector);
}

/// A shifted index stays below the table length `1 << (64 - shift)`.
proof fn lemma_magic_index_bound(x: u64, shift: u64)
    requires
        1 <= shift < 64,
    ensures
        x >> shift < 1u64 << ((64 - shift) as u64),
{
    assert(1 <= shift < 64 ==> x >> shift < 1u64 << ((64 - shift) as u64)) by (bit_vector);
}


/// The baked-in rook magic multiplier of square `s`.
pub open spec fn rook_magic(s: int) -> u64 {
    if s == 0 {
        0x8180024000805020
    } else if s == 1 {
        0x40100440022004
    } else if s == 2 {
        0x802a1000200080
    } else if s == 3 {
        0x8180080010000480
    } else if s == 4 {
        0x1200100884204a00
    } else if s == 5 {
        0x200100200090408
    } else if s == 6 {
        0x400024c09009008
    } else if s == 7 {
        0x80108000402300
    } else if s == 8 {
        0x800440026288
    } else if s == 9 {
        0x220500400c210080
    } else if s == 10 {
        0x110802000841002
    } else if s == 11 {
        0x4003005000082100
    } else if s == 12 {
        0xd004808008005400
    } else if s == 13 {
        0x8822001014080200
    } else if s == 14 {
        0x4002000822000495
    } else if s == 15 {
        0x8002c0802100
    } else if s == 16 {
        0x41010020c88000
    } else if s == 17 {
        0x301010040008020
    } else if s == 18 {
        0x2130020004100
    } else if s == 19 {
        0x1010018201002
    } else if s == 20 {
        0x1820808004001800
    } else if s == 21 {
        0x2010080110044060
    } else if s == 22 {
        0x48208400b0010208
    } else if s == 23 {
        0x20009108044
    } else if s == 24 {
        0x842180004001
    } else if s == 25 {
        0x203200040100240
    } else if s == 26 {
        0xe00080300080
    } else if s == 27 {
        0x100080080081
    } else if s == 28 {
        0x45110100142800
    } else if s == 29 {
        0x1002000a00283004
    } else if s == 30 {
        0x430424400100908
    } else if s == 31 {
        0x2611c200040081
    } else if s == 32 {
        0x24224003800080
    } else if s == 33 {
        0x780c10e002204
    } else if s == 34 {
        0x1812044052002080
    } else if s == 35 {
        0x408080080803000
    } else if s == 36 {
        0x204000482800800
    } else if s == 37 {
        0xa0a2c0080800600
    } else if s == 38 {
        0x221003411000a00
    } else if s == 39 {
        0xb0881008200005c
    } else if s == 40 {
        0x3015401024808000
    } else if s == 41 {
        0x4033020140820020
    } else if s == 42 {
        0x11002005130040
    } else if s == 43 {
        0x10000804004040
    } else if s == 44 {
        0x4201000408010012
    } else if s == 45 {
        0x210024001b0008
    } else if s == 46 {
        0x220850440009
    } else if s == 47 {
        0x100044008a0001
    } else if s == 48 {
        0x2c00800025400080
    } else if s == 49 {
        0x850421084210200
    } else if s == 50 {
        0x41000908a200180
    } else if s == 51 {
        0x1238021000088180
    } else if s == 52 {
        0x24008000c008080
    } else if s == 53 {
        0x102000910240200
    } else if s == 54 {
        0x1e00810608100400
    } else if s == 55 {
        0x100142a1040200
    } else if s == 56 {
        0x221001200c482
    } else if s == 57 {
        0x2a2011109614082
    } else if s == 58 {
        0x4200148704501
    } else if s == 59 {
        0x136100e8900005
    } else if s == 60 {
        0x1200e008100402
    } else if s == 61 {
        0x401000204000801
    } else if s == 62 {
        0x4058a0300903824
    } else {
        0x1100040060804d02
    }
}

/// The baked-in bishop magic multiplier of square `s`.
pub open spec fn bishop_magic(s: int) -> u64 {
    if s == 0 {
        0x2086a1800440088
    } else if s == 1 {
        0x61480a0404003010
    } else if s == 2 {
        0x892080200220002
    } else if s == 3 {
        0x1028208020252000
    } else if s == 4 {
        0x202021004800400
    } else if s == 5 {
        0x82084404000080
    } else if s == 6 {
        0x220c04461a900080
    } else if s == 7 {
        0x812020200820800
    } else if s == 8 {
        0x29041004110408
    } else if s == 9 {
        0x8202820408120040
    } else if s == 10 {
        0x83a0110404004000
    } else if s == 11 {
        0x401440404824200
    } else if s == 12 {
        0x40140414600a0020
    } else if s == 13 {
        0x19040201102a8000
    } else if s == 14 {
        0x2880412382104100
    } else if s == 15 {
        0x1408004108011184
    } else if s == 16 {
        0x120100c20020a40
    } else if s == 17 {
        0x4484c4202041420
    } else if s == 18 {
        0x4481008420040
    } else if s == 19 {
        0x800280080a004000
    } else if s == 20 {
        0x808400a05000
    } else if s == 21 {
        0x408080280900800
    } else if s == 22 {
        0x1040880882012
    } else if s == 23 {
        0x1d000088809010
    } else if s == 24 {
        0x18600440140110
    } else if s == 25 {
        0x10082000082a2080
    } else if s == 26 {
        0x2030008080020
    } else if s == 27 {
        0x4004000a01a018
    } else if s == 28 {
        0x2209001201004001
    } else if s == 29 {
        0x2210040804828400
    } else if s == 30 {
        0x208220089030102
    } else if s == 31 {
        0x10b2504004820800
    } else if s == 32 {
        0x900820400802a0
    } else if s == 33 {
        0xc088014801100208
    } else if s == 34 {
        0x1092240100100904
    } else if s == 35 {
        0x20040101500900
    } else if s == 36 {
        0x40044100211100
    } else if s == 37 {
        0xa09004201510100
    } else if s == 38 {
        0x4001810500040c00
    } else if s == 39 {
        0x8802008040a0a2
    } else if s == 40 {
        0x88111110c120500c
    } else if s == 41 {
        0x412ac1008000208
    } else if s == 42 {
        0x2041402000c00
    } else if s == 43 {
        0xb028002011080800
    } else if s == 44 {
        0x8204a4000200
    } else if s == 45 {
        0x801200881000184
    } else if s == 46 {
        0x208380080820410
    } else if s == 47 {
        0x48883100214040
    } else if s == 48 {
        0x29889010118000
    } else if s == 49 {
        0x402a0841c200002
    } else if s == 50 {
        0x1066420506882520
    } else if s == 51 {
        0x4a40026084240274
    } else if s == 52 {
        0x40805012020006
    } else if s == 53 {
        0x130d240d88120000
    } else if s == 54 {
        0x4c081001121000
    } else if s == 55 {
        0x8201820a0808244
    } else if s == 56 {
        0x200104410088800
    } else if s == 57 {
        0xa000310308822004
    } else if s == 58 {
        0x2021802252009000
    } else if s == 59 {
        0x804822400208800
    } else if s == 60 {
        0x81000012220200
    } else if s == 61 {
        0x82020061492
    } else if s == 62 {
        0x10469a501b280101
    } else {
        0x448100400440120
    }
}

/// The baked-in rook magic multiplier of the given square.
fn rook_magic_for(square: usize) -> (r: u64)
    requires
        square < 64,
    ensures
        r == rook_magic(square as int),
{
    match square {
        0 => 0x8180024000805020,
        1 => 0x40100440022004,
        2 => 0x802a1000200080,
        3 => 0x8180080010000480,
        4 => 0x1200100884204a00,
        5 => 0x200100200090408,
        6 => 0x400024c09009008,
        7 => 0x80108000402300,
        8 => 0x800440026288,
        9 => 0x220500400c210080,
        10 => 0x110802000841002,
        11 => 0x4003005000082100,
        12 => 0xd004808008005400,
        13 => 0x8822001014080200,
        14 => 0x4002000822000495,
        15 => 0x8002c0802100,
        16 => 0x41010020c88000,
        17 => 0x301010040008020,
        18 => 0x2130020004100,
        19 => 0x1010018201002,
        20 => 0x1820808004001800,
        21 => 0x2010080110044060,
        22 => 0x48208400b0010208,
        23 => 0x20009108044,
        24 => 0x842180004001,
        25 => 0x203200040100240,
        26 => 0xe00080300080,
        27 => 0x100080080081,
        28 => 0x45110100142800,
        29 => 0x1002000a00283004,
        30 => 0x430424400100908,
        31 => 0x2611c200040081,
        32 => 0x24224003800080,
        33 => 0x780c10e002204,
        34 => 0x1812044052002080,
        35 => 0x408080080803000,
        36 => 0x204000482800800,
        37 => 0xa0a2c0080800600,
        38 => 0x221003411000a00,
        39 => 0xb0881008200005c,
        40 => 0x3015401024808000,
        41 => 0x4033020140820020,
        42 => 0x11002005130040,
        43 => 0x10000804004040,
        44 => 0x4201000408010012,
        45 => 0x210024001b0008,
        46 => 0x220850440009,
        47 => 0x100044008a0001,
        48 => 0x2c00800025400080,
        49 => 0x850421084210200,
        50 => 0x41000908a200180,
        51 => 0x1238021000088180,
        52 => 0x24008000c008080,
        53 => 0x102000910240200,
        54 => 0x1e00810608100400,
        55 => 0x100142a1040200,
        56 => 0x221001200c482,
        57 => 0x2a2011109614082,
        58 => 0x4200148704501,
        59 => 0x136100e8900005,
        60 => 0x1200e008100402,
        61 => 0x401000204000801,
        62 => 0x4058a0300903824,
        _ => 0x1100040060804d02,
    }
}

/// The baked-in bishop magic multiplier of the given square.
fn bishop_magic_for(square: usize) -> (r: u64)
    requires
        square < 64,
    ensures
        r == bishop_magic(square as int),
{
    match square {
        0 => 0x2086a1800440088,
        1 => 0x61480a0404003010,
        2 => 0x892080200220002,
        3 => 0x1028208020252000,
        4 => 0x202021004800400,
        5 => 0x82084404000080,
        6 => 0x220c04461a900080,
        7 => 0x812020200820800,
        8 => 0x29041004110408,
        9 => 0x8202820408120040,
        10 => 0x83a0110404004000,
        11 => 0x401440404824200,
        12 => 0x40140414600a0020,
        13 => 0x19040201102a8000,
        14 => 0x2880412382104100,
        15 => 0x1408004108011184,
        16 => 0x120100c20020a40,
        17 => 0x4484c4202041420,
        18 => 0x4481008420040,
        19 => 0x800280080a004000,
        20 => 0x808400a05000,
        21 => 0x408080280900800,
        22 => 0x1040880882012,
        23 => 0x1d000088809010,
        24 => 0x18600440140110,
        25 => 0x10082000082a2080,
        26 => 0x2030008080020,
        27 => 0x4004000a01a018,
        28 => 0x2209001201004001,
        29 => 0x2210040804828400,
        30 => 0x208220089030102,
        31 => 0x10b2504004820800,
        32 => 0x900820400802a0,
        33 => 0xc088014801100208,
        34 => 0x1092240100100904,
        35 => 0x20040101500900,
        36 => 0x40044100211100,
        37 => 0xa09004201510100,
        38 => 0x4001810500040c00,
        39 => 0x8802008040a0a2,
        40 => 0x88111110c120500c,
        41 => 0x412ac1008000208,
        42 => 0x2041402000c00,
        43 => 0xb028002011080800,
        44 => 0x8204a4000200,
        45 => 0x801200881000184,
        46 => 0x208380080820410,
        47 => 0x48883100214040,
        48 => 0x29889010118000,
        49 => 0x402a0841c200002,
        50 => 0x1066420506882520,
        51 => 0x4a40026084240274,
        52 => 0x40805012020006,
        53 => 0x130d240d88120000,
        54 => 0x4c081001121000,
        55 => 0x8201820a0808244,
        56 => 0x200104410088800,
        57 => 0xa000310308822004,
        58 => 0x2021802252009000,
        59 => 0x804822400208800,
        60 => 0x81000012220200,
        61 => 0x82020061492,
        62 => 0x10469a501b280101,
        _ => 0x448100400440120,
    }
}

/// The baked-in rook magic multipliers, one per square.
fn rook_magic_numbers() -> (r: Vec<u64>)
    ensures
        r.len() == 64,
        forall|s: int| 0 <= s < 64 ==> r@[s] == #[trigger] rook_magic(s),
{
    let mut v: Vec<u64> = Vec::new();
    let mut s: usize = 0;
    while s < 64
        invariant
            s <= 64,
            v.len() == s,
            forall|k: int| 0 <= k < s ==> v@[k] == #[trigger] rook_magic(k),
        decreases 64 - s,
    {
        v.push(rook_magic_for(s));
        s = s + 1;
    }
    v
}

/// The baked-in bishop magic multipliers, one per square.
fn bishop_magic_numbers() -> (r: Vec<u64>)
    ensures
        r.len() == 64,
        forall|s: int| 0 <= s < 64 ==> r@[s] == #[trigger] bishop_magic(s),
{
    let mut v: Vec<u64> = Vec::new();
    let mut s: usize = 0;
    while s < 64
        invariant
            s <= 64,
            v.len() == s,
            forall|k: int| 0 <= k < s ==> v@[k] == #[trigger] bishop_magic(k),
        decreases 64 - s,
    {
        v.push(bishop_magic_for(s));
        s = s + 1;
    }
    v
}

/// Fills a fresh attack table: walks every subset of the mask with the
/// carry-ripple trick and stores its ray-cast attack set at the index the
/// magic product selects. Two colliding subsets overwrite one another, so
/// the table is correct for every subset whenever the multiplier serves
/// the square — colliding subsets then agree on their attack set.
#[verifier::spinoff_prover]
fn fill_attack_table(square: usize, magic: u64, rook: bool, mask: u64, shift: u64, table_len: usize) -> (attacks: Vec<
    u64,
>)
    requires
        square < 64,
        48 <= shift < 64,
        shift == mask_shift(square as int, rook),
        mask == slider_mask(square as int, rook),
        table_len <= 65536,
        table_len as u64 == 1u64 << ((64 - shift) as u64),
    ensures
        attacks.len() == table_len,
        magic_serves(magic, square as int, rook) ==> (forall|t: u64|
            #![trigger magic_index(t, magic, shift)]
            t & mask == t ==> attacks@[magic_index(t, magic, shift) as int] == slider_attacks(
                square as int,
                t,
                rook,
            )),
{
    let mut attacks: Vec<u64> = Vec::new();
    let mut i: usize = 0;
    while i < table_len
        invariant
            attacks.len() == i,
            i <= table_len,
        decreases table_len - i,
    {
        attacks.push(0);
        i = i + 1;
    }
    proof {
        crate::bits::lemma_and_identities();
    }
    let mut blockers: u64 = 0;
    loop
        invariant
            square < 64,
            48 <= shift < 64,
            shift == mask_shift(square as int, rook),
            mask == slider_mask(square as int, rook),
            attacks.len() == table_len,
            table_len <= 65536,
            table_len as u64 == 1u64 << ((64 - shift) as u64),
            blockers & mask == blockers,
            magic_serves(magic, square as int, rook) ==> (forall|t: u64|
                #![trigger magic_index(t, magic, shift)]
                t & mask == t && t < blockers ==> attacks@[magic_index(t, magic, shift) as int]
                    == slider_attacks(square as int, t, rook)),
        ensures
            attacks.len() == table_len,
            magic_serves(magic, square as int, rook) ==> (forall|t: u64|
                #![trigger magic_index(t, magic, shift)]
                t & mask == t ==> attacks@[magic_index(t, magic, shift) as int] == slider_attacks(
                    square as int,
                    t,
                    rook,
                )),
        decreases mask - blockers,
    {
        let idx = (blockers.wrapping_mul(magic) >> shift) as usize;
        proof {
            lemma_magic_index_bound(vstd::wrapping::u64_specs::wrapping_mul(blockers, magic), shift);
            assert(idx as u64 == magic_index(blockers, magic, shift));
        }
        let truth = if rook {
            compute_rook_attacks(square, blockers)
        } else {
            compute_bishop_attacks(square, blockers)
        };
        let ghost pre = attacks@;
        attacks.set(idx, truth);
        proof {
            if magic_serves(magic, square as int, rook) {
                assert forall|t: u64| t & mask == t && t <= blockers implies attacks@[magic_index(
                    t,
                    magic,
                    shift,
                ) as int] == slider_attacks(square as int, t, rook) by {
                    lemma_magic_index_bound(
                        vstd::wrapping::u64_specs::wrapping_mul(t, magic),
                        shift,
                    );
                    if magic_index(t, magic, shift) == idx as u64 {
                        assert(magic_index(t, magic, mask_shift(square as int, rook))
                            == magic_index(blockers, magic, mask_shift(square as int, rook)));
                        assert(slider_attacks(square as int, t, rook) == slider_attacks(
                            square as int,
                            blockers,
                            rook,
                        ));
                        assert(attacks@[idx as int] == slider_attacks(square as int, t, rook));
                    } else {
                        assert(attacks@[magic_index(t, magic, shift) as int] == pre[magic_index(
                            t,
                            magic,
                            shift,
                        ) as int]);
                    }
                }
            }
        }
        if blockers == mask {
            proof {
                assert forall|t: u64| t & mask == t implies t <= blockers by {
                    lemma_subset_le(t, mask);
                }
            }
            break;
        }
        let next = next_subset(blockers, mask);
        proof {
            assert forall|t: u64| t & mask == t && t < next implies t <= blockers by {
                if t > blockers {
                    assert(t >= next);
                }
            }
            lemma_subset_le(next, mask);
        }
        blockers = next;
    }
    attacks
}

/// Checks a filled attack table against the ray-cast ground truth over
/// every subset of the mask. On success the table answers every masked
/// occupancy correctly and the multiplier serves the square; a mismatch
/// refutes the fill pass's guarantee, so the multiplier does not serve it.
#[verifier::spinoff_prover]
fn check_attack_table(
    square: usize,
    magic: u64,
    rook: bool,
    mask: u64,
    shift: u64,
    attacks: &Vec<u64>,
) -> (ok: bool)
    requires
        square < 64,
        48 <= shift < 64,
        shift == mask_shift(square as int, rook),
        mask == slider_mask(square as int, rook),
        attacks.len() <= 65536,
        attacks.len() as u64 == 1u64 << ((64 - shift) as u64),
        magic_serves(magic, square as int, rook) ==> (forall|t: u64|
            #![trigger magic_index(t, magic, shift)]
            t & mask == t ==> attacks@[magic_index(t, magic, shift) as int] == slider_attacks(
                square as int,
                t,
                rook,
            )),
    ensures
        ok == magic_serves(magic, square as int, rook),
        ok ==> forall|t: u64|
            #![trigger magic_index(t, magic, shift)]
            t & mask == t ==> attacks@[magic_index(t, magic, shift) as int] == slider_attacks(
                square as int,
                t,
                rook,
            ),
{
    proof {
        crate::bits::lemma_and_identities();
    }
    let mut blockers: u64 = 0;
    loop
        invariant
            square < 64,
            48 <= shift < 64,
            shift == mask_shift(square as int, rook),
            mask == slider_mask(square as int, rook),
            attacks.len() <= 65536,
            attacks.len() as u64 == 1u64 << ((64 - shift) as u64),
            blockers & mask == blockers,
            magic_serves(magic, square as int, rook) ==> (forall|t: u64|
                #![trigger magic_index(t, magic, shift)]
                t & mask == t ==> attacks@[magic_index(t, magic, shift) as int] == slider_attacks(
                    square as int,
                    t,
                    rook,
                )),
            forall|t: u64|
                #![trigger magic_index(t, magic, shift)]
                t & mask == t && t < blockers ==> attacks@[magic_index(t, magic, shift) as int]
                    == slider_attacks(square as int, t, rook),
        ensures
            forall|t: u64|
                #![trigger magic_index(t, magic, shift)]
                t & mask == t ==> attacks@[magic_index(t, magic, shift) as int] == slider_attacks(
                    square as int,
                    t,
                    rook,
                ),
        decreases mask - blockers,
    {
        let idx = (blockers.wrapping_mul(magic) >> shift) as usize;
        proof {
            lemma_magic_index_bound(vstd::wrapping::u64_specs::wrapping_mul(blockers, magic), shift);
            assert(idx as u64 == magic_index(blockers, magic, shift));
        }
        let truth = if rook {
            compute_rook_attacks(square, blockers)
        } else {
            compute_bishop_attacks(square, blockers)
        };
        if attacks[idx] != truth {
            proof {
                assert(!magic_serves(magic, square as int, rook)) by {
                    if magic_serves(magic, square as int, rook) {
                        assert(attacks@[magic_index(blockers, magic, shift) as int]
                            == slider_attacks(square as int, blockers, rook));
                    }
                }
            }
            return false;
        }
        if blockers == mask {
            proof {
                assert forall|t: u64| t & mask == t implies attacks@[magic_index(t, magic, shift) as int]
                    == slider_attacks(square as int, t, rook) by {
                    lemma_subset_le(t, mask);
                }
            }
            break;
        }
        let next = next_subset(blockers, mask);
        proof {
            assert forall|t: u64| t & mask == t && t < next implies attacks@[magic_index(
                t,
                magic,
                shift,
            ) as int] == slider_attacks(square as int, t, rook) by {
                if t > blockers {
                    assert(t >= next);
                }
            }
            lemma_subset_le(next, mask);
        }
        blockers = next;
    }
    proof {
        assert forall|b1: u64, b2: u64|
            b1 & slider_mask(square as int, rook) == b1 && b2 & slider_mask(square as int, rook)
                == b2 && #[trigger] magic_index(b1, magic, mask_shift(square as int, rook))
                == #[trigger] magic_index(b2, magic, mask_shift(square as int, rook)) implies
            slider_attacks(square as int, b1, rook) == slider_attacks(square as int, b2, rook) by {
            assert(attacks@[magic_index(b1, magic, shift) as int] == slider_attacks(
                square as int,
                b1,
                rook,
            ));
            assert(attacks@[magic_index(b2, magic, shift) as int] == slider_attacks(
                square as int,
                b2,
                rook,
            ));
        }
        assert(magic_serves(magic, square as int, rook));
    }
    true
}

/// Builds and exhaustively checks one square's magic entry: fills the table
/// from the ray-cast ground truth over every subset of the mask, then walks
/// the subsets once more comparing the lookup against the ground truth, so
/// a returned entry is correct for every masked occupancy. Succeeds exactly
/// when the multiplier serves the square (`magic_builds`).
fn build_magic_entry(square: usize, magic: u64, rook: bool) -> (r: Option<MagicInfo>)
    requires
        square < 64,
    ensures
        r matches Some(e) ==> e.wf_for(square as int, rook),
        r is Some <==> magic_builds(magic, square as int, rook),
{
    let mask = if rook {
        compute_rook_mask(square)
    } else {
        compute_bishop_mask(square)
    };
    let popcnt = mask.count_set_bits();
    if popcnt == 0 || popcnt > 16 {
        return None;
    }
    let shift: u64 = 64 - (popcnt as u64);
    let table_len: usize = 1usize << (popcnt as u64);
    proof {
        let p = popcnt as u64;
        assert(1 <= p <= 16 ==> ((1usize << p) as u64 == 1u64 << p && 1usize << p >= 1 && (1usize
            << p) <= 65536)) by (bit_vector);
        assert(table_len as u64 == 1u64 << ((64 - shift) as u64));
        assert(shift == mask_shift(square as int, rook));
    }
    let attacks = fill_attack_table(square, magic, rook, mask, shift, table_len);
    if !check_attack_table(square, magic, rook, mask, shift, &attacks) {
        return None;
    }
    Some(MagicInfo { magic, shift, mask, attacks })
}

/// The knight attack table: one fixed-offset attack set per square.
pub fn generate_knight_moves() -> (r: Vec<u64>)
    ensures
        r.len() == 64,
        forall|s: int| 0 <= s < 64 ==> r@[s] == #[trigger] knight_attacks(s),
{
    let mut table: Vec<u64> = Vec::new();
    let mut s: usize = 0;
    while s < 64
        invariant
            s <= 64,
            table.len() == s,
            forall|k: int| 0 <= k < s ==> table@[k] == #[trigger] knight_attacks(k),
        decreases 64 - s,
    {
        let mut bb: u64 = 0;
        let mut i: usize = 0;
        proof {
            lemma_bit_zero(bb);
        }
        while i < 64
            invariant
                i <= 64,
                s < 64,
                forall|k: int| #[trigger] bit_set(bb, k) <==> k < i && knight_attack_bit(s as int, k),
            decreases 64 - i,
        {
            let dr = (i / 8) as i32 - (s / 8) as i32;
            let df = (i % 8) as i32 - (s % 8) as i32;
            if ((dr == 2 || dr == -2) && (df == 1 || df == -1)) || ((dr == 1 || dr == -1) && (df
                == 2 || df == -2)) {
                proof {
                    crate::bits::lemma_bit_single(i as u64);
                    lemma_bit_or(bb, 1u64 << (i as u64));
                }
                bb = bb | (1u64 << (i as u64));
            }
            i = i + 1;
        }
        proof {
            lemma_bb_of_bits(|k: int| knight_attack_bit(s as int, k));
            lemma_bits_eq(bb, knight_attacks(s as int));
        }
        table.push(bb);
        s = s + 1;
    }
    table
}

/// The king attack table: one adjacent-square attack set per square.
pub fn generate_king_moves() -> (r: Vec<u64>)
    ensures
        r.len() == 64,
        forall|s: int| 0 <= s < 64 ==> r@[s] == #[trigger] king_attacks(s),
{
    let mut table: Vec<u64> = Vec::new();
    let mut s: usize = 0;
    while s < 64
        invariant
            s <= 64,
            table.len() == s,
            forall|k: int| 0 <= k < s ==> table@[k] == #[trigger] king_attacks(k),
        decreases 64 - s,
    {
        let mut bb: u64 = 0;
        let mut i: usize = 0;
        proof {
            lemma_bit_zero(bb);
        }
        while i < 64
            invariant
                i <= 64,
                s < 64,
                forall|k: int| #[trigger] bit_set(bb, k) <==> k < i && king_attack_bit(s as int, k),
            decreases 64 - i,
        {
            let dr = (i / 8) as i32 - (s / 8) as i32;
            let df = (i % 8) as i32 - (s % 8) as i32;
            if i != s && -1 <= dr && dr <= 1 && -1 <= df && df <= 1 {
                proof {
                    crate::bits::lemma_bit_single(i as u64);
                    lemma_bit_or(bb, 1u64 << (i as u64));
                }
                bb = bb | (1u64 << (i as u64));
            }
            i = i + 1;
        }
        proof {
            lemma_bb_of_bits(|k: int| king_attack_bit(s as int, k));
            lemma_bits_eq(bb, king_attacks(s as int));
        }
        table.push(bb);
        s = s + 1;
    }
    table
}

/// Exactly when the complete attack tables can be built: every square's
/// baked-in rook and bishop multiplier serves its square.
pub open spec fn tables_build() -> bool {
    forall|s: int|
        #![trigger magic_builds(rook_magic(s), s, true)]
        #![trigger magic_builds(bishop_magic(s), s, false)]
        0 <= s < 64 ==> magic_builds(rook_magic(s), s, true) && magic_builds(
            bishop_magic(s),
            s,
            false,
        )
}

/// Builds the complete attack tables: the magic rook and bishop tables for
/// all 64 squares, each exhaustively checked against the ray-cast ground
/// truth, and the knight and king offset tables. Succeeds exactly when
/// every baked-in magic multiplier passes its check — `None` names a bad
/// multiplier, never a bad input.
pub fn init_magic_info() -> (r: Option<AttackTables>)
    ensures
        r matches Some(t) ==> t.wf(),
        r is Some <==> tables_build(),
{
    let rook_magics = rook_magic_numbers();
    let bishop_magics = bishop_magic_numbers();
    let mut rook: Vec<MagicInfo> = Vec::new();
    let mut s: usize = 0;
    while s < 64
        invariant
            s <= 64,
            rook.len() == s,
            rook_magics.len() == 64,
            bishop_magics.len() == 64,
            forall|k: int| 0 <= k < 64 ==> rook_magics@[k] == #[trigger] rook_magic(k),
            forall|k: int| 0 <= k < 64 ==> bishop_magics@[k] == #[trigger] bishop_magic(k),
            forall|k: int| 0 <= k < s ==> (#[trigger] rook@[k]).wf_for(k, true),
            forall|k: int| 0 <= k < s ==> #[trigger] magic_builds(rook_magic(k), k, true),
        decreases 64 - s,
    {
        match build_magic_entry(s, rook_magics[s], true) {
            Some(e) => rook.push(e),
            None => {
                proof {
                    assert(!magic_builds(rook_magic(s as int), s as int, true));
                }
                return None;
            },
        }
        s = s + 1;
    }
    let mut bishop: Vec<MagicInfo> = Vec::new();
    let mut s: usize = 0;
    while s < 64
        invariant
            s <= 64,
            bishop.len() == s,
            bishop_magics.len() == 64,
            rook.len() == 64,
            forall|k: int| 0 <= k < 64 ==> bishop_magics@[k] == #[trigger] bishop_magic(k),
            forall|k: int| 0 <= k < 64 ==> (#[trigger] rook@[k]).wf_for(k, true),
            forall|k: int| 0 <= k < 64 ==> #[trigger] magic_builds(rook_magic(k), k, true),
            forall|k: int| 0 <= k < s ==> (#[trigger] bishop@[k]).wf_for(k, false),
            forall|k: int| 0 <= k < s ==> #[trigger] magic_builds(bishop_magic(k), k, false),
        decreases 64 - s,
    {
        match build_magic_entry(s, bishop_magics[s], false) {
            Some(e) => bishop.push(e),
            None => {
                proof {
                    assert(!magic_builds(bishop_magic(s as int), s as int, false));
                }
                return None;
            },
        }
        s = s + 1;
    }
    let knight = generate_knight_moves();
    let king = generate_king_moves();
    Some(AttackTables { rook, bishop, knight, king })
}

/// The squares a knight on `square` may move to, own-occupied squares
/// excluded.
pub fn get_knight_moves_bb(tables: &AttackTables, square: u8, friendly_occ: u64) -> (r: u64)
    requires
        tables.wf(),
        square < 64,
    ensures
        r == knight_attacks(square as int) & !friendly_occ,
{
    tables.knight[square as usize] & !friendly_occ
}

/// The squares a king on `square` may move to, own-occupied squares
/// excluded.
pub fn get_king_moves_bb(tables: &AttackTables, square: u8, friendly_occ: u64) -> (r: u64)
    requires
        tables.wf(),
        square < 64,
    ensures
        r == king_attacks(square as int) & !friendly_occ,
{
    tables.king[square as usize] & !friendly_occ
}

/// The squares a bishop on `square` attacks through the given occupancy:
/// the raw magic-table lookup of the masked combined occupancy, which by
/// `lemma_bishop_mask_irrelevant` equals the ray cast of the full
/// occupancy. The result depends on the two occupancy arguments only
/// through their union; a first blocker is included whichever color holds
/// it, and the move generator masks own-occupied destinations out.
pub fn get_bishop_moves_bb(tables: &AttackTables, square: u8, friendly_occ: u64, enemy_occ: u64) -> (r:
    u64)
    requires
        tables.wf(),
        square < 64,
    ensures
        r == bishop_attacks(square as int, (friendly_occ | enemy_occ) & bishop_mask(square as int)),
{
    let info = &tables.bishop[square as usize];
    let mask = info.mask;
    let magic = info.magic;
    let shift = info.shift;
    let blockers = (friendly_occ | enemy_occ) & mask;
    proof {
        crate::bits::lemma_and_identities();
        lemma_magic_index_bound(vstd::wrapping::u64_specs::wrapping_mul(blockers, magic), shift);
        assert(magic_index(blockers, magic, shift) == vstd::wrapping::u64_specs::wrapping_mul(
            blockers,
            magic,
        ) >> shift);
    }
    let idx = (blockers.wrapping_mul(magic) >> shift) as usize;
    info.attacks[idx]
}

/// The squares a rook on `square` attacks through the given occupancy:
/// the raw magic-table lookup of the masked combined occupancy, which by
/// `lemma_rook_mask_irrelevant` equals the ray cast of the full occupancy.
/// The result depends on the two occupancy arguments only through their
/// union; a first blocker is included whichever color holds it, and the
/// move generator masks own-occupied destinations out.
pub fn get_rook_moves_bb(tables: &AttackTables, square: u8, friendly_occ: u64, enemy_occ: u64) -> (r:
    u64)
    requires
        tables.wf(),
        square < 64,
    ensures
        r == rook_attacks(square as int, (friendly_occ | enemy_occ) & rook_mask(square as int)),
{
    let info = &tables.rook[square as usize];
    let mask = info.mask;
    let magic = info.magic;
    let shift = info.shift;
    let blockers = (friendly_occ | enemy_occ) & mask;
    proof {
        crate::bits::lemma_and_identities();
        lemma_magic_index_bound(vstd::wrapping::u64_specs::wrapping_mul(blockers, magic), shift);
        assert(magic_index(blockers, magic, shift) == vstd::wrapping::u64_specs::wrapping_mul(
            blockers,
            magic,
        ) >> shift);
    }
    let idx = (blockers.wrapping_mul(magic) >> shift) as usize;
    info.attacks[idx]
}

/// Whether (`r1`, `f1`) lies one or more steps from (`r`, `f`) along the
/// direction (`dr`, `df`).
spec fn aligned(r: int, f: int, dr: int, df: int, r1: int, f1: int) -> bool {
    &&& (r1 - r) * df == (f1 - f) * dr
    &&& (dr == 0 ==> r1 == r)
    &&& (dr == 1 ==> r1 > r)
    &&& (dr == -1 ==> r1 < r)
    &&& (df == 0 ==> f1 == f)
    &&& (df == 1 ==> f1 > f)
    &&& (df == -1 ==> f1 < f)
}

/// A ray reads the blockers only on its own squares, and never on the final
/// square of the board it can reach: two blocker sets that agree there cast
/// the same ray.
proof fn lemma_ray_blockers_agree(
    r: int,
    f: int,
    dr: int,
    df: int,
    b1: u64,
    b2: u64,
    fuel: nat,
)
    requires
        -1 <= dr <= 1,
        -1 <= df <= 1,
        forall|r1: int, f1: int|
            on_board(r1, f1) && on_board(r1 + dr, f1 + df) && #[trigger] aligned(
                r,
                f,
                dr,
                df,
                r1,
                f1,
            ) ==> bit_set(b1, square_at(r1, f1)) == bit_set(b2, square_at(r1, f1)),
    ensures
        ray_attacks(r, f, dr, df, b1, fuel) == ray_attacks(r, f, dr, df, b2, fuel),
    decreases fuel,
{
    if fuel > 0 {
        let ra = r + dr;
        let fa = f + df;
        if on_board(ra, fa) {
            if on_board(ra + dr, fa + df) {
                assert((ra - r) * df == (fa - f) * dr) by (nonlinear_arith)
                    requires
                        ra == r + dr && fa == f + df,
                ;
                assert(aligned(r, f, dr, df, ra, fa));
                assert forall|r1: int, f1: int|
                    on_board(r1, f1) && on_board(r1 + dr, f1 + df) && #[trigger] aligned(
                        ra,
                        fa,
                        dr,
                        df,
                        r1,
                        f1,
                    ) implies bit_set(b1, square_at(r1, f1)) == bit_set(
                    b2,
                    square_at(r1, f1),
                ) by {
                    assert((r1 - r) * df == (f1 - f) * dr) by (nonlinear_arith)
                        requires
                            (r1 - ra) * df == (f1 - fa) * dr && ra == r + dr && fa == f + df,
                    ;
                    assert(aligned(r, f, dr, df, r1, f1));
                }
                lemma_ray_blockers_agree(ra, fa, dr, df, b1, b2, (fuel - 1) as nat);
            } else {
                crate::bits::lemma_and_identities();
                assert(ray_attacks(ra, fa, dr, df, b1, (fuel - 1) as nat) == 0);
                assert(ray_attacks(ra, fa, dr, df, b2, (fuel - 1) as nat) == 0);
            }
        }
    }
}

/// Every square of a ray lies on the ray's line: it is aligned with the
/// ray's origin along the ray's direction.
proof fn lemma_ray_on_line(r: int, f: int, dr: int, df: int, b: u64, fuel: nat, q: int)
    requires
        -1 <= dr <= 1,
        -1 <= df <= 1,
        bit_set(ray_attacks(r, f, dr, df, b, fuel), q),
    ensures
        aligned(r, f, dr, df, rank_of(q), file_of(q)),
    decreases fuel,
{
    if fuel == 0 {
        lemma_bit_zero(ray_attacks(r, f, dr, df, b, fuel));
    } else {
        let r1 = r + dr;
        let f1 = f + df;
        if !on_board(r1, f1) {
            lemma_bit_zero(ray_attacks(r, f, dr, df, b, fuel));
        } else {
            let sq1 = square_at(r1, f1);
            let rest: u64 = if bit_set(b, sq1) {
                0
            } else {
                ray_attacks(r1, f1, dr, df, b, (fuel - 1) as nat)
            };
            lemma_coords_square(r1, f1);
            lemma_bit_or(1u64 << (sq1 as u64), rest);
            lemma_bit_single(sq1 as u64);
            assert((r1 - r) * df == (f1 - f) * dr) by (nonlinear_arith)
                requires
                    r1 == r + dr && f1 == f + df,
            ;
            if q == sq1 {
                assert(aligned(r, f, dr, df, rank_of(q), file_of(q)));
            } else {
                if bit_set(b, sq1) {
                    lemma_bit_zero(rest);
                }
                lemma_ray_on_line(r1, f1, dr, df, b, (fuel - 1) as nat, q);
                let rq = rank_of(q);
                let fq = file_of(q);
                assert((rq - r) * df == (fq - f) * dr) by (nonlinear_arith)
                    requires
                        (rq - r1) * df == (fq - f1) * dr && r1 == r + dr && f1 == f + df,
                ;
                assert(aligned(r, f, dr, df, rq, fq));
            }
        }
    }
}

/// No square is attacked both as a rook ray and as a bishop ray from the
/// same origin: rook rays stay on the origin's rank or file, bishop rays on
/// its diagonals, and the two kinds of line meet only at the origin itself.
pub proof fn lemma_rook_bishop_disjoint(s: int, b1: u64, b2: u64, q: int)
    requires
        0 <= s < 64,
    ensures
        !(bit_set(rook_attacks(s, b1), q) && bit_set(bishop_attacks(s, b2), q)),
{
    if !(bit_set(rook_attacks(s, b1), q) && bit_set(bishop_attacks(s, b2), q)) {
        return ;
    }
    lemma_square_coords(s);
    let r = rank_of(s);
    let f = file_of(s);
    let rq = rank_of(q);
    let fq = file_of(q);
    lemma_bit_or(
        ray_attacks(r, f, 1, 0, b1, 7) | ray_attacks(r, f, -1, 0, b1, 7) | ray_attacks(
            r,
            f,
            0,
            1,
            b1,
            7,
        ),
        ray_attacks(r, f, 0, -1, b1, 7),
    );
    lemma_bit_or(
        ray_attacks(r, f, 1, 0, b1, 7) | ray_attacks(r, f, -1, 0, b1, 7),
        ray_attacks(r, f, 0, 1, b1, 7),
    );
    lemma_bit_or(ray_attacks(r, f, 1, 0, b1, 7), ray_attacks(r, f, -1, 0, b1, 7));
    lemma_bit_or(
        ray_attacks(r, f, 1, 1, b2, 7) | ray_attacks(r, f, 1, -1, b2, 7) | ray_attacks(
            r,
            f,
            -1,
            1,
            b2,
            7,
        ),
        ray_attacks(r, f, -1, -1, b2, 7),
    );
    lemma_bit_or(
        ray_attacks(r, f, 1, 1, b2, 7) | ray_attacks(r, f, 1, -1, b2, 7),
        ray_attacks(r, f, -1, 1, b2, 7),
    );
    lemma_bit_or(ray_attacks(r, f, 1, 1, b2, 7), ray_attacks(r, f, 1, -1, b2, 7));
    if bit_set(ray_attacks(r, f, 1, 0, b1, 7), q) {
        lemma_ray_on_line(r, f, 1, 0, b1, 7, q);
    } else if bit_set(ray_attacks(r, f, -1, 0, b1, 7), q) {
        lemma_ray_on_line(r, f, -1, 0, b1, 7, q);
    } else if bit_set(ray_attacks(r, f, 0, 1, b1, 7), q) {
        lemma_ray_on_line(r, f, 0, 1, b1, 7, q);
    } else {
        lemma_ray_on_line(r, f, 0, -1, b1, 7, q);
    }
    assert(rq == r || fq == f);
    if bit_set(ray_attacks(r, f, 1, 1, b2, 7), q) {
        lemma_ray_on_line(r, f, 1, 1, b2, 7, q);
    } else if bit_set(ray_attacks(r, f, 1, -1, b2, 7), q) {
        lemma_ray_on_line(r, f, 1, -1, b2, 7, q);
    } else if bit_set(ray_attacks(r, f, -1, 1, b2, 7), q) {
        lemma_ray_on_line(r, f, -1, 1, b2, 7, q);
    } else {
        lemma_ray_on_line(r, f, -1, -1, b2, 7, q);
    }
}

/// Masking the occupancy to a rook's relevant mask never changes its attack
/// set: blockers outside the mask are either off the rook's lines or on the
/// final edge square of a ray, where the ray stops regardless.
pub proof fn lemma_rook_mask_irrelevant(s: int, occ: u64)
    requires
        0 <= s < 64,
    ensures
        rook_attacks(s, occ & rook_mask(s)) == rook_attacks(s, occ),
{
    lemma_square_coords(s);
    lemma_bb_of_bits(|i: int| rook_mask_bit(s, i));
    lemma_bit_and(occ, rook_mask(s));
    let r = rank_of(s);
    let f = file_of(s);
    assert forall|dr: int, df: int, r1: int, f1: int|
        (dr * dr) + (df * df) == 1 && -1 <= dr <= 1 && -1 <= df <= 1 && on_board(r1, f1)
            && on_board(r1 + dr, f1 + df) && #[trigger] aligned(r, f, dr, df, r1, f1) implies
        bit_set(occ, square_at(r1, f1)) == bit_set(occ & rook_mask(s), square_at(r1, f1)) by {
        lemma_coords_square(r1, f1);
        assert(r1 == r || f1 == f) by (nonlinear_arith)
            requires
                (r1 - r) * df == (f1 - f) * dr && (dr * dr) + (df * df) == 1 && (dr == 0 ==> r1
                    == r) && (df == 0 ==> f1 == f),
        ;
        assert(rook_mask_bit(s, square_at(r1, f1)));
        assert(bit_set(rook_mask(s), square_at(r1, f1)));
    }
    lemma_ray_blockers_agree(r, f, 1, 0, occ, occ & rook_mask(s), 7);
    lemma_ray_blockers_agree(r, f, -1, 0, occ, occ & rook_mask(s), 7);
    lemma_ray_blockers_agree(r, f, 0, 1, occ, occ & rook_mask(s), 7);
    lemma_ray_blockers_agree(r, f, 0, -1, occ, occ & rook_mask(s), 7);
}

/// Masking the occupancy to a bishop's relevant mask never changes its
/// attack set.
pub proof fn lemma_bishop_mask_irrelevant(s: int, occ: u64)
    requires
        0 <= s < 64,
    ensures
        bishop_attacks(s, occ & bishop_mask(s)) == bishop_attacks(s, occ),
{
    lemma_square_coords(s);
    lemma_bb_of_bits(|i: int| bishop_mask_bit(s, i));
    lemma_bit_and(occ, bishop_mask(s));
    let r = rank_of(s);
    let f = file_of(s);
    assert forall|dr: int, df: int, r1: int, f1: int|
        (dr == 1 || dr == -1) && (df == 1 || df == -1) && on_board(r1, f1) && on_board(
            r1 + dr,
            f1 + df,
        ) && #[trigger] aligned(r, f, dr, df, r1, f1) implies bit_set(occ, square_at(r1, f1))
        == bit_set(occ & bishop_mask(s), square_at(r1, f1)) by {
        lemma_coords_square(r1, f1);
        assert(r1 + f1 == r + f || r1 - f1 == r - f) by (nonlinear_arith)
            requires
                (r1 - r) * df == (f1 - f) * dr && (dr == 1 || dr == -1) && (df == 1 || df == -1),
        ;
        assert(r1 != r) by (nonlinear_arith)
            requires
                (r1 - r) * df == (f1 - f) * dr && (dr == 1 || dr == -1) && (df == 1 || df == -1)
                    && (dr == 1 ==> r1 > r) && (dr == -1 ==> r1 < r),
        ;
        assert(bishop_mask_bit(s, square_at(r1, f1)));
        assert(bit_set(bishop_mask(s), square_at(r1, f1)));
    }
    lemma_ray_blockers_agree(r, f, 1, 1, occ, occ & bishop_mask(s), 7);
    lemma_ray_blockers_agree(r, f, 1, -1, occ, occ & bishop_mask(s), 7);
    lemma_ray_blockers_agree(r, f, -1, 1, occ, occ & bishop_mask(s), 7);
    lemma_ray_blockers_agree(r, f, -1, -1, occ, occ & bishop_mask(s), 7);
}

} // verus!
