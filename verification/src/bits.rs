//! Bit-level primitives over 64-bit square sets.

use vstd::prelude::*;
use vstd::std_specs::bits::axiom_u64_trailing_zeros;
use vstd::std_specs::bits::u64_trailing_zeros;

verus! {

/// True when bit `i` of `bb` is set; false for any `i` outside [0, 64).
pub open spec fn bit_set(bb: u64, i: int) -> bool {
    0 <= i < 64 && (bb >> (i as u64)) & 1u64 == 1u64
}

/// Number of set bits of `bb` among the positions [0, n).
pub open spec fn popcount_upto(bb: u64, n: int) -> nat
    decreases n,
{
    if n <= 0 {
        0
    } else {
        popcount_upto(bb, n - 1) + (if bit_set(bb, n - 1) {
            1nat
        } else {
            0nat
        })
    }
}

/// Number of set bits of `bb`.
pub open spec fn popcount(bb: u64) -> nat {
    popcount_upto(bb, 64)
}

pub proof fn lemma_bit_or(a: u64, b: u64)
    ensures
        forall|i: int|
            #![trigger bit_set(a | b, i)]
            #![trigger bit_set(a, i), bit_set(b, i)]
            bit_set(a | b, i) <==> bit_set(a, i) || bit_set(b, i),
{
    assert forall|i: int|
        #![trigger bit_set(a | b, i)]
        #![trigger bit_set(a, i), bit_set(b, i)]
        bit_set(a | b, i) <==> bit_set(a, i) || bit_set(b, i) by {
        if 0 <= i < 64 {
            let j = i as u64;
            assert(j < 64 ==> (((a | b) >> j) & 1u64 == 1u64 <==> ((a >> j) & 1u64 == 1u64 || (b
                >> j) & 1u64 == 1u64))) by (bit_vector);
        }
    }
}

pub proof fn lemma_bit_and(a: u64, b: u64)
    ensures
        forall|i: int|
            #![trigger bit_set(a & b, i)]
            #![trigger bit_set(a, i), bit_set(b, i)]
            bit_set(a & b, i) <==> bit_set(a, i) && bit_set(b, i),
{
    assert forall|i: int|
        #![trigger bit_set(a & b, i)]
        #![trigger bit_set(a, i), bit_set(b, i)]
        bit_set(a & b, i) <==> bit_set(a, i) && bit_set(b, i) by {
        if 0 <= i < 64 {
            let j = i as u64;
            assert(j < 64 ==> (((a & b) >> j) & 1u64 == 1u64 <==> ((a >> j) & 1u64 == 1u64 && (b
                >> j) & 1u64 == 1u64))) by (bit_vector);
        }
    }
}

pub proof fn lemma_bit_xor(a: u64, b: u64)
    ensures
        forall|i: int|
            #![trigger bit_set(a ^ b, i)]
            #![trigger bit_set(a, i), bit_set(b, i)]
            bit_set(a ^ b, i) <==> (bit_set(a, i) != bit_set(b, i)),
{
    assert forall|i: int|
        #![trigger bit_set(a ^ b, i)]
        #![trigger bit_set(a, i), bit_set(b, i)]
        bit_set(a ^ b, i) <==> (bit_set(a, i) != bit_set(b, i)) by {
        if 0 <= i < 64 {
            let j = i as u64;
            assert(j < 64 ==> (((a ^ b) >> j) & 1u64 == 1u64 <==> ((a >> j) & 1u64 == 1u64 <==> !((b
                >> j) & 1u64 == 1u64)))) by (bit_vector);
        }
    }
}

pub proof fn lemma_bit_not(a: u64)
    ensures
        forall|i: int| 0 <= i < 64 ==> (#[trigger] bit_set(!a, i) <==> !bit_set(a, i)),
{
    assert forall|i: int| 0 <= i < 64 implies (#[trigger] bit_set(!a, i) <==> !bit_set(a, i)) by {
        let j = i as u64;
        assert(j < 64 ==> ((!a >> j) & 1u64 == 1u64 <==> !((a >> j) & 1u64 == 1u64)))
            by (bit_vector);
    }
}

/// The bitboard `1 << j` holds the single square `j`.
pub proof fn lemma_bit_single(j: u64)
    requires
        j < 64,
    ensures
        forall|i: int| #[trigger] bit_set(1u64 << j, i) <==> i == j,
{
    assert forall|i: int| #[trigger] bit_set(1u64 << j, i) <==> i == j by {
        if 0 <= i < 64 {
            let k = i as u64;
            assert(j < 64 && k < 64 ==> (((1u64 << j) >> k) & 1u64 == 1u64 <==> k == j))
                by (bit_vector);
        }
    }
}

pub proof fn lemma_bit_zero(x: u64)
    requires
        x == 0,
    ensures
        forall|i: int| !(#[trigger] bit_set(x, i)),
{
    assert forall|i: int| !(#[trigger] bit_set(x, i)) by {
        if 0 <= i < 64 {
            let j = i as u64;
            assert((0u64 >> j) & 1u64 == 0u64) by (bit_vector);
        }
    }
}

/// XOR on bitboards has 0 as its identity and is its own inverse.
pub proof fn lemma_xor_identities()
    by (bit_vector)
    ensures
        forall|x: u64| #[trigger] (x ^ 0u64) == x,
        forall|x: u64| #[trigger] (0u64 ^ x) == x,
        forall|x: u64| #[trigger] (x ^ x) == 0u64,
{
}

/// Masking is idempotent, AND is commutative, and 0 is the unit of OR and
/// the zero of AND.
pub proof fn lemma_and_identities()
    by (bit_vector)
    ensures
        forall|x: u64, m: u64| #[trigger] ((x & m) & m) == x & m,
        forall|x: u64, m: u64| #[trigger] (x & m) == m & x,
        forall|x: u64| #[trigger] (x & 0u64) == 0u64,
        forall|x: u64| #[trigger] (0u64 & x) == 0u64,
        forall|x: u64| #[trigger] (x | 0u64) == x,
        forall|x: u64| #[trigger] (0u64 | x) == x,
{
}

/// A bitboard with no set bit is zero.
pub proof fn lemma_no_bits_zero(x: u64)
    requires
        forall|i: int| !(#[trigger] bit_set(x, i)),
    ensures
        x == 0,
{
    if x != 0 {
        axiom_u64_trailing_zeros(x);
        let t = u64_trailing_zeros(x) as int;
        assert(bit_set(x, t));
    }
}

/// Two bitboards with the same set bits are equal.
pub proof fn lemma_bits_eq(a: u64, b: u64)
    requires
        forall|i: int| #[trigger] bit_set(a, i) <==> bit_set(b, i),
    ensures
        a == b,
{
    lemma_bit_xor(a, b);
    lemma_no_bits_zero(a ^ b);
    assert(a ^ b == 0);
    assert(a ^ b == 0 ==> a == b) by (bit_vector);
}

/// The rank (row, 0 through 7) of square `i`.
pub open spec fn rank_of(i: int) -> int {
    i / 8
}

/// The file (column, 0 through 7) of square `i`.
pub open spec fn file_of(i: int) -> int {
    i % 8
}

/// The square on rank `r` and file `f`.
pub open spec fn square_at(r: int, f: int) -> int {
    r * 8 + f
}

/// Whether rank `r` and file `f` name a square of the board.
pub open spec fn on_board(r: int, f: int) -> bool {
    0 <= r < 8 && 0 <= f < 8
}

/// A square's coordinates invert `square_at`, and lie on the board.
pub proof fn lemma_square_coords(i: int)
    requires
        0 <= i < 64,
    ensures
        on_board(rank_of(i), file_of(i)),
        square_at(rank_of(i), file_of(i)) == i,
{
    assert(i / 8 * 8 + i % 8 == i && 0 <= i / 8 < 8 && 0 <= i % 8 < 8) by (nonlinear_arith)
        requires
            0 <= i < 64,
    ;
}

/// `square_at` lands back on the given coordinates.
pub proof fn lemma_coords_square(r: int, f: int)
    requires
        on_board(r, f),
    ensures
        0 <= square_at(r, f) < 64,
        rank_of(square_at(r, f)) == r,
        file_of(square_at(r, f)) == f,
{
    assert(0 <= r * 8 + f < 64 && (r * 8 + f) / 8 == r && (r * 8 + f) % 8 == f)
        by (nonlinear_arith)
        requires
            0 <= r < 8 && 0 <= f < 8,
    ;
}

/// The bitboard holding exactly the squares below `n` that satisfy `pred`.
pub open spec fn bb_of_upto(pred: spec_fn(int) -> bool, n: int) -> u64
    decreases n,
{
    if n <= 0 {
        0
    } else {
        bb_of_upto(pred, n - 1) | (if pred(n - 1) {
            1u64 << ((n - 1) as u64)
        } else {
            0
        })
    }
}

/// The bitboard holding exactly the squares that satisfy `pred`.
pub open spec fn bb_of(pred: spec_fn(int) -> bool) -> u64 {
    bb_of_upto(pred, 64)
}

proof fn lemma_bb_of_upto_bits(pred: spec_fn(int) -> bool, n: int)
    requires
        0 <= n <= 64,
    ensures
        forall|i: int| #[trigger] bit_set(bb_of_upto(pred, n), i) <==> 0 <= i < n && pred(i),
    decreases n,
{
    if n > 0 {
        lemma_bb_of_upto_bits(pred, n - 1);
        if pred(n - 1) {
            lemma_bit_single((n - 1) as u64);
            lemma_bit_or(bb_of_upto(pred, n - 1), 1u64 << ((n - 1) as u64));
        } else {
            lemma_bit_zero(0u64);
            lemma_bit_or(bb_of_upto(pred, n - 1), 0u64);
        }
    } else {
        lemma_bit_zero(bb_of_upto(pred, 0));
    }
}

/// A square stands in `bb_of(pred)` exactly when it satisfies `pred`.
pub proof fn lemma_bb_of_bits(pred: spec_fn(int) -> bool)
    ensures
        forall|i: int| #[trigger] bit_set(bb_of(pred), i) <==> 0 <= i < 64 && pred(i),
{
    lemma_bb_of_upto_bits(pred, 64);
}

/// Whether square `i` of `bb` is set, as executable code.
pub fn test_bit(bb: u64, i: u8) -> (r: bool)
    requires
        i < 64,
    ensures
        r == bit_set(bb, i as int),
{
    proof {
        lemma_bit_single(i as u64);
        lemma_bit_and(bb, 1u64 << (i as u64));
        assert(bit_set(1u64 << (i as u64), i as int));
        assert(bit_set(bb & (1u64 << (i as u64)), i as int) <==> bit_set(bb, i as int));
        if bb & (1u64 << (i as u64)) != 0 {
            axiom_u64_trailing_zeros(bb & (1u64 << (i as u64)));
            let t = u64_trailing_zeros(bb & (1u64 << (i as u64))) as int;
            assert(bit_set(bb & (1u64 << (i as u64)), t));
        } else {
            lemma_bit_zero(bb & (1u64 << (i as u64)));
        }
    }
    bb & (1u64 << (i as u64)) != 0
}

/// Bit-indexing and counting operations over a value seen as a set of
/// 64 squares.
pub trait BitFunctions: Sized {
    /// The square set the value stands for.
    spec fn bb(self) -> u64;

    /// Removes the lowest set square and returns its index; on an empty
    /// set, changes nothing and returns the sentinel 64.
    fn pop_lsb(&mut self) -> (r: u32)
        ensures
            r == u64_trailing_zeros(old(self).bb()),
            old(self).bb() == 0 ==> final (self).bb() == 0 && r == 64,
            old(self).bb() != 0 ==> r < 64 && bit_set(old(self).bb(), r as int),
            forall|i: int|
                #[trigger] bit_set(final (self).bb(), i) <==> bit_set(old(self).bb(), i) && i != r,
    ;

    /// Returns the index of the lowest set square, or the sentinel 64 on an
    /// empty set.
    fn get_lsb(self) -> (r: u32)
        ensures
            r == u64_trailing_zeros(self.bb()),
            self.bb() == 0 <==> r == 64,
            self.bb() != 0 ==> r < 64 && bit_set(self.bb(), r as int),
    ;

    /// Removes the lowest set square; on an empty set, changes nothing.
    fn clear_lsb(&mut self)
        ensures
            forall|i: int|
                #[trigger] bit_set(final (self).bb(), i) <==> bit_set(old(self).bb(), i) && i
                    != u64_trailing_zeros(old(self).bb()),
    ;

    /// True when the two square sets intersect.
    fn contains(self, other: Self) -> (r: bool)
        ensures
            r == (self.bb() & other.bb() != 0),
            r == exists|i: int| #[trigger] bit_set(self.bb(), i) && bit_set(other.bb(), i),
    ;

    /// The number of set squares.
    fn count_set_bits(self) -> (r: u32)
        ensures
            r == popcount(self.bb()),
    ;

    /// The indices of the set squares, in ascending order; the caller can
    /// walk them in place of a per-bit callback.
    fn bit_indices(self) -> (r: Vec<u32>)
        ensures
            r@.len() == popcount(self.bb()),
            forall|j1: int, j2: int| 0 <= j1 < j2 < r@.len() ==> r@[j1] < r@[j2],
            forall|j: int| 0 <= j < r@.len() ==> bit_set(self.bb(), #[trigger] r@[j] as int),
            forall|i: int|
                #[trigger] bit_set(self.bb(), i) ==> exists|j: int|
                    0 <= j < r@.len() && r@[j] == i,
    ;
}

/// After clearing the lowest set bit, exactly that bit is gone.
proof fn lemma_clear_lsb(x: u64)
    requires
        x != 0,
    ensures
        forall|i: int|
            #[trigger] bit_set(x & ((x - 1) as u64), i) <==> bit_set(x, i) && i
                != u64_trailing_zeros(x),
{
    axiom_u64_trailing_zeros(x);
    let t = u64_trailing_zeros(x) as u64;
    assert forall|i: int|
        #[trigger] bit_set(x & ((x - 1) as u64), i) <==> bit_set(x, i) && i != u64_trailing_zeros(
            x,
        ) by {
        if 0 <= i < 64 {
            let j = i as u64;
            assert(x != 0 && (x >> t) & 1u64 == 1u64 && t < 64 && j < 64 && x << ((64 - t) as u64)
                == 0 ==> (((x & ((x - 1) as u64)) >> j) & 1u64 == 1u64 <==> ((x >> j) & 1u64 == 1u64
                && j != t))) by (bit_vector);
        }
    }
}

impl BitFunctions for u64 {
    open spec fn bb(self) -> u64 {
        self
    }

    fn pop_lsb(&mut self) -> (r: u32)
    {
        let out = self.trailing_zeros();
        proof {
            axiom_u64_trailing_zeros(*self);
        }
        if *self != 0 {
            proof {
                lemma_clear_lsb(*self);
            }
            *self = *self & (*self - 1);
        }
        out
    }

    fn get_lsb(self) -> (r: u32)
    {
        proof {
            axiom_u64_trailing_zeros(self);
        }
        self.trailing_zeros()
    }

    fn clear_lsb(&mut self)
    {
        proof {
            axiom_u64_trailing_zeros(*self);
        }
        if *self != 0 {
            proof {
                lemma_clear_lsb(*self);
            }
            *self = *self & (*self - 1);
        }
    }

    fn contains(self, other: Self) -> (r: bool)
    {
        proof {
            lemma_bit_and(self, other);
            if self & other != 0 {
                axiom_u64_trailing_zeros(self & other);
                let t = u64_trailing_zeros(self & other) as int;
                assert(bit_set(self & other, t));
                assert(bit_set(self.bb(), t) && bit_set(other.bb(), t));
            } else {
                lemma_bit_zero(self & other);
            }
        }
        self & other != 0
    }

    fn count_set_bits(self) -> (r: u32)
    {
        let mut count: u32 = 0;
        let mut i: u8 = 0;
        while i < 64
            invariant
                i <= 64,
                count <= i,
                count == popcount_upto(self, i as int),
            decreases 64 - i,
        {
            if test_bit(self, i) {
                count = count + 1;
            }
            i = i + 1;
        }
        count
    }

    fn bit_indices(self) -> (r: Vec<u32>)
    {
        let mut out: Vec<u32> = Vec::new();
        let mut i: u8 = 0;
        while i < 64
            invariant
                i <= 64,
                out@.len() == popcount_upto(self, i as int),
                forall|j1: int, j2: int| 0 <= j1 < j2 < out@.len() ==> out@[j1] < out@[j2],
                forall|j: int|
                    0 <= j < out@.len() ==> bit_set(self, #[trigger] out@[j] as int) && out@[j] < i,
                forall|k: int|
                    0 <= k < i && #[trigger] bit_set(self, k) ==> exists|j: int|
                        0 <= j < out@.len() && out@[j] == k,
            decreases 64 - i,
        {
            let ghost entry = out@;
            if test_bit(self, i) {
                out.push(i as u32);
                proof {
                    assert(out@[out@.len() - 1] == i as u32);
                }
            }
            proof {
                assert forall|k: int| 0 <= k < i + 1 && #[trigger] bit_set(self, k) implies exists|
                    j: int,
                |
                    0 <= j < out@.len() && out@[j] == k by {
                    if k < i {
                        let j = choose|j: int| 0 <= j < entry.len() && entry[j] == k;
                        assert(out@[j] == k);
                    } else {
                        assert(out@[out@.len() - 1] == k);
                    }
                }
            }
            i = i + 1;
        }
        out
    }
}

} // verus!
