//! Bit primitives: 64-bit board words, bit tests, popcount and
//! lowest-bit extraction, together with the bit-level lemmas the rest
//! of the crate reasons with.

use vstd::prelude::*;

verus! {

/// True when bit `i` of the word `b` is set. Bit `i` stands for
/// square `i`, in file-major order A1 = 0 .. H8 = 63.
pub open spec fn bb_get(b: u64, i: u64) -> bool {
    (b >> i) & 1u64 == 1u64
}

/// Number of set bits of `b` among the bits strictly below `n`.
pub open spec fn bb_count_below(b: u64, n: int) -> nat
    decreases n,
{
    if n <= 0 {
        0
    } else {
        bb_count_below(b, n - 1) + if bb_get(b, (n - 1) as u64) {
            1nat
        } else {
            0nat
        }
    }
}

/// Number of set bits of `b`.
pub open spec fn bb_count(b: u64) -> nat {
    bb_count_below(b, 64)
}

/// Bitwise exclusive or flips exactly the bits of the mask.
pub broadcast proof fn lemma_bb_xor(a: u64, b: u64, i: u64)
    by (bit_vector)
    ensures
        #[trigger] bb_get(a ^ b, i) == (bb_get(a, i) != bb_get(b, i)),
{
}

/// Bitwise or holds the bits of either word.
pub broadcast proof fn lemma_bb_or(a: u64, b: u64, i: u64)
    by (bit_vector)
    ensures
        #[trigger] bb_get(a | b, i) == (bb_get(a, i) || bb_get(b, i)),
{
}

/// Bitwise and holds the bits of both words.
pub broadcast proof fn lemma_bb_and(a: u64, b: u64, i: u64)
    by (bit_vector)
    ensures
        #[trigger] bb_get(a & b, i) == (bb_get(a, i) && bb_get(b, i)),
{
}

/// Complement flips every bit below 64.
pub broadcast proof fn lemma_bb_not(a: u64, i: u64)
    by (bit_vector)
    ensures
        i < 64 ==> #[trigger] bb_get(!a, i) == !bb_get(a, i),
{
}

/// A one-bit mask has exactly its own bit set.
pub broadcast proof fn lemma_bb_single(i: u64, j: u64)
    by (bit_vector)
    ensures
        i < 64 ==> #[trigger] bb_get(1u64 << i, j) == (i == j),
{
}

/// The suffixes of two words agree when their bits from `k` up agree.
proof fn lemma_bb_ext_rec(a: u64, b: u64, k: u64)
    requires
        k <= 64,
        forall|i: u64| k <= i < 64 ==> bb_get(a, i) == bb_get(b, i),
    ensures
        (a >> k) == (b >> k),
    decreases 64 - k,
{
    if k == 64 {
        assert(a >> 64u64 == 0u64 && b >> 64u64 == 0u64) by (bit_vector);
    } else {
        assert(bb_get(a, k) == bb_get(b, k));
        let kk: u64 = (k + 1) as u64;
        lemma_bb_ext_rec(a, b, kk);
        assert((a >> k) & 1u64 == (b >> k) & 1u64) by (bit_vector)
            requires
                ((a >> k) & 1u64 == 1u64) == ((b >> k) & 1u64 == 1u64),
        ;
        assert(a >> k == ((a >> kk) << 1u64) | ((a >> k) & 1u64)) by (bit_vector)
            requires
                k < 64 && kk == k + 1,
        ;
        assert(b >> k == ((b >> kk) << 1u64) | ((b >> k) & 1u64)) by (bit_vector)
            requires
                k < 64 && kk == k + 1,
        ;
    }
}

/// Two words with the same bits below 64 are equal.
pub proof fn lemma_bb_ext(a: u64, b: u64)
    requires
        forall|i: u64| i < 64 ==> bb_get(a, i) == bb_get(b, i),
    ensures
        a == b,
{
    lemma_bb_ext_rec(a, b, 0);
    assert(a >> 0u64 == a && b >> 0u64 == b) by (bit_vector);
}

/// Flipping a clear bit raises the popcount by one; flipping a set
/// bit lowers it by one. Stated below `n` for the induction.
proof fn lemma_count_flip_below(b: u64, t: u64, n: int)
    requires
        t < 64,
        n <= 64,
    ensures
        bb_count_below(b ^ (1u64 << t), n) == if t < n {
            if bb_get(b, t) {
                bb_count_below(b, n) - 1
            } else {
                bb_count_below(b, n) + 1int
            }
        } else {
            bb_count_below(b, n) as int
        },
    decreases n,
{
    if n > 0 {
        lemma_count_flip_below(b, t, n - 1);
        lemma_bb_xor(b, 1u64 << t, (n - 1) as u64);
        lemma_bb_single(t, (n - 1) as u64);
    }
}

/// Popcount of a word after flipping one bit.
pub proof fn lemma_count_flip(b: u64, t: u64)
    requires
        t < 64,
    ensures
        bb_get(b, t) ==> bb_count(b ^ (1u64 << t)) == bb_count(b) - 1,
        !bb_get(b, t) ==> bb_count(b ^ (1u64 << t)) == bb_count(b) + 1,
{
    lemma_count_flip_below(b, t, 64);
}

/// A word with no set bit below `n` counts zero below `n`.
proof fn lemma_count_zero_below(b: u64, n: int)
    requires
        forall|i: u64| i < n && i < 64 ==> !bb_get(b, i),
        n <= 64,
    ensures
        bb_count_below(b, n) == 0,
    decreases n,
{
    if n > 0 {
        lemma_count_zero_below(b, n - 1);
    }
}

/// The zero word has popcount zero.
pub proof fn lemma_count_empty()
    ensures
        bb_count(0u64) == 0,
{
    assert forall|i: u64| i < 64 implies !bb_get(0u64, i) by {
        assert((0u64 >> i) & 1u64 == 0u64) by (bit_vector);
    }
    lemma_count_zero_below(0u64, 64);
}

/// The zero word has no set bit.
pub broadcast proof fn lemma_bb_empty(i: u64)
    by (bit_vector)
    ensures
        !(#[trigger] bb_get(0u64, i)),
{
}

/// No bit stands at or above 64.
pub broadcast proof fn lemma_bb_high(b: u64, i: u64)
    by (bit_vector)
    ensures
        i >= 64 ==> !(#[trigger] bb_get(b, i)),
{
}

/// Exclusive or commutes.
pub proof fn lemma_xor_comm(a: u64, b: u64)
    by (bit_vector)
    ensures
        a ^ b == b ^ a,
{
}

/// Exclusive or associates.
pub proof fn lemma_xor_assoc(a: u64, b: u64, c: u64)
    by (bit_vector)
    ensures
        (a ^ b) ^ c == a ^ (b ^ c),
{
}

/// Zero is the unit of exclusive or.
pub proof fn lemma_xor_zero(a: u64)
    by (bit_vector)
    ensures
        a ^ 0u64 == a,
        0u64 ^ a == a,
{
}

/// Exclusive or is its own inverse.
pub proof fn lemma_xor_cancel(a: u64, b: u64)
    by (bit_vector)
    ensures
        (a ^ b) ^ b == a,
        a ^ (a ^ b) == b,
        a ^ a == 0u64,
{
}

/// A 64-bit board word: bit `i` marks square `i`.
#[derive(Clone, Copy, PartialEq, Eq, Structural, Debug)]
pub struct BitBoard(pub u64);

impl BitBoard {
    /// The empty board word.
    pub open spec fn spec_empty() -> BitBoard {
        BitBoard(0u64)
    }

    /// Whether square `s` is in the set.
    pub open spec fn spec_has(self, s: u64) -> bool {
        bb_get(self.0, s)
    }

    /// The board with no square set.
    pub fn empty() -> (r: BitBoard)
        ensures
            r == BitBoard::spec_empty(),
            forall|i: u64| !(#[trigger] r.spec_has(i)),
    {
        proof {
            broadcast use lemma_bb_empty;

        }
        BitBoard(0)
    }

    /// Tests square `s`.
    pub fn has(self, s: u8) -> (r: bool)
        requires
            s < 64,
        ensures
            r == self.spec_has(s as u64),
    {
        (self.0 >> (s as u64)) & 1u64 == 1u64
    }

    /// True when at least one square is set.
    pub fn not_empty(self) -> (r: bool)
        ensures
            r == (self.0 != 0u64),
    {
        self.0 != 0
    }

    /// Set union of the two boards.
    pub fn union(self, o: BitBoard) -> (r: BitBoard)
        ensures
            r.0 == self.0 | o.0,
            forall|i: u64| #[trigger] r.spec_has(i) == (self.spec_has(i) || o.spec_has(i)),
    {
        proof {
            broadcast use lemma_bb_or;

        }
        BitBoard(self.0 | o.0)
    }

    /// Set intersection of the two boards.
    pub fn inter(self, o: BitBoard) -> (r: BitBoard)
        ensures
            r.0 == self.0 & o.0,
            forall|i: u64| #[trigger] r.spec_has(i) == (self.spec_has(i) && o.spec_has(i)),
    {
        proof {
            broadcast use lemma_bb_and;

        }
        BitBoard(self.0 & o.0)
    }

    /// Symmetric difference of the two boards.
    pub fn sym_diff(self, o: BitBoard) -> (r: BitBoard)
        ensures
            r.0 == self.0 ^ o.0,
            forall|i: u64| #[trigger] r.spec_has(i) == (self.spec_has(i) != o.spec_has(i)),
    {
        proof {
            broadcast use lemma_bb_xor;

        }
        BitBoard(self.0 ^ o.0)
    }

    /// Complement, restricted to the 64 squares.
    pub fn complement(self) -> (r: BitBoard)
        ensures
            r.0 == !self.0,
            forall|i: u64| i < 64 ==> #[trigger] r.spec_has(i) == !self.spec_has(i),
    {
        proof {
            broadcast use lemma_bb_not;

        }
        BitBoard(!self.0)
    }

    /// Adds square `s` to the set.
    pub fn with(self, s: u8) -> (r: BitBoard)
        requires
            s < 64,
        ensures
            r.spec_has(s as u64),
            forall|i: u64| i != s ==> #[trigger] r.spec_has(i) == self.spec_has(i),
            !self.spec_has(s as u64) ==> r.0 == self.0 ^ (1u64 << (s as u64)),
    {
        proof {
            broadcast use lemma_bb_or, lemma_bb_single;

            let w: u64 = self.0;
            assert(w | (1u64 << (s as u64)) == w ^ (1u64 << (s as u64)) || bb_get(w, s as u64))
                by (bit_vector);
        }
        BitBoard(self.0 | (1u64 << (s as u64)))
    }

    /// The square of the lowest set bit; the word must not be empty.
    pub fn first_square(self) -> (r: u8)
        requires
            self.0 != 0u64,
        ensures
            r < 64,
            self.spec_has(r as u64),
            forall|j: u64| j < r ==> !self.spec_has(j),
    {
        proof {
            broadcast use vstd::std_specs::bits::axiom_u64_trailing_zeros;

        }
        let tz: u32 = self.0.trailing_zeros();
        tz as u8
    }

    /// Clears the lowest set bit and returns its square.
    pub fn pop_first(&mut self) -> (r: u8)
        requires
            old(self).0 != 0u64,
        ensures
            r < 64,
            old(self).spec_has(r as u64),
            forall|j: u64| j < r ==> !old(self).spec_has(j),
            final(self).0 == old(self).0 ^ (1u64 << (r as u64)),
            !final(self).spec_has(r as u64),
            forall|i: u64| i != r ==> #[trigger] final(self).spec_has(i) == old(self).spec_has(i),
            bb_count(final(self).0) == bb_count(old(self).0) - 1,
    {
        let s: u8 = self.first_square();
        proof {
            broadcast use lemma_bb_xor, lemma_bb_single;

            lemma_count_flip(self.0, s as u64);
        }
        self.0 = self.0 ^ (1u64 << (s as u64));
        s
    }

    /// Number of set squares.
    pub fn count(self) -> (r: u8)
        ensures
            r == bb_count(self.0),
            r <= 64,
    {
        let mut word: u64 = self.0;
        let mut cnt: u8 = 0;
        proof {
            lemma_count_zero_below(word, 0);
        }
        let mut i: u8 = 0;
        while i < 64
            invariant
                i <= 64,
                cnt == bb_count_below(word, i as int),
                cnt <= i,
                word == self.0,
            decreases 64 - i,
        {
            if (word >> (i as u64)) & 1u64 == 1u64 {
                cnt = cnt + 1;
            }
            i = i + 1;
        }
        cnt
    }
}

} // verus!
