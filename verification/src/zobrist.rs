//! Zobrist hashing: a fixed key set generated once from a
//! deterministic xorshift seed, composed by exclusive or.

use vstd::prelude::*;
use crate::color::Color;
use crate::piece::Piece;

verus! {

/// The seed of the key stream.
pub const ZOBRIST_SEED: u64 = 0x0C3B301A1AF7EE42;

/// The finalizing multiplier of the xorshift* generator.
pub const ZOBRIST_MULT: u64 = 0x2545F4914F6CDD1D;

/// Number of keys: 64 x 6 x 2 piece keys, one side-to-move key,
/// 16 castling-mask keys and 8 en-passant file keys.
pub const NUM_KEYS: usize = 793;

/// Index of the side-to-move key.
pub const SIDE_KEY: usize = 768;

/// First index of the 16 castling keys.
pub const CASTLE_KEYS: usize = 769;

/// First index of the 8 en-passant file keys.
pub const EP_KEYS: usize = 785;

/// One step of the xorshift generator on 64-bit numbers.
pub open spec fn spec_next_seed(x: u64) -> u64 {
    let a = x ^ (x << 13u64);
    let b = a ^ (a >> 7u64);
    b ^ (b << 17u64)
}

/// The seed after `n` steps of the generator.
pub open spec fn spec_seed_at(n: nat) -> u64
    decreases n,
{
    if n == 0 {
        ZOBRIST_SEED
    } else {
        spec_next_seed(spec_seed_at((n - 1) as nat))
    }
}

/// The `n`-th key of the stream.
pub open spec fn spec_key_at(n: nat) -> u64 {
    vstd::wrapping::u64_specs::wrapping_mul(spec_seed_at(n + 1), ZOBRIST_MULT)
}

/// The index of the key of a piece of a color on a square.
pub open spec fn piece_key_idx(c: Color, p: Piece, s: int) -> int {
    (s * 6 + p.spec_idx()) * 2 + c.spec_idx()
}

/// The xorshift* algorithm for 64 bits numbers, producing good
/// enough pseudo-random numbers. Steps the seed and returns the
/// next key.
pub fn xorshift(seed: &mut u64) -> (r: u64)
    ensures
        *final(seed) == spec_next_seed(*old(seed)),
        r == vstd::wrapping::u64_specs::wrapping_mul(*final(seed), ZOBRIST_MULT),
{
    let mut x: u64 = *seed;
    x = x ^ (x << 13u64);
    x = x ^ (x >> 7u64);
    x = x ^ (x << 17u64);
    *seed = x;
    x.wrapping_mul(ZOBRIST_MULT)
}

/// The full key table, generated once when a board is made.
#[derive(Clone, Debug)]
pub struct ZobristKeys {
    pub keys: Vec<u64>,
}

impl ZobristKeys {
    /// The table holds exactly the deterministic key stream.
    pub open spec fn wf(&self) -> bool {
        &&& self.keys@.len() == NUM_KEYS
        &&& forall|n: int| 0 <= n < NUM_KEYS ==> self.keys@[n] == spec_key_at(n as nat)
    }

    /// Generates the keys from the fixed seed.
    pub fn new() -> (r: ZobristKeys)
        ensures
            r.wf(),
    {
        let mut keys: Vec<u64> = Vec::new();
        let mut seed: u64 = ZOBRIST_SEED;
        let mut n: usize = 0;
        while n < NUM_KEYS
            invariant
                n <= NUM_KEYS,
                keys@.len() == n,
                seed == spec_seed_at(n as nat),
                forall|i: int| 0 <= i < n ==> keys@[i] == spec_key_at(i as nat),
            decreases NUM_KEYS - n,
        {
            let k: u64 = xorshift(&mut seed);
            keys.push(k);
            n = n + 1;
        }
        ZobristKeys { keys }
    }

    /// The key of a piece of a color on square `s`.
    pub fn piece_key(&self, c: Color, p: Piece, s: u8) -> (r: u64)
        requires
            self.wf(),
            s < 64,
        ensures
            r == spec_key_at(piece_key_idx(c, p, s as int) as nat),
    {
        let i: usize = ((s as usize) * 6 + p.idx()) * 2 + c.idx();
        self.keys[i]
    }

    /// The key of the side to move being Black.
    pub fn side_key(&self) -> (r: u64)
        requires
            self.wf(),
        ensures
            r == spec_key_at(SIDE_KEY as nat),
    {
        self.keys[SIDE_KEY]
    }

    /// The key of a castling-rights mask.
    pub fn castle_key(&self, mask: u8) -> (r: u64)
        requires
            self.wf(),
            mask < 16,
        ensures
            r == spec_key_at((CASTLE_KEYS + mask) as nat),
    {
        self.keys[CASTLE_KEYS + (mask as usize)]
    }

    /// The key of an en-passant file.
    pub fn ep_key(&self, file: u8) -> (r: u64)
        requires
            self.wf(),
            file < 8,
        ensures
            r == spec_key_at((EP_KEYS + file) as nat),
    {
        self.keys[EP_KEYS + (file as usize)]
    }
}

/// A zobrist key, that may be used for hashing.
#[derive(Clone, Copy, PartialEq, Eq, Structural, Debug)]
pub struct Zobrist(pub u64);

impl Zobrist {
    /// First hash function for indexing a cuckoo table.
    pub fn h1(self) -> (r: usize)
        ensures
            r == ((self.0 >> 32u64) & 0x1FFFu64) as usize,
            r < 0x2000,
    {
        proof {
            let z = self.0;
            assert((z >> 32u64) & 0x1FFFu64 < 0x2000u64) by (bit_vector);
        }
        ((self.0 >> 32u64) & 0x1FFFu64) as usize
    }

    /// Second hash function for indexing a cuckoo table.
    pub fn h2(self) -> (r: usize)
        ensures
            r == ((self.0 >> 48u64) & 0x1FFFu64) as usize,
            r < 0x2000,
    {
        proof {
            let z = self.0;
            assert((z >> 48u64) & 0x1FFFu64 < 0x2000u64) by (bit_vector);
        }
        ((self.0 >> 48u64) & 0x1FFFu64) as usize
    }
}

} // verus!
