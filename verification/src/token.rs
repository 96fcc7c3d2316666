//! The 128-bit token type. Inputs of arbitrary length are digested into
//! tokens; all later protocol steps (cuckoo placement, PRF evaluation) work
//! on tokens alone.
use vstd::prelude::*;

verus! {

/// Number of cuckoo hash functions.
pub const NHASHES: usize = 3;

/// A 128-bit opaque token, stored as two 64-bit halves (little-endian order:
/// `lo` holds bytes 0..8, `hi` holds bytes 8..16).
#[derive(Clone, Copy, Debug, PartialEq, Eq, Structural)]
pub struct Token {
    pub lo: u64,
    pub hi: u64,
}

impl Token {
    /// The all-zero token, used as the placeholder query for empty cuckoo
    /// slots.
    pub open spec fn spec_zero() -> Token {
        Token { lo: 0, hi: 0 }
    }

    pub fn zero() -> (r: Token)
        ensures
            r == Token::spec_zero(),
    {
        Token { lo: 0, hi: 0 }
    }

    /// Bitwise XOR of two tokens.
    pub open spec fn spec_xor(self, o: Token) -> Token {
        Token { lo: self.lo ^ o.lo, hi: self.hi ^ o.hi }
    }

    pub fn xor(self, o: Token) -> (r: Token)
        ensures
            r == self.spec_xor(o),
    {
        Token { lo: self.lo ^ o.lo, hi: self.hi ^ o.hi }
    }

    /// The token that carries cuckoo hash-function index i in its low bits.
    /// XOR-ing it into a query perturbs only the low byte, a region disjoint
    /// from every 32-bit lane that bin placement reads.
    pub open spec fn spec_hindex(i: nat) -> Token
        recommends
            i < NHASHES,
    {
        Token { lo: i as u64, hi: 0 }
    }

    pub fn hindex(i: usize) -> (r: Token)
        requires
            i < NHASHES,
        ensures
            r == Token::spec_hindex(i as nat),
    {
        Token { lo: i as u64, hi: 0 }
    }

    /// The i-th of the three 32-bit lanes that feed bin placement: the upper
    /// half of `lo`, then the two halves of `hi`. The low 32 bits of `lo`
    /// (where the hash index is spliced) feed no lane.
    pub open spec fn spec_lane(self, i: nat) -> u64
        recommends
            i < NHASHES,
    {
        if i == 0 {
            self.lo >> 32
        } else if i == 1 {
            self.hi & 0xffff_ffff
        } else {
            self.hi >> 32
        }
    }

    pub fn lane(self, i: usize) -> (r: u64)
        requires
            i < NHASHES,
        ensures
            r == self.spec_lane(i as nat),
    {
        if i == 0 {
            self.lo >> 32
        } else if i == 1 {
            self.hi & 0xffff_ffff
        } else {
            self.hi >> 32
        }
    }
}

} // verus!
