//! Mask sizing: the number σ of bytes kept from each PRF output, chosen so
//! that collisions among the truncated outputs stay below the statistical
//! security bound.
use crate::error::Error;
use vstd::arithmetic::div_mod::lemma_div_is_ordered;
use vstd::prelude::*;

verus! {

/// Statistical security parameter λ, in bits.
pub const LAMBDA: usize = 40;

/// Largest input-set size the sizing schedule supports (2^24).
pub const MAX_SET_SIZE: usize = 16777216;

/// Ceiling of the base-2 logarithm: the least k with n <= 2^k.
pub open spec fn clog2(n: nat) -> nat
    decreases n,
{
    if n <= 1 {
        0
    } else {
        (1 + clog2(((n + 1) / 2) as nat)) as nat
    }
}

/// Mask width in bytes: ⌈(2·⌈log₂ n⌉ + λ) / 8⌉.
pub open spec fn spec_masksize(n: nat) -> nat {
    (2 * clog2(n) + LAMBDA as nat + 7) / 8
}

/// The ceiling log is monotone.
pub proof fn lemma_clog2_monotone(a: nat, b: nat)
    requires
        a <= b,
    ensures
        clog2(a) <= clog2(b),
    decreases b,
{
    if a > 1 {
        lemma_clog2_monotone(((a + 1) / 2) as nat, ((b + 1) / 2) as nat);
    }
}

/// Halving (rounded up) reduces the ceiling log by exactly one for n >= 2.
proof fn lemma_clog2_le(n: nat, k: nat)
    requires
        n <= vstd::arithmetic::power2::pow2(k),
    ensures
        clog2(n) <= k,
    decreases k,
{
    vstd::arithmetic::power2::lemma_pow2_pos(k);
    if n <= 1 {
    } else {
        // n >= 2, so pow2(k) >= 2 and k >= 1.
        if k == 0 {
            assert(vstd::arithmetic::power2::pow2(0) == 1) by {
                vstd::arithmetic::power2::lemma2_to64();
            }
        } else {
            assert(vstd::arithmetic::power2::pow2(k) == 2 * vstd::arithmetic::power2::pow2(
                (k - 1) as nat,
            )) by {
                vstd::arithmetic::power2::lemma_pow2_unfold(k);
            }
            let h = vstd::arithmetic::power2::pow2((k - 1) as nat);
            assert((n + 1) / 2 <= h);
            lemma_clog2_le(((n + 1) / 2) as nat, (k - 1) as nat);
        }
    }
}

/// The ceiling log of any supported set size fits in 24 bits' worth.
proof fn lemma_clog2_max(n: nat)
    requires
        n <= MAX_SET_SIZE,
    ensures
        clog2(n) <= 24,
{
    assert(vstd::arithmetic::power2::pow2(24) == 0x1000000) by {
        vstd::arithmetic::power2::lemma2_to64();
    }
    lemma_clog2_le(n, 24);
}

/// Mask monotonicity law: the mask width is non-decreasing in the set size.
pub proof fn lemma_masksize_monotone(a: nat, b: nat)
    requires
        a <= b,
    ensures
        spec_masksize(a) <= spec_masksize(b),
{
    lemma_clog2_monotone(a, b);
    lemma_div_is_ordered(
        (2 * clog2(a) + LAMBDA + 7) as int,
        (2 * clog2(b) + LAMBDA + 7) as int,
        8,
    );
}

/// Number of bytes kept from each PRF output for a set of n items. Fails with
/// `BadInputSize` exactly when n is zero or above the supported schedule.
pub fn compute_masksize(n: usize) -> (r: Result<usize, Error>)
    ensures
        match r {
            Ok(sigma) => 1 <= n <= MAX_SET_SIZE && sigma == spec_masksize(n as nat) && 5 <= sigma
                <= 11,
            Err(e) => e == Error::BadInputSize && (n == 0 || n > MAX_SET_SIZE),
        },
{
    if n == 0 || n > MAX_SET_SIZE {
        return Err(Error::BadInputSize);
    }
    proof {
        lemma_clog2_max(n as nat);
    }
    let mut m: usize = n;
    let mut k: usize = 0;
    while m > 1
        invariant
            1 <= m <= n,
            clog2(n as nat) == k + clog2(m as nat),
        decreases m,
    {
        m = (m + 1) / 2;
        k = k + 1;
    }
    Ok((2 * k + LAMBDA + 7) / 8)
}

} // verus!
