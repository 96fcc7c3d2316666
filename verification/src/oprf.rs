//! Batched relaxed PRF layer, modelled functionally. Per run the sending
//! party holds one PRF key and one random 64-byte seed per slot; the base
//! evaluation F(t) is a pure function of (key, t), and the slot-j instance is
//! F(t) XOR seeds[j]. The receiving party obtains, per slot j, exactly the
//! slot-j value of its one query (the `outputs_for` vector, carried to it by
//! the surrounding transport).
use crate::digest::spec_mix64;
use crate::rng::random_u64;
use crate::token::Token;
use vstd::bytes::{spec_u64_to_le_bytes, u64_to_le_bytes};
use vstd::prelude::*;
use vstd::wrapping::u64_specs;

verus! {

/// Width of a PRF output in bytes (512 bits).
pub const PRF_BYTES: usize = 64;

/// Pointwise XOR of two equal-length byte strings.
pub open spec fn spec_xor_bytes(a: Seq<u8>, b: Seq<u8>) -> Seq<u8>
    recommends
        a.len() == b.len(),
{
    Seq::new(a.len(), |i: int| a[i] ^ b[i])
}

pub fn xor_bytes(a: &Vec<u8>, b: &Vec<u8>) -> (r: Vec<u8>)
    requires
        a@.len() == b@.len(),
    ensures
        r@ == spec_xor_bytes(a@, b@),
{
    let mut out: Vec<u8> = Vec::new();
    let mut i: usize = 0;
    while i < a.len()
        invariant
            0 <= i <= a@.len(),
            a@.len() == b@.len(),
            out@.len() == i,
            forall|q: int| 0 <= q < i ==> out@[q] == (a@[q] ^ b@[q]),
        decreases a@.len() - i,
    {
        out.push(a[i] ^ b[i]);
        i = i + 1;
    }
    proof {
        assert(out@ =~= spec_xor_bytes(a@, b@));
    }
    out
}

/// The first sigma bytes of a byte string.
pub fn prefix_bytes(a: &Vec<u8>, sigma: usize) -> (r: Vec<u8>)
    requires
        sigma <= a@.len(),
    ensures
        r@ == a@.take(sigma as int),
{
    let mut out: Vec<u8> = Vec::new();
    let mut i: usize = 0;
    while i < sigma
        invariant
            0 <= i <= sigma <= a@.len(),
            out@.len() == i,
            forall|q: int| 0 <= q < i ==> out@[q] == a@[q],
        decreases sigma - i,
    {
        out.push(a[i]);
        i = i + 1;
    }
    proof {
        assert(out@ =~= a@.take(sigma as int));
    }
    out
}

/// Word k of the base PRF evaluation F(key, t).
pub open spec fn spec_prf_word(key: Token, t: Token, k: nat) -> u64 {
    let a = spec_mix64(key.lo ^ t.lo);
    let b = spec_mix64(key.hi ^ t.hi ^ a);
    spec_mix64(a ^ b ^ u64_specs::wrapping_mul(k as u64, 0x9e3779b97f4a7c15))
}

/// The 64 bytes of the base PRF evaluation, little-endian word by word.
pub open spec fn spec_prf(key: Token, t: Token) -> Seq<u8> {
    Seq::new(64, |i: int| spec_u64_to_le_bytes(spec_prf_word(key, t, (i / 8) as nat))[i % 8])
}

/// The value the receiving party obtains for slot j with query q.
pub open spec fn spec_slot_output(key: Token, seed: Seq<u8>, q: Token) -> Seq<u8> {
    spec_xor_bytes(spec_prf(key, q), seed)
}

/// The sending half of the batched PRF: one key, one 64-byte seed per slot.
pub struct OprfSender {
    pub key: Token,
    pub seeds: Vec<Vec<u8>>,
}

impl OprfSender {
    pub open spec fn wf(self) -> bool {
        forall|j: int| 0 <= j < self.seeds@.len() ==> (#[trigger] self.seeds@[j])@.len() == 64
    }

    /// Bring up nslots PRF instances with a fresh random key and seeds.
    pub fn send(nslots: usize) -> (r: OprfSender)
        ensures
            r.wf(),
            r.seeds@.len() == nslots,
    {
        let key = Token { lo: random_u64(), hi: random_u64() };
        let mut seeds: Vec<Vec<u8>> = Vec::new();
        let mut j: usize = 0;
        while j < nslots
            invariant
                0 <= j <= nslots,
                seeds@.len() == j,
                forall|q: int| 0 <= q < j ==> (#[trigger] seeds@[q])@.len() == 64,
            decreases nslots - j,
        {
            let mut seed: Vec<u8> = Vec::new();
            let mut w: usize = 0;
            while w < 8
                invariant
                    0 <= w <= 8,
                    seed@.len() == 8 * w,
                decreases 8 - w,
            {
                let mut bytes = u64_to_le_bytes(random_u64());
                seed.append(&mut bytes);
                w = w + 1;
            }
            seeds.push(seed);
            j = j + 1;
        }
        OprfSender { key, seeds }
    }

    /// The base evaluation F(key, t).
    pub fn encode(&self, t: Token) -> (r: Vec<u8>)
        ensures
            r@ == spec_prf(self.key, t),
            r@.len() == 64,
    {
        let mut out: Vec<u8> = Vec::new();
        let mut k: usize = 0;
        while k < 8
            invariant
                0 <= k <= 8,
                out@.len() == 8 * k,
                forall|i: int| 0 <= i < 8 * k ==> out@[i] == spec_prf(self.key, t)[i],
            decreases 8 - k,
        {
            let a = crate::digest::mix64(self.key.lo ^ t.lo);
            let b = crate::digest::mix64(self.key.hi ^ t.hi ^ a);
            let word = crate::digest::mix64(a ^ b ^ (k as u64).wrapping_mul(0x9e3779b97f4a7c15));
            let mut bytes = u64_to_le_bytes(word);
            proof {
                assert(word == spec_prf_word(self.key, t, k as nat));
                assert(forall|i: int| 8 * k <= i < 8 * k + 8 ==> spec_prf(self.key, t)[i]
                    == spec_u64_to_le_bytes(spec_prf_word(self.key, t, k as nat))[i - 8 * k]);
            }
            out.append(&mut bytes);
            k = k + 1;
        }
        proof {
            assert(out@ =~= spec_prf(self.key, t));
        }
        out
    }

    /// What the receiving party obtains for slot j and its query q:
    /// the base evaluation masked with the slot seed.
    pub fn output_for(&self, j: usize, q: Token) -> (r: Vec<u8>)
        requires
            self.wf(),
            j < self.seeds@.len(),
        ensures
            r@ == spec_slot_output(self.key, self.seeds@[j as int]@, q),
            r@.len() == 64,
    {
        let base = self.encode(q);
        xor_bytes(&base, &self.seeds[j])
    }

    /// The whole receiving-side output vector for a query per slot. In a
    /// deployment this is what the batched PRF protocol leaves on the other
    /// side of the wire.
    pub fn outputs_for(&self, queries: &Vec<Token>) -> (r: Vec<Vec<u8>>)
        requires
            self.wf(),
            queries@.len() == self.seeds@.len(),
        ensures
            r@.len() == queries@.len(),
            forall|j: int| 0 <= j < r@.len() ==> (#[trigger] r@[j])@ == spec_slot_output(
                self.key,
                self.seeds@[j]@,
                queries@[j],
            ),
    {
        let mut out: Vec<Vec<u8>> = Vec::new();
        let mut j: usize = 0;
        while j < queries.len()
            invariant
                0 <= j <= queries@.len(),
                queries@.len() == self.seeds@.len(),
                self.wf(),
                out@.len() == j,
                forall|q: int| 0 <= q < j ==> (#[trigger] out@[q])@ == spec_slot_output(
                    self.key,
                    self.seeds@[q]@,
                    queries@[q],
                ),
            decreases queries@.len() - j,
        {
            let o = self.output_for(j, queries[j]);
            out.push(o);
            j = j + 1;
        }
        out
    }
}

} // verus!
