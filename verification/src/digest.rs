//! Input digest: deterministic keyed compression of variable-length byte
//! inputs into 128-bit tokens. Both parties derive the key from the coin
//! toss, so equal inputs digest to equal tokens on both sides.
use crate::token::Token;
use vstd::prelude::*;
use vstd::wrapping::u64_specs;

verus! {

/// A 64-bit mixing permutation (the splitmix64 finalizer).
pub open spec fn spec_mix64(x: u64) -> u64 {
    let a = x ^ (x >> 30);
    let b = u64_specs::wrapping_mul(a, 0xbf58476d1ce4e5b9);
    let c = b ^ (b >> 27);
    let d = u64_specs::wrapping_mul(c, 0x94d049bb133111eb);
    d ^ (d >> 31)
}

pub fn mix64(x: u64) -> (r: u64)
    ensures
        r == spec_mix64(x),
{
    let a = x ^ (x >> 30);
    let b = a.wrapping_mul(0xbf58476d1ce4e5b9);
    let c = b ^ (b >> 27);
    let d = c.wrapping_mul(0x94d049bb133111eb);
    d ^ (d >> 31)
}

/// Absorb one input byte into the running 128-bit state.
pub open spec fn spec_absorb(st: Token, c: u8) -> Token {
    let lo = spec_mix64(st.lo ^ (c as u64));
    let hi = spec_mix64(st.hi ^ lo);
    Token { lo, hi }
}

/// State after absorbing the first i bytes of s.
pub open spec fn spec_absorb_prefix(st: Token, s: Seq<u8>, i: int) -> Token
    recommends
        0 <= i <= s.len(),
    decreases i,
{
    if i <= 0 {
        st
    } else {
        spec_absorb(spec_absorb_prefix(st, s, i - 1), s[i - 1])
    }
}

/// The digest of one input under the shared key: key and input length seed
/// the state, every byte is absorbed in order, and the halves are mixed once
/// more at the end.
pub open spec fn spec_digest(key: Token, s: Seq<u8>) -> Token {
    let init = Token {
        lo: key.lo ^ 0x9e3779b97f4a7c15,
        hi: key.hi ^ (s.len() as u64),
    };
    let fin = spec_absorb_prefix(init, s, s.len() as int);
    Token { lo: spec_mix64(fin.lo ^ fin.hi), hi: spec_mix64(u64_specs::wrapping_add(fin.hi, 0x9e3779b97f4a7c15)) }
}

/// Digest one input.
pub fn digest(key: Token, input: &Vec<u8>) -> (r: Token)
    ensures
        r == spec_digest(key, input@),
{
    let mut st = Token { lo: key.lo ^ 0x9e3779b97f4a7c15, hi: key.hi ^ (input.len() as u64) };
    let mut i: usize = 0;
    while i < input.len()
        invariant
            0 <= i <= input@.len(),
            st == spec_absorb_prefix(
                Token { lo: key.lo ^ 0x9e3779b97f4a7c15, hi: key.hi ^ (input@.len() as u64) },
                input@,
                i as int,
            ),
        decreases input@.len() - i,
    {
        let lo = mix64(st.lo ^ (input[i] as u64));
        let hi = mix64(st.hi ^ lo);
        st = Token { lo, hi };
        i = i + 1;
    }
    Token { lo: mix64(st.lo ^ st.hi), hi: mix64(st.hi.wrapping_add(0x9e3779b97f4a7c15)) }
}

/// The token sequence a party derives from its raw inputs under the shared
/// key.
pub open spec fn spec_tokens_of(key: Token, inputs: Seq<Seq<u8>>) -> Seq<Token> {
    inputs.map_values(|s: Seq<u8>| spec_digest(key, s))
}

/// Compress and hash every input into a fixed-width token. Deterministic in
/// (key, inputs), so both parties map equal inputs to equal tokens.
pub fn compress_and_hash_inputs(inputs: &Vec<Vec<u8>>, key: Token) -> (r: Vec<Token>)
    ensures
        r@ == spec_tokens_of(key, inputs@.map_values(|v: Vec<u8>| v@)),
{
    let mut out: Vec<Token> = Vec::new();
    let mut i: usize = 0;
    let ghost views = inputs@.map_values(|v: Vec<u8>| v@);
    while i < inputs.len()
        invariant
            0 <= i <= inputs@.len(),
            out@.len() == i,
            forall|j: int| 0 <= j < i ==> out@[j] == spec_digest(key, inputs@[j]@),
        decreases inputs@.len() - i,
    {
        let t = digest(key, &inputs[i]);
        out.push(t);
        i = i + 1;
    }
    proof {
        assert(out@ =~= spec_tokens_of(key, views));
    }
    out
}

/// Commitment to a coin-toss nonce: the digest of the nonce's 16 bytes in
/// little-endian order under the all-zero key.
pub open spec fn spec_commit(t: Token) -> Token {
    spec_digest(Token::spec_zero(), vstd::bytes::spec_u64_to_le_bytes(t.lo) + vstd::bytes::spec_u64_to_le_bytes(t.hi))
}

pub fn commit(t: Token) -> (r: Token)
    ensures
        r == spec_commit(t),
{
    let mut bytes = vstd::bytes::u64_to_le_bytes(t.lo);
    let mut tail = vstd::bytes::u64_to_le_bytes(t.hi);
    bytes.append(&mut tail);
    digest(Token::zero(), &bytes)
}

} // verus!
