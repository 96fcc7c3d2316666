//! Unit tests for the deterministic pieces: mask sizing, wire framing, input
//! digest, cuckoo placement and the randomness helpers.
use popsicle::cuckoo::CuckooHash;
use popsicle::digest::compress_and_hash_inputs;
use popsicle::error::Error;
use popsicle::mask::compute_masksize;
use popsicle::rng::random_below;
use popsicle::token::Token;
use popsicle::wire::{read_params, write_params};

#[test]
fn masksize_exact_values() {
    // sigma = ceil((2 * ceil(log2 n) + 40) / 8)
    assert_eq!(compute_masksize(1), Ok(5));
    assert_eq!(compute_masksize(2), Ok(6));
    assert_eq!(compute_masksize(16), Ok(6));
    assert_eq!(compute_masksize(50), Ok(7));
    assert_eq!(compute_masksize(1024), Ok(8));
    assert_eq!(compute_masksize(1 << 24), Ok(11));
}

#[test]
fn masksize_rejects_out_of_schedule() {
    assert_eq!(compute_masksize(0), Err(Error::BadInputSize));
    assert_eq!(compute_masksize((1 << 24) + 1), Err(Error::BadInputSize));
}

#[test]
fn masksize_is_monotone() {
    let mut last = 0usize;
    for n in 1..4096usize {
        let sigma = compute_masksize(n).unwrap();
        assert!(sigma >= last);
        last = sigma;
    }
}

#[test]
fn params_round_trip() {
    let msg = write_params(1229, 6);
    assert_eq!(msg.len(), 16);
    assert_eq!(read_params(&msg), Ok((1229, 6)));
    let short = vec![0u8; 15];
    assert_eq!(read_params(&short), Err(Error::Io));
}

#[test]
fn digest_is_deterministic_and_keyed() {
    let key = Token { lo: 7, hi: 9 };
    let other_key = Token { lo: 8, hi: 9 };
    let inputs: Vec<Vec<u8>> = vec![b"abc".to_vec(), b"abd".to_vec(), b"abc".to_vec()];
    let a = compress_and_hash_inputs(&inputs, key);
    let b = compress_and_hash_inputs(&inputs, key);
    let c = compress_and_hash_inputs(&inputs, other_key);
    assert_eq!(a, b);
    // Equal inputs digest equally, distinct ones distinctly.
    assert_eq!(a[0], a[2]);
    assert_ne!(a[0], a[1]);
    // A different key gives different tokens.
    assert_ne!(a[0], c[0]);
}

#[test]
fn cuckoo_build_is_deterministic() {
    let key = Token { lo: 123, hi: 456 };
    let inputs: Vec<Vec<u8>> = (0..200u8).map(|b| vec![b; 16]).collect();
    let tokens = compress_and_hash_inputs(&inputs, key);
    let t1 = CuckooHash::new(&tokens, 3).unwrap();
    let t2 = CuckooHash::new(&tokens, 3).unwrap();
    assert_eq!(t1.nbins, t2.nbins);
    assert_eq!(t1.stashsize, t2.stashsize);
    assert_eq!(t1.items, t2.items);
}

#[test]
fn cuckoo_places_every_input_once() {
    let key = Token { lo: 3, hi: 4 };
    let inputs: Vec<Vec<u8>> = (0..100u8).map(|b| vec![b; 16]).collect();
    let tokens = compress_and_hash_inputs(&inputs, key);
    let t = CuckooHash::new(&tokens, 3).unwrap();
    assert_eq!(t.items.len(), t.nbins + t.stashsize);
    let mut seen = vec![false; 100];
    for slot in t.items.iter() {
        if let Some(item) = slot {
            assert!(!seen[item.input_index]);
            seen[item.input_index] = true;
            assert_eq!(item.entry, tokens[item.input_index]);
        }
    }
    assert!(seen.iter().all(|&b| b));
}

#[test]
fn cuckoo_sizes_follow_schedule() {
    let key = Token { lo: 1, hi: 2 };
    let inputs: Vec<Vec<u8>> = (0..10u8).map(|b| vec![b; 16]).collect();
    let tokens = compress_and_hash_inputs(&inputs, key);
    let t = CuckooHash::new(&tokens, 3).unwrap();
    // m = ceil(1.2 * 10) = 12, s = 12 for n <= 256.
    assert_eq!(t.nbins, 12);
    assert_eq!(t.stashsize, 12);
}

#[test]
fn random_below_stays_in_range() {
    for bound in [1usize, 2, 3, 17, 1000] {
        for _ in 0..200 {
            assert!(random_below(bound) < bound);
        }
    }
}

#[test]
fn shuffle_preserves_the_multiset() {
    let mut v: Vec<Vec<u8>> = (0..40u8).map(|b| vec![b, b + 1]).collect();
    let mut expected = v.clone();
    popsicle::rng::shuffle(&mut v);
    assert_eq!(v.len(), expected.len());
    let mut got = v.clone();
    got.sort();
    expected.sort();
    assert_eq!(got, expected);
}

#[test]
fn cuckoo_overload_fails() {
    // Tokens whose three placement lanes are all zero hash to bin 0 under
    // every hash function: one fills the bin, twelve fill the stash, and the
    // fourteenth insertion must fail.
    let tokens: Vec<Token> = (0..16u64).map(|k| Token { lo: k, hi: 0 }).collect();
    let r = CuckooHash::new(&tokens, 3);
    assert_eq!(r.err(), Some(Error::CuckooFailed));
}
