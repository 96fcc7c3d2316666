//! Two-party private set intersection (PSI) in the style of
//! Pinkas–Schneider–Zohner, refined by Kolesnikov–Kumaresan–Rosulek–Trieu:
//! the Receiver places its tokens in a cuckoo table, both parties evaluate a
//! batched PRF per slot, and the Sender streams masked, truncated PRF outputs
//! from which the Receiver reconstructs the intersection.
#![allow(unused_imports)]
#![verifier::loop_isolation(false)]

pub mod cuckoo;
pub mod digest;
pub mod error;
pub mod laws;
pub mod mask;
pub mod oprf;
pub mod psz;
pub mod rng;
pub mod stream;
pub mod token;
pub mod wire;
