//! Protocol error taxonomy. Every failure is surfaced to the caller; nothing
//! is retried inside the library.
use vstd::prelude::*;

verus! {

/// The ways a protocol run can fail. All are terminal for the run.
#[derive(Clone, Copy, Debug, PartialEq, Eq, Structural)]
pub enum Error {
    /// A transport failure: a message or stream shorter than the protocol
    /// demands (silent truncation is never tolerated).
    Io,
    /// The peer's coin-toss opening does not match its commitment.
    CoinTossMismatch,
    /// The input set is empty or larger than the supported sizing schedule.
    BadInputSize,
    /// Cuckoo insertion exhausted the kickout budget and the stash.
    CuckooFailed,
    /// The batched PRF layer handed back a malformed result.
    OprfFailure,
}

} // verus!
