//! Wire framing for the one control message of this layer: the Receiver's
//! table sizes (m, s), each written as a fixed-width 8-byte little-endian
//! integer. Truncation is never tolerated: a short message is an `Io` error.
use crate::error::Error;
use vstd::bytes::{spec_u64_from_le_bytes, spec_u64_to_le_bytes, u64_from_le_bytes, u64_to_le_bytes};
use vstd::prelude::*;
use vstd::slice::slice_subrange;

verus! {

/// The bytes of the (m, s) control message.
pub open spec fn spec_params_msg(nbins: u64, stashsize: u64) -> Seq<u8> {
    spec_u64_to_le_bytes(nbins) + spec_u64_to_le_bytes(stashsize)
}

/// Encode the table sizes as the 16-byte control message.
pub fn write_params(nbins: u64, stashsize: u64) -> (r: Vec<u8>)
    ensures
        r@ == spec_params_msg(nbins, stashsize),
        r@.len() == 16,
{
    proof {
        vstd::bytes::lemma_auto_spec_u64_to_from_le_bytes();
    }
    let mut out = u64_to_le_bytes(nbins);
    let mut tail = u64_to_le_bytes(stashsize);
    out.append(&mut tail);
    out
}

/// Decode the 16-byte control message back into (m, s). Returns `Io` exactly
/// when the message does not hold 16 bytes; a 16-byte message always decodes.
pub fn read_params(msg: &Vec<u8>) -> (r: Result<(u64, u64), Error>)
    ensures
        match r {
            Ok((nbins, stashsize)) => {
                &&& msg@.len() == 16
                &&& msg@ == spec_params_msg(nbins, stashsize)
            },
            Err(e) => e == Error::Io && msg@.len() != 16,
        },
{
    proof {
        vstd::bytes::lemma_auto_spec_u64_to_from_le_bytes();
    }
    if msg.len() != 16 {
        return Err(Error::Io);
    }
    let head = slice_subrange(msg.as_slice(), 0, 8);
    let tail = slice_subrange(msg.as_slice(), 8, 16);
    let nbins = u64_from_le_bytes(head);
    let stashsize = u64_from_le_bytes(tail);
    proof {
        assert(msg@ =~= spec_u64_to_le_bytes(nbins) + spec_u64_to_le_bytes(stashsize));
    }
    Ok((nbins, stashsize))
}

/// Round trip: every (m, s) pair survives encoding and decoding.
pub proof fn lemma_params_round_trip(nbins: u64, stashsize: u64)
    ensures
        spec_params_msg(nbins, stashsize).len() == 16,
        spec_u64_from_le_bytes(spec_params_msg(nbins, stashsize).subrange(0, 8)) == nbins,
        spec_u64_from_le_bytes(spec_params_msg(nbins, stashsize).subrange(8, 16)) == stashsize,
{
    vstd::bytes::lemma_auto_spec_u64_to_from_le_bytes();
    assert(spec_params_msg(nbins, stashsize).subrange(0, 8) =~= spec_u64_to_le_bytes(nbins));
    assert(spec_params_msg(nbins, stashsize).subrange(8, 16) =~= spec_u64_to_le_bytes(stashsize));
}

} // verus!
