//! The PSI endpoints. The Sender holds set X, the Receiver set Y; after a
//! coin toss binds both to a shared digest key, the Receiver cuckoo-hashes
//! its tokens and announces (m, s), both drive the batched PRF, the Sender
//! streams masked truncated PRF evaluations (three shuffled bin streams, then
//! one shuffled stream per stash slot), and the Receiver tests each occupied
//! slot against the matching stream to reconstruct the intersection.
//!
//! Every message is a plain value here: the surrounding transport moves the
//! commitment, the nonce, the opening, the 16-byte (m, s) message, the
//! per-slot PRF outputs and the record streams between the parties in that
//! order, and closes the run on any error.
use crate::cuckoo::{spec_bin, spec_nbins, spec_stashsize, spec_table, CuckooHash, CuckooItem};
use crate::digest::{commit, compress_and_hash_inputs, spec_commit, spec_tokens_of};
use crate::error::Error;
use crate::mask::{compute_masksize, spec_masksize, MAX_SET_SIZE};
use crate::oprf::{spec_prf, spec_xor_bytes, xor_bytes, prefix_bytes, OprfSender};
use crate::rng::{random_u64, shuffle};
use crate::stream::{
    append_records, contains_record, copy_bytes, copy_records, lemma_chunks_of_concat,
    lemma_to_multiset_map, spec_chunks, spec_concat,
};
use crate::token::{Token, NHASHES};
use crate::wire::{read_params, spec_params_msg, write_params};
use vstd::bytes::spec_u64_from_le_bytes;
use vstd::prelude::*;
use vstd::seq_lib::group_to_multiset_ensures;

verus! {

/// Largest bin count an honest receiver can announce (from the schedule).
pub const MAX_BINS: usize = 20132660;

/// Largest stash size an honest receiver can announce.
pub const MAX_STASH: usize = 12;

/// Whether a received (m, s) control message is well-formed: 16 bytes whose
/// decoded sizes lie inside the schedule's range.
pub open spec fn spec_params_ok(msg: Seq<u8>) -> bool {
    &&& msg.len() == 16
    &&& 1 <= spec_u64_from_le_bytes(msg.subrange(0, 8)) <= MAX_BINS
    &&& spec_u64_from_le_bytes(msg.subrange(8, 16)) <= MAX_STASH
}

/// The record the Sender emits for token x under hash function i: the slot
/// instance of the PRF at the bin x hashes to, truncated to sigma bytes.
pub open spec fn spec_bin_mask(
    pkey: Token,
    seeds: Seq<Seq<u8>>,
    m: nat,
    sigma: nat,
    x: Token,
    i: nat,
) -> Seq<u8> {
    spec_xor_bytes(
        spec_prf(pkey, x.spec_xor(Token::spec_hindex(i))),
        seeds[spec_bin(x, i, m) as int],
    ).take(sigma as int)
}

/// The record the Sender emits for token x in the stash stream of absolute
/// slot index `slot` (= m + j): no hash index is spliced into the query.
pub open spec fn spec_stash_mask(
    pkey: Token,
    seeds: Seq<Seq<u8>>,
    slot: nat,
    sigma: nat,
    x: Token,
) -> Seq<u8> {
    spec_xor_bytes(spec_prf(pkey, x), seeds[slot as int]).take(sigma as int)
}

/// Segment k of the Sender's stream: records k*n .. (k+1)*n, where segments
/// 0..3 are the bin streams and segment 3+j serves stash slot j.
pub open spec fn spec_segment(stream: Seq<u8>, n: nat, sigma: nat, k: int) -> Seq<Seq<u8>> {
    spec_chunks(stream.subrange(k * (n * sigma) as int, (k + 1) * (n * sigma) as int), sigma)
}

/// The query a cuckoo slot submits to the PRF layer: bin items splice their
/// hash index into the token, stash items submit the bare token, and empty
/// slots submit the all-zero placeholder (whose output is never tested).
pub open spec fn spec_query(slot: Option<CuckooItem>) -> Token {
    match slot {
        Option::None => Token::spec_zero(),
        Option::Some(it) => match it.hash_index {
            Option::Some(i) => if i < NHASHES {
                it.entry.spec_xor(Token::spec_hindex(i as nat))
            } else {
                it.entry
            },
            Option::None => it.entry,
        },
    }
}

pub open spec fn spec_queries(items: Seq<Option<CuckooItem>>) -> Seq<Token> {
    items.map_values(|s: Option<CuckooItem>| spec_query(s))
}

/// Whether the truncated output of a slot appears in the stream segment that
/// serves it.
pub open spec fn spec_matched(
    it: CuckooItem,
    pre: Seq<u8>,
    stream: Seq<u8>,
    n: nat,
    sigma: nat,
    m: int,
    s: int,
    p: int,
) -> bool {
    match it.hash_index {
        Option::Some(i) => i < NHASHES && spec_segment(stream, n, sigma, i as int).contains(pre),
        Option::None => m <= p < m + s && spec_segment(stream, n, sigma, 3 + (p - m)).contains(pre),
    }
}

/// The intersection the Receiver reconstructs from the first p slots: for
/// each occupied slot whose truncated PRF output appears in its stream
/// segment, the original input the slot's item came from, in slot order.
pub open spec fn spec_hits(
    items: Seq<Option<CuckooItem>>,
    outputs: Seq<Seq<u8>>,
    stream: Seq<u8>,
    n: nat,
    sigma: nat,
    m: int,
    s: int,
    inputs: Seq<Seq<u8>>,
    p: int,
) -> Seq<Seq<u8>>
    decreases p,
{
    if p <= 0 {
        Seq::empty()
    } else {
        let rest = spec_hits(items, outputs, stream, n, sigma, m, s, inputs, p - 1);
        match items[p - 1] {
            Option::None => rest,
            Option::Some(it) => if spec_matched(
                it,
                outputs[p - 1].take(sigma as int),
                stream,
                n,
                sigma,
                m,
                s,
                p - 1,
            ) && it.input_index < inputs.len() {
                rest.push(inputs[it.input_index as int])
            } else {
                rest
            },
        }
    }
}

/// Everything the Sender's success case promises: the run parameters were
/// well-formed and the returned stream holds, per segment, exactly the
/// records of X's tokens (in some order), masked under the PRF state the
/// Sender retains.
pub open spec fn spec_send_ok(
    nonce: Token,
    peer_nonce: Token,
    xviews: Seq<Seq<u8>>,
    msg: Seq<u8>,
    snd: Sender,
    stream: Seq<u8>,
) -> bool {
    let key = nonce.spec_xor(peer_nonce);
    let tx = spec_tokens_of(key, xviews);
    let n = xviews.len();
    let sigma = spec_masksize(n);
    let m = spec_u64_from_le_bytes(msg.subrange(0, 8)) as nat;
    let s = spec_u64_from_le_bytes(msg.subrange(8, 16)) as nat;
    &&& 1 <= n <= MAX_SET_SIZE
    &&& spec_params_ok(msg)
    &&& snd.done
    &&& snd.oprf matches Some(o) && {
        let seeds = o.seeds@.map_values(|v: Vec<u8>| v@);
        &&& o.wf()
        &&& o.seeds@.len() == m + s
        &&& stream.len() == (3 + s) * (n * sigma)
        &&& forall|i: int|
            0 <= i < 3 ==> #[trigger] spec_segment(stream, n, sigma, i).to_multiset()
                == tx.map_values(
                |x: Token| spec_bin_mask(o.key, seeds, m, sigma, x, i as nat),
            ).to_multiset()
        &&& forall|k: int|
            3 <= k < 3 + s ==> #[trigger] spec_segment(stream, n, sigma, k).to_multiset()
                == tx.map_values(
                |x: Token| spec_stash_mask(o.key, seeds, (m + (k - 3)) as nat, sigma, x),
            ).to_multiset()
    }
}

/// The n records of the bin stream for hash function i, in token order.
fn build_bin_masks(oprf: &OprfSender, tx: &Vec<Token>, i: usize, m: usize, sigma: usize) -> (r:
    Vec<Vec<u8>>)
    requires
        oprf.wf(),
        i < 3,
        1 <= m <= oprf.seeds@.len(),
        sigma <= 11,
    ensures
        r@.len() == tx@.len(),
        forall|q: int|
            0 <= q < tx@.len() ==> (#[trigger] r@[q])@ == spec_bin_mask(
                oprf.key,
                oprf.seeds@.map_values(|v: Vec<u8>| v@),
                m as nat,
                sigma as nat,
                tx@[q],
                i as nat,
            ),
        forall|q: int| 0 <= q < r@.len() ==> (#[trigger] r@[q])@.len() == sigma,
{
    let ghost seedviews = oprf.seeds@.map_values(|v: Vec<u8>| v@);
    let mut masks: Vec<Vec<u8>> = Vec::new();
    let mut idx: usize = 0;
    while idx < tx.len()
        invariant
            0 <= idx <= tx@.len(),
            i < 3,
            1 <= m <= oprf.seeds@.len(),
            sigma <= 11,
            oprf.wf(),
            seedviews == oprf.seeds@.map_values(|v: Vec<u8>| v@),
            masks@.len() == idx,
            forall|q: int|
                0 <= q < idx ==> (#[trigger] masks@[q])@ == spec_bin_mask(
                    oprf.key,
                    seedviews,
                    m as nat,
                    sigma as nat,
                    tx@[q],
                    i as nat,
                ),
            forall|q: int| 0 <= q < idx ==> (#[trigger] masks@[q])@.len() == sigma,
        decreases tx@.len() - idx,
    {
        let x = tx[idx];
        let b = CuckooHash::bin(x, i, m);
        let enc = oprf.encode(x.xor(Token::hindex(i)));
        let masked = xor_bytes(&enc, &oprf.seeds[b]);
        let rec = prefix_bytes(&masked, sigma);
        masks.push(rec);
        idx = idx + 1;
    }
    masks
}

/// The n records of the stash stream served by absolute slot index `slot`.
fn build_stash_masks(oprf: &OprfSender, tx: &Vec<Token>, slot: usize, sigma: usize) -> (r: Vec<
    Vec<u8>,
>)
    requires
        oprf.wf(),
        slot < oprf.seeds@.len(),
        sigma <= 11,
    ensures
        r@.len() == tx@.len(),
        forall|q: int|
            0 <= q < tx@.len() ==> (#[trigger] r@[q])@ == spec_stash_mask(
                oprf.key,
                oprf.seeds@.map_values(|v: Vec<u8>| v@),
                slot as nat,
                sigma as nat,
                tx@[q],
            ),
        forall|q: int| 0 <= q < r@.len() ==> (#[trigger] r@[q])@.len() == sigma,
{
    let ghost seedviews = oprf.seeds@.map_values(|v: Vec<u8>| v@);
    let mut masks: Vec<Vec<u8>> = Vec::new();
    let mut idx: usize = 0;
    while idx < tx.len()
        invariant
            0 <= idx <= tx@.len(),
            slot < oprf.seeds@.len(),
            sigma <= 11,
            oprf.wf(),
            seedviews == oprf.seeds@.map_values(|v: Vec<u8>| v@),
            masks@.len() == idx,
            forall|q: int|
                0 <= q < idx ==> (#[trigger] masks@[q])@ == spec_stash_mask(
                    oprf.key,
                    seedviews,
                    slot as nat,
                    sigma as nat,
                    tx@[q],
                ),
            forall|q: int| 0 <= q < idx ==> (#[trigger] masks@[q])@.len() == sigma,
        decreases tx@.len() - idx,
    {
        let x = tx[idx];
        let enc = oprf.encode(x);
        let masked = xor_bytes(&enc, &oprf.seeds[slot]);
        let rec = prefix_bytes(&masked, sigma);
        masks.push(rec);
        idx = idx + 1;
    }
    masks
}

/// Shuffle the given records and append them to the stream as segment k.
/// Earlier segments are untouched; the new segment holds exactly the given
/// records, in some order.
fn emit_segment(streams: &mut Vec<u8>, masks: Vec<Vec<u8>>, n: usize, sigma: usize, k: usize)
    requires
        sigma >= 1,
        n >= 1,
        masks@.len() == n,
        forall|q: int| 0 <= q < n ==> (#[trigger] masks@[q])@.len() == sigma,
        n * sigma <= 16777216 * 11,
        k <= 14,
        old(streams)@.len() == k * (n * sigma),
    ensures
        final(streams)@.len() == (k + 1) * (n * sigma),
        spec_segment(final(streams)@, n as nat, sigma as nat, k as int).to_multiset()
            == masks@.map_values(|v: Vec<u8>| v@).to_multiset(),
        forall|kk: int|
            0 <= kk < k ==> #[trigger] spec_segment(final(streams)@, n as nat, sigma as nat, kk)
                == spec_segment(old(streams)@, n as nat, sigma as nat, kk),
{
    broadcast use group_to_multiset_ensures;

    let ghost pre_streams = streams@;
    let ghost before_shuffle = masks@;
    let rec_total = n * sigma;
    let mut masks = masks;
    shuffle(&mut masks);
    proof {
        lemma_to_multiset_map(masks@, before_shuffle, |v: Vec<u8>| v@);
        assert forall|q: int| 0 <= q < masks@.len() implies (#[trigger] masks@[q])@.len()
            == sigma by {
            assert(masks@.to_multiset().count(masks@[q]) > 0);
            assert(before_shuffle.to_multiset().count(masks@[q]) > 0);
            assert(before_shuffle.contains(masks@[q]));
        }
        assert(k * rec_total + n * sigma <= 0xffff_ffff && (k + 1) * rec_total == k * rec_total
            + rec_total) by (nonlinear_arith)
            requires
                0 <= k <= 14,
                rec_total == n * sigma,
                0 <= rec_total <= 16777216 * 11,
        ;
    }
    append_records(streams, &masks, sigma);
    proof {
        let rviews = masks@.map_values(|v: Vec<u8>| v@);
        lemma_chunks_of_concat(rviews, sigma as nat);
        assert(streams@.subrange(k * rec_total as int, (k + 1) * rec_total as int) =~= spec_concat(
            rviews,
        ));
        assert(spec_segment(streams@, n as nat, sigma as nat, k as int) == rviews);
        assert(rviews.to_multiset() == before_shuffle.map_values(|v: Vec<u8>| v@).to_multiset());
        assert forall|kk: int| 0 <= kk < k implies #[trigger] spec_segment(
            streams@,
            n as nat,
            sigma as nat,
            kk,
        ) == spec_segment(pre_streams, n as nat, sigma as nat, kk) by {
            assert((kk + 1) * rec_total <= k * rec_total && 0 <= kk * rec_total && kk * rec_total
                <= (kk + 1) * rec_total) by (nonlinear_arith)
                requires
                    0 <= kk < k,
                    rec_total >= 1,
            ;
            assert(streams@.subrange(kk * rec_total as int, (kk + 1) * rec_total as int)
                =~= pre_streams.subrange(kk * rec_total as int, (kk + 1) * rec_total as int));
        }
    }
}

/// Private set intersection sender.
pub struct Sender {
    pub nonce: Token,
    pub oprf: Option<OprfSender>,
    pub done: bool,
}

impl Sender {
    /// Bring up a sender: sample the coin-toss nonce.
    pub fn init() -> (r: Sender)
        ensures
            !r.done,
            r.oprf is None,
    {
        Sender { nonce: Token { lo: random_u64(), hi: random_u64() }, oprf: None, done: false }
    }

    /// The coin-toss commitment, sent before the peer's nonce is seen.
    pub fn commitment(&self) -> (r: Token)
        ensures
            r == spec_commit(self.nonce),
    {
        commit(self.nonce)
    }

    /// The coin-toss opening, sent after the peer's nonce arrived.
    pub fn opening(&self) -> (r: Token)
        ensures
            r == self.nonce,
    {
        self.nonce
    }

    /// Run the sending side: digest X under the tossed key, accept the
    /// receiver's (m, s) message, bring up the PRF instances, and emit the
    /// 3 + s shuffled record streams.
    #[verifier::rlimit(100)]
    pub fn send(
        &mut self,
        inputs: &Vec<Vec<u8>>,
        peer_nonce: Token,
        params_msg: &Vec<u8>,
    ) -> (r: Result<Vec<u8>, Error>)
        requires
            !old(self).done,
        ensures
            final(self).nonce == old(self).nonce,
            match r {
                Ok(streams) => spec_send_ok(
                    old(self).nonce,
                    peer_nonce,
                    inputs@.map_values(|v: Vec<u8>| v@),
                    params_msg@,
                    *final(self),
                    streams@,
                ),
                Err(e) => *final(self) == *old(self) && (if e == Error::BadInputSize {
                    inputs@.len() == 0 || inputs@.len() > MAX_SET_SIZE
                } else {
                    e == Error::Io && 1 <= inputs@.len() <= MAX_SET_SIZE && !spec_params_ok(
                        params_msg@,
                    )
                }),
            },
    {
        let n = inputs.len();
        let sigma = match compute_masksize(n) {
            Ok(v) => v,
            Err(e) => {
                return Err(e);
            },
        };
        let key = self.nonce.xor(peer_nonce);
        let tx = compress_and_hash_inputs(inputs, key);
        let (m64, s64) = match read_params(params_msg) {
            Ok(p) => p,
            Err(e) => {
                return Err(e);
            },
        };
        if m64 < 1 || m64 > (MAX_BINS as u64) || s64 > (MAX_STASH as u64) {
            proof {
                crate::wire::lemma_params_round_trip(m64, s64);
            }
            return Err(Error::Io);
        }
        proof {
            crate::wire::lemma_params_round_trip(m64, s64);
        }
        let m = m64 as usize;
        let s = s64 as usize;
        let oprf = OprfSender::send(m + s);
        let ghost seedviews = oprf.seeds@.map_values(|v: Vec<u8>| v@);
        let ghost xviews = inputs@.map_values(|v: Vec<u8>| v@);
        proof {
            assert(n * sigma <= 16777216 * 11) by (nonlinear_arith)
                requires
                    1 <= n <= 16777216,
                    sigma <= 11,
            ;
        }
        let rec_total = n * sigma;
        let mut streams: Vec<u8> = Vec::new();
        let mut i: usize = 0;
        while i < 3
            invariant
                0 <= i <= 3,
                n == inputs@.len(),
                1 <= n <= MAX_SET_SIZE,
                sigma == spec_masksize(n as nat),
                5 <= sigma <= 11,
                rec_total == n * sigma,
                rec_total <= 16777216 * 11,
                1 <= m <= MAX_BINS,
                s <= MAX_STASH,
                tx@ == spec_tokens_of(key, xviews),
                tx@.len() == n,
                key == old(self).nonce.spec_xor(peer_nonce),
                oprf.wf(),
                oprf.seeds@.len() == m + s,
                seedviews == oprf.seeds@.map_values(|v: Vec<u8>| v@),
                streams@.len() == i * rec_total,
                forall|ii: int|
                    0 <= ii < i ==> spec_segment(streams@, n as nat, sigma as nat, ii).to_multiset()
                        == tx@.map_values(
                        |x: Token| spec_bin_mask(
                            oprf.key,
                            seedviews,
                            m as nat,
                            sigma as nat,
                            x,
                            ii as nat,
                        ),
                    ).to_multiset(),
            decreases 3 - i,
        {
            let ghost pre_streams = streams@;
            let mut masks = build_bin_masks(&oprf, &tx, i, m, sigma);
            let ghost premask_views = masks@.map_values(|v: Vec<u8>| v@);
            proof {
                assert(premask_views =~= tx@.map_values(
                    |x: Token| spec_bin_mask(oprf.key, seedviews, m as nat, sigma as nat, x, i as nat),
                ));
            }
            emit_segment(&mut streams, masks, n, sigma, i);
            i = i + 1;
        }
        // Stash phase: the base evaluation is taken on the bare token, and
        // each stash slot gets its own shuffled pass over all of X.
        let mut j: usize = 0;
        while j < s
            invariant
                0 <= j <= s,
                n == inputs@.len(),
                1 <= n <= MAX_SET_SIZE,
                sigma == spec_masksize(n as nat),
                5 <= sigma <= 11,
                rec_total == n * sigma,
                rec_total <= 16777216 * 11,
                1 <= m <= MAX_BINS,
                s <= MAX_STASH,
                tx@ == spec_tokens_of(key, xviews),
                tx@.len() == n,
                key == old(self).nonce.spec_xor(peer_nonce),
                oprf.wf(),
                oprf.seeds@.len() == m + s,
                seedviews == oprf.seeds@.map_values(|v: Vec<u8>| v@),
                streams@.len() == (3 + j) * rec_total,
                forall|ii: int|
                    0 <= ii < 3 ==> #[trigger] spec_segment(
                        streams@,
                        n as nat,
                        sigma as nat,
                        ii,
                    ).to_multiset() == tx@.map_values(
                        |x: Token| spec_bin_mask(
                            oprf.key,
                            seedviews,
                            m as nat,
                            sigma as nat,
                            x,
                            ii as nat,
                        ),
                    ).to_multiset(),
                forall|kk: int|
                    3 <= kk < 3 + j ==> #[trigger] spec_segment(
                        streams@,
                        n as nat,
                        sigma as nat,
                        kk,
                    ).to_multiset() == tx@.map_values(
                        |x: Token| spec_stash_mask(
                            oprf.key,
                            seedviews,
                            (m + (kk - 3)) as nat,
                            sigma as nat,
                            x,
                        ),
                    ).to_multiset(),
            decreases s - j,
        {
            let ghost pre_streams = streams@;
            let mut masks = build_stash_masks(&oprf, &tx, m + j, sigma);
            let ghost premask_views = masks@.map_values(|v: Vec<u8>| v@);
            proof {
                assert(premask_views =~= tx@.map_values(
                    |x: Token| spec_stash_mask(
                        oprf.key,
                        seedviews,
                        (m + j) as nat,
                        sigma as nat,
                        x,
                    ),
                ));
            }
            emit_segment(&mut streams, masks, n, sigma, 3 + j);
            j = j + 1;
        }
        self.oprf = Some(oprf);
        self.done = true;
        Ok(streams)
    }

    /// The receiving side's view of the PRF layer for this run: one output
    /// per slot, for the query vector the peer submitted. Carried to the
    /// peer by the surrounding transport.
    pub fn oprf_outputs(&self, queries: &Vec<Token>) -> (r: Result<Vec<Vec<u8>>, Error>)
        ensures
            match r {
                Ok(out) => self.oprf matches Some(o) && queries@.len() == o.seeds@.len() && o.wf()
                    && out@.len() == queries@.len() && forall|p: int|
                    0 <= p < out@.len() ==> (#[trigger] out@[p])@ == crate::oprf::spec_slot_output(
                        o.key,
                        o.seeds@[p]@,
                        queries@[p],
                    ),
                Err(e) => e == Error::OprfFailure && (self.oprf is None || !(self.oprf
                    matches Some(o) && queries@.len() == o.seeds@.len() && o.wf())),
            },
    {
        match &self.oprf {
            Some(o) => {
                if queries.len() != o.seeds.len() {
                    return Err(Error::OprfFailure);
                }
                let mut j: usize = 0;
                while j < o.seeds.len()
                    invariant
                        0 <= j <= o.seeds@.len(),
                        forall|q: int| 0 <= q < j ==> (#[trigger] o.seeds@[q])@.len() == 64,
                    decreases o.seeds@.len() - j,
                {
                    if o.seeds[j].len() != 64 {
                        return Err(Error::OprfFailure);
                    }
                    j = j + 1;
                }
                Ok(o.outputs_for(queries))
            },
            None => Err(Error::OprfFailure),
        }
    }
}

/// The state a receiver carries between announcing (m, s) and consuming the
/// sender's streams.
pub struct Session {
    pub key: Token,
    pub items: Vec<Option<CuckooItem>>,
    pub nbins: usize,
    pub stashsize: usize,
    pub masksize: usize,
    pub inputs: Vec<Vec<u8>>,
}

impl Session {
    pub open spec fn wf(self) -> bool {
        &&& 1 <= self.inputs@.len() <= MAX_SET_SIZE
        &&& self.nbins == spec_nbins(self.inputs@.len())
        &&& self.stashsize == spec_stashsize(self.inputs@.len())
        &&& self.masksize == spec_masksize(self.inputs@.len())
        &&& 5 <= self.masksize <= 11
        &&& 1 <= self.nbins <= MAX_BINS
        &&& self.stashsize <= MAX_STASH
        &&& self.items@.len() == self.nbins + self.stashsize
    }
}

/// Private set intersection receiver.
pub struct Receiver {
    pub nonce: Token,
    pub session: Option<Session>,
    pub done: bool,
}

impl Receiver {
    /// Bring up a receiver: sample the coin-toss nonce. The nonce itself is
    /// the message sent back once the peer's commitment arrived.
    pub fn init() -> (r: Receiver)
        ensures
            !r.done,
            r.session is None,
    {
        Receiver { nonce: Token { lo: random_u64(), hi: random_u64() }, session: None, done: false }
    }

    /// Check the peer's coin-toss opening, digest Y, build the cuckoo table
    /// and hand back the 16-byte (m, s) message — always 16 bytes, whatever
    /// Y holds.
    pub fn prepare(
        &mut self,
        inputs: &Vec<Vec<u8>>,
        commitment: Token,
        opening: Token,
    ) -> (r: Result<Vec<u8>, Error>)
        requires
            old(self).session is None,
            !old(self).done,
        ensures
            final(self).nonce == old(self).nonce,
            final(self).done == old(self).done,
            match r {
                Ok(msg) => {
                    let key = opening.spec_xor(old(self).nonce);
                    let yviews = inputs@.map_values(|v: Vec<u8>| v@);
                    let ty = spec_tokens_of(key, yviews);
                    let n = inputs@.len();
                    &&& spec_commit(opening) == commitment
                    &&& 1 <= n <= MAX_SET_SIZE
                    &&& final(self).session matches Some(ses) && {
                        &&& ses.wf()
                        &&& ses.key == key
                        &&& Some(ses.items@) == spec_table(ty)
                        &&& ses.inputs@.len() == n
                        &&& forall|q: int| 0 <= q < n ==> (#[trigger] ses.inputs@[q])@ == yviews[q]
                        &&& msg@ == spec_params_msg(ses.nbins as u64, ses.stashsize as u64)
                        &&& msg@.len() == 16
                    }
                },
                Err(e) => {
                    let key = opening.spec_xor(old(self).nonce);
                    let ty = spec_tokens_of(key, inputs@.map_values(|v: Vec<u8>| v@));
                    &&& *final(self) == *old(self)
                    &&& if e == Error::CoinTossMismatch {
                        spec_commit(opening) != commitment
                    } else if e == Error::BadInputSize {
                        spec_commit(opening) == commitment && (inputs@.len() == 0 || inputs@.len()
                            > MAX_SET_SIZE)
                    } else {
                        e == Error::CuckooFailed && spec_commit(opening) == commitment && 1
                            <= inputs@.len() <= MAX_SET_SIZE && spec_table(ty) is None
                    }
                },
            },
    {
        let check = commit(opening);
        if !(check.lo == commitment.lo && check.hi == commitment.hi) {
            return Err(Error::CoinTossMismatch);
        }
        let key = opening.xor(self.nonce);
        let ty = compress_and_hash_inputs(inputs, key);
        let table = match CuckooHash::new(&ty, 3) {
            Ok(t) => t,
            Err(e) => {
                return Err(e);
            },
        };
        let n = inputs.len();
        let sigma = match compute_masksize(n) {
            Ok(v) => v,
            Err(e) => {
                return Err(e);
            },
        };
        let msg = write_params(table.nbins as u64, table.stashsize as u64);
        let own_inputs = copy_records(inputs);
        proof {
            assert(forall|q: int| 0 <= q < inputs@.len() ==> (#[trigger] own_inputs@[q])@
                == inputs@.map_values(|v: Vec<u8>| v@)[q]);
        }
        self.session = Some(
            Session {
                key,
                items: table.items,
                nbins: table.nbins,
                stashsize: table.stashsize,
                masksize: sigma,
                inputs: own_inputs,
            },
        );
        Ok(msg)
    }

    /// The query vector this receiver submits to the PRF layer, one token
    /// per slot in positional order.
    pub fn queries(&self) -> (r: Vec<Token>)
        requires
            self.session is Some,
        ensures
            self.session matches Some(ses) && r@ == spec_queries(ses.items@),
    {
        let ses = match &self.session {
            Some(s) => s,
            None => {
                return vstd::pervasive::unreached();
            },
        };
        let mut out: Vec<Token> = Vec::new();
        let mut p: usize = 0;
        while p < ses.items.len()
            invariant
                0 <= p <= ses.items@.len(),
                out@.len() == p,
                forall|q: int| 0 <= q < p ==> out@[q] == spec_query(ses.items@[q]),
            decreases ses.items@.len() - p,
        {
            let q = match &ses.items[p] {
                None => Token::zero(),
                Some(it) => match it.hash_index {
                    Some(i) => if i < NHASHES {
                        it.entry.xor(Token::hindex(i))
                    } else {
                        it.entry
                    },
                    None => it.entry,
                },
            };
            out.push(q);
            p = p + 1;
        }
        proof {
            assert(out@ =~= spec_queries(ses.items@));
        }
        out
    }

    /// Consume the per-slot PRF outputs and the sender's record streams and
    /// reconstruct the intersection: exactly the inputs whose slot's
    /// truncated output appears in the stream segment serving that slot.
    /// Nothing is emitted unless every stream was read in full.
    pub fn receive(&mut self, outputs: &Vec<Vec<u8>>, streams: &Vec<u8>) -> (r: Result<
        Vec<Vec<u8>>,
        Error,
    >)
        requires
            old(self).session matches Some(ses) && ses.wf(),
            !old(self).done,
        ensures
            final(self).session == old(self).session,
            final(self).nonce == old(self).nonce,
            match r {
                Ok(out) => old(self).session matches Some(ses) && {
                    let sigma = ses.masksize as nat;
                    let m = ses.nbins as int;
                    let s = ses.stashsize as int;
                    let nrec = streams@.len() as int / ((3 + s) * sigma as int);
                    &&& final(self).done
                    &&& outputs@.len() == m + s
                    &&& (forall|p: int| 0 <= p < outputs@.len() ==> (#[trigger] outputs@[p])@.len()
                        == 64)
                    &&& streams@.len() > 0
                    &&& streams@.len() as int % ((3 + s) * sigma as int) == 0
                    &&& 1 <= nrec <= MAX_SET_SIZE
                    &&& out@.map_values(|v: Vec<u8>| v@) == spec_hits(
                        ses.items@,
                        outputs@.map_values(|v: Vec<u8>| v@),
                        streams@,
                        nrec as nat,
                        sigma,
                        m,
                        s,
                        ses.inputs@.map_values(|v: Vec<u8>| v@),
                        m + s,
                    )
                },
                Err(e) => old(self).session matches Some(ses) && *final(self) == *old(self) && {
                    let sigma = ses.masksize as int;
                    let s = ses.stashsize as int;
                    let bad_outputs = outputs@.len() != ses.nbins + ses.stashsize || exists|p: int|
                        0 <= p < outputs@.len() && (#[trigger] outputs@[p])@.len() != 64;
                    if e == Error::OprfFailure {
                        bad_outputs
                    } else {
                        e == Error::Io && !bad_outputs && !(streams@.len() > 0 && streams@.len()
                            as int % ((3 + s) * sigma) == 0 && streams@.len() as int / ((3 + s)
                            * sigma) <= MAX_SET_SIZE)
                    }
                },
            },
    {
        let ses = match &self.session {
            Some(s) => s,
            None => {
                return vstd::pervasive::unreached();
            },
        };
        let n = ses.inputs.len();
        let sigma = ses.masksize;
        let m = ses.nbins;
        let s = ses.stashsize;
        // Validate the PRF layer's output vector.
        if outputs.len() != m + s {
            return Err(Error::OprfFailure);
        }
        let mut p: usize = 0;
        while p < outputs.len()
            invariant
                0 <= p <= outputs@.len(),
                forall|q: int| 0 <= q < p ==> (#[trigger] outputs@[q])@.len() == 64,
            decreases outputs@.len() - p,
        {
            if outputs[p].len() != 64 {
                return Err(Error::OprfFailure);
            }
            p = p + 1;
        }
        // The record count per stream comes from the transcript length (the
        // protocol leaks the sender's set size); a transcript that is not a
        // whole number of full streams is a transport failure and nothing is
        // emitted.
        proof {
            assert(15 <= (3 + s) * sigma <= 165) by (nonlinear_arith)
                requires
                    s <= 12,
                    5 <= sigma <= 11,
            ;
        }
        let denom = (3 + s) * sigma;
        if streams.len() == 0 || streams.len() % denom != 0 {
            return Err(Error::Io);
        }
        let nrec = streams.len() / denom;
        if nrec > MAX_SET_SIZE {
            return Err(Error::Io);
        }
        proof {
            vstd::arithmetic::div_mod::lemma_fundamental_div_mod(
                streams@.len() as int,
                denom as int,
            );
            assert(nrec >= 1) by (nonlinear_arith)
                requires
                    streams@.len() as int == denom as int * nrec as int + streams@.len() as int
                        % denom as int,
                    streams@.len() as int % denom as int == 0,
                    streams@.len() > 0,
                    denom >= 1,
                    nrec >= 0,
            ;
        }
        proof {
            assert(nrec * sigma <= 16777216 * 11) by (nonlinear_arith)
                requires
                    1 <= nrec <= 16777216,
                    sigma <= 11,
            ;
        }
        let rec_total = nrec * sigma;
        proof {
            vstd::arithmetic::div_mod::lemma_fundamental_div_mod(
                streams@.len() as int,
                denom as int,
            );
            assert((3 + s) * rec_total == nrec * denom && nrec * denom == denom * nrec) by (
            nonlinear_arith)
                requires
                    rec_total == nrec * sigma,
                    denom == (3 + s) * sigma,
            ;
            assert(streams@.len() == (3 + s) * rec_total);
        }
        // Parse the 3 bin segments and s stash segments into record lists.
        let mut segs: Vec<Vec<Vec<u8>>> = Vec::new();
        let mut k: usize = 0;
        while k < 3 + s
            invariant
                0 <= k <= 3 + s,
                rec_total == nrec * sigma,
                rec_total <= 16777216 * 11,
                s <= MAX_STASH,
                5 <= sigma <= 11,
                1 <= nrec,
                streams@.len() == (3 + s) * rec_total,
                segs@.len() == k,
                forall|kk: int|
                    0 <= kk < k ==> (#[trigger] segs@[kk])@.map_values(|v: Vec<u8>| v@)
                        == spec_segment(streams@, nrec as nat, sigma as nat, kk),
            decreases 3 + s - k,
        {
            proof {
                assert((k + 1) * (nrec * sigma) <= (3 + s) * rec_total) by (nonlinear_arith)
                    requires
                        0 <= k < 3 + s,
                        rec_total == nrec * sigma,
                        rec_total >= 0,
                ;
            }
            let seg = parse_segment(streams, k, nrec, sigma);
            segs.push(seg);
            k = k + 1;
        }
        // Test every occupied slot against the segment that serves it.
        let ghost inviews = ses.inputs@.map_values(|v: Vec<u8>| v@);
        let ghost outviews = outputs@.map_values(|v: Vec<u8>| v@);
        let mut intersection: Vec<Vec<u8>> = Vec::new();
        let mut p: usize = 0;
        while p < m + s
            invariant
                0 <= p <= m + s,
                m == ses.nbins,
                s == ses.stashsize,
                sigma == ses.masksize,
                5 <= sigma <= 11,
                ses.items@.len() == m + s,
                outputs@.len() == m + s,
                forall|q: int| 0 <= q < outputs@.len() ==> (#[trigger] outputs@[q])@.len() == 64,
                segs@.len() == 3 + s,
                forall|kk: int|
                    0 <= kk < 3 + s ==> (#[trigger] segs@[kk])@.map_values(|v: Vec<u8>| v@)
                        == spec_segment(streams@, nrec as nat, sigma as nat, kk),
                inviews == ses.inputs@.map_values(|v: Vec<u8>| v@),
                outviews == outputs@.map_values(|v: Vec<u8>| v@),
                intersection@.map_values(|v: Vec<u8>| v@) == spec_hits(
                    ses.items@,
                    outviews,
                    streams@,
                    nrec as nat,
                    sigma as nat,
                    m as int,
                    s as int,
                    inviews,
                    p as int,
                ),
            decreases m + s - p,
        {
            let ghost pre_hits = intersection@.map_values(|v: Vec<u8>| v@);
            match &ses.items[p] {
                None => {},
                Some(it) => {
                    let pre = prefix_bytes(&outputs[p], sigma);
                    proof {
                        assert(pre@ == outviews[p as int].take(sigma as int));
                    }
                    let matched: bool = match it.hash_index {
                        Some(i) => i < NHASHES && contains_record(&segs[i], &pre),
                        None => m <= p && p - m < s && contains_record(&segs[3 + (p - m)], &pre),
                    };
                    if matched && it.input_index < ses.inputs.len() {
                        let val = copy_bytes(&ses.inputs[it.input_index]);
                        intersection.push(val);
                        proof {
                            assert(intersection@.map_values(|v: Vec<u8>| v@) =~= pre_hits.push(
                                inviews[it.input_index as int],
                            ));
                        }
                    }
                },
            }
            p = p + 1;
        }
        self.done = true;
        Ok(intersection)
    }
}

/// Private set intersection sender using the model PRF layer under the hood.
pub type PszSender = Sender;

/// Private set intersection receiver using the model PRF layer under the
/// hood.
pub type PszReceiver = Receiver;

/// Copy segment k (n records of sigma bytes) out of the flat stream.
fn parse_segment(streams: &Vec<u8>, k: usize, n: usize, sigma: usize) -> (r: Vec<Vec<u8>>)
    requires
        sigma >= 1,
        n * sigma <= 16777216 * 11,
        k <= 14,
        (k + 1) * (n * sigma) <= streams@.len(),
    ensures
        r@.map_values(|v: Vec<u8>| v@) == spec_segment(streams@, n as nat, sigma as nat, k as int),
{
    let sl = streams.len();
    let rec_total = n * sigma;
    proof {
        assert(k * rec_total + rec_total == (k + 1) * rec_total) by (nonlinear_arith);
        assert((k + 1) * rec_total == (k + 1) * (n * sigma)) by (nonlinear_arith)
            requires
                rec_total == n * sigma,
        ;
        assert(k * rec_total + rec_total <= sl);
    }
    let base = k * rec_total;
    let ghost seg = streams@.subrange(base as int, (base + rec_total) as int);
    let mut out: Vec<Vec<u8>> = Vec::new();
    let mut c: usize = 0;
    while c < n
        invariant
            0 <= c <= n,
            rec_total == n * sigma,
            base == k * rec_total,
            base + rec_total <= streams@.len(),
            streams@.len() == sl,
            sigma >= 1,
            seg == streams@.subrange(base as int, (base + rec_total) as int),
            out@.len() == c,
            forall|q: int|
                0 <= q < c ==> (#[trigger] out@[q])@ == seg.subrange(
                    q * sigma as int,
                    q * sigma as int + sigma as int,
                ),
        decreases n - c,
    {
        proof {
            assert(c * sigma + sigma <= rec_total) by (nonlinear_arith)
                requires
                    0 <= c < n,
                    rec_total == n * sigma,
                    sigma >= 1,
            ;
        }
        let start = base + c * sigma;
        let mut rec: Vec<u8> = Vec::new();
        let mut b: usize = 0;
        while b < sigma
            invariant
                0 <= b <= sigma,
                start == base + c * sigma,
                start + sigma <= streams@.len(),
                rec@.len() == b,
                forall|q: int| 0 <= q < b ==> rec@[q] == streams@[start + q],
            decreases sigma - b,
        {
            rec.push(streams[start + b]);
            b = b + 1;
        }
        proof {
            assert(rec@ =~= seg.subrange(c * sigma as int, c * sigma as int + sigma as int));
        }
        out.push(rec);
        c = c + 1;
    }
    proof {
        assert(seg.len() / sigma as nat == n) by (nonlinear_arith)
            requires
                seg.len() == n * sigma,
                sigma >= 1,
        ;
        assert(out@.map_values(|v: Vec<u8>| v@) =~= spec_segment(
            streams@,
            n as nat,
            sigma as nat,
            k as int,
        ));
    }
    out
}

} // verus!
