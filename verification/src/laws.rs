//! Correctness of the reconstructed intersection. For an honest run — the
//! table built from Y's tokens, the per-slot PRF outputs consistent with the
//! queries, the stream segments holding exactly the Sender's masked records —
//! the Receiver's output holds exactly the inputs of Y whose token also lies
//! among X's tokens, once each. The truncated masks may collide with
//! probability below the statistical bound; that event is excluded by an
//! explicit injectivity hypothesis.
use crate::cuckoo::{
    spec_idx_count, spec_table_wf, CuckooItem,
};
use crate::oprf::{spec_prf, spec_slot_output, spec_xor_bytes};
use crate::psz::{
    spec_bin_mask, spec_hits, spec_matched, spec_query, spec_segment, spec_stash_mask,
};
use crate::token::{Token, NHASHES};
use vstd::prelude::*;
use vstd::seq_lib::group_to_multiset_ensures;

verus! {

/// The hypotheses of an honest run, gathered once: a well-formed table over
/// Y's tokens, outputs consistent with the slot queries, and stream segments
/// holding exactly X's masked records.
pub open spec fn spec_honest_run(
    tbl: Seq<Option<CuckooItem>>,
    ty: Seq<Token>,
    tx: Seq<Token>,
    pkey: Token,
    seeds: Seq<Seq<u8>>,
    outputs: Seq<Seq<u8>>,
    stream: Seq<u8>,
    nx: nat,
    sigma: nat,
    m: nat,
    s: nat,
) -> bool {
    &&& spec_table_wf(tbl, ty, m)
    &&& tbl.len() == m + s
    &&& sigma >= 1
    &&& seeds.len() == m + s
    &&& outputs.len() == m + s
    &&& (forall|p: int|
        0 <= p < outputs.len() ==> #[trigger] outputs[p] == spec_slot_output(
            pkey,
            seeds[p],
            spec_query(tbl[p]),
        ))
    &&& (forall|i: int|
        0 <= i < 3 ==> #[trigger] spec_segment(stream, nx, sigma, i).to_multiset()
            == tx.map_values(
            |x: Token| spec_bin_mask(pkey, seeds, m, sigma, x, i as nat),
        ).to_multiset())
    &&& (forall|kk: int|
        3 <= kk < 3 + s ==> #[trigger] spec_segment(stream, nx, sigma, kk).to_multiset()
            == tx.map_values(
            |x: Token| spec_stash_mask(pkey, seeds, (m + (kk - 3)) as nat, sigma, x),
        ).to_multiset())
}

/// No truncated-mask collisions: whenever a record computed for one of X's
/// tokens equals the record computed for a resident token under the same
/// slot, the tokens agree. This fails with probability below 2^-lambda; it is
/// the event the protocol's correctness bound excludes.
pub open spec fn spec_no_collisions(
    tbl: Seq<Option<CuckooItem>>,
    tx: Seq<Token>,
    pkey: Token,
    seeds: Seq<Seq<u8>>,
    m: nat,
    sigma: nat,
) -> bool {
    forall|p: int, q: int|
        #![trigger tbl[p], tx[q]]
        0 <= p < tbl.len() && 0 <= q < tx.len() ==> match tbl[p] {
            Option::Some(it) => {
                &&& match it.hash_index {
                    Option::Some(i) => spec_bin_mask(pkey, seeds, m, sigma, tx[q], i as nat)
                        == spec_bin_mask(pkey, seeds, m, sigma, it.entry, i as nat) ==> tx[q]
                        == it.entry,
                    Option::None => spec_stash_mask(pkey, seeds, p as nat, sigma, tx[q])
                        == spec_stash_mask(pkey, seeds, p as nat, sigma, it.entry) ==> tx[q]
                        == it.entry,
                }
            },
            Option::None => true,
        }
}

/// Per-slot characterization: an occupied slot's membership test succeeds
/// exactly when the slot's token lies among the sender's tokens.
proof fn lemma_slot_matched(
    tbl: Seq<Option<CuckooItem>>,
    ty: Seq<Token>,
    tx: Seq<Token>,
    pkey: Token,
    seeds: Seq<Seq<u8>>,
    outputs: Seq<Seq<u8>>,
    stream: Seq<u8>,
    nx: nat,
    sigma: nat,
    m: nat,
    s: nat,
    p: int,
)
    requires
        spec_honest_run(tbl, ty, tx, pkey, seeds, outputs, stream, nx, sigma, m, s),
        spec_no_collisions(tbl, tx, pkey, seeds, m, sigma),
        0 <= p < tbl.len(),
        tbl[p] is Some,
    ensures
        tbl[p] matches Some(it) && (spec_matched(
            it,
            outputs[p].take(sigma as int),
            stream,
            nx,
            sigma,
            m as int,
            s as int,
            p,
        ) <==> tx.contains(it.entry)),
{
    broadcast use group_to_multiset_ensures;

    let it = tbl[p].unwrap();
    let v = outputs[p].take(sigma as int);
    match it.hash_index {
        Option::Some(i) => {
            // Bin slot: the tested value is exactly the record the sender
            // computes for this token under hash i.
            assert(i < NHASHES && crate::cuckoo::spec_bin(it.entry, i as nat, m) == p);
            assert(spec_query(tbl[p]) == it.entry.spec_xor(Token::spec_hindex(i as nat)));
            assert(outputs[p] == spec_xor_bytes(
                spec_prf(pkey, it.entry.spec_xor(Token::spec_hindex(i as nat))),
                seeds[p],
            ));
            assert(v =~= spec_bin_mask(pkey, seeds, m, sigma, it.entry, i as nat));
            let f = |x: Token| spec_bin_mask(pkey, seeds, m, sigma, x, i as nat);
            let seg = spec_segment(stream, nx, sigma, i as int);
            assert(seg.to_multiset() == tx.map_values(f).to_multiset());
            if tx.contains(it.entry) {
                let q = choose|q: int| 0 <= q < tx.len() && tx[q] == it.entry;
                assert(tx.map_values(f)[q] == f(it.entry));
                assert(tx.map_values(f).contains(v));
                assert(tx.map_values(f).to_multiset().count(v) > 0);
                assert(seg.contains(v));
            }
            if spec_matched(it, v, stream, nx, sigma, m as int, s as int, p) {
                assert(seg.contains(v));
                assert(seg.to_multiset().count(v) > 0);
                assert(tx.map_values(f).contains(v));
                let q = choose|q: int| 0 <= q < tx.len() && tx.map_values(f)[q] == v;
                assert(f(tx[q]) == f(it.entry));
                assert(tx[q] == it.entry);
                assert(tx.contains(it.entry));
            }
        },
        Option::None => {
            // Stash slot: the tested value is the stash record for this
            // token at absolute slot index p = m + j.
            assert(m <= p < m + s);
            assert(spec_query(tbl[p]) == it.entry);
            assert(outputs[p] == spec_xor_bytes(spec_prf(pkey, it.entry), seeds[p]));
            assert(v =~= spec_stash_mask(pkey, seeds, p as nat, sigma, it.entry));
            let f = |x: Token| spec_stash_mask(pkey, seeds, p as nat, sigma, x);
            let kk = 3 + (p - m);
            let seg = spec_segment(stream, nx, sigma, kk);
            assert((m + (kk - 3)) as nat == p as nat);
            assert(seg.to_multiset() == tx.map_values(f).to_multiset());
            if tx.contains(it.entry) {
                let q = choose|q: int| 0 <= q < tx.len() && tx[q] == it.entry;
                assert(tx.map_values(f)[q] == f(it.entry));
                assert(tx.map_values(f).contains(v));
                assert(tx.map_values(f).to_multiset().count(v) > 0);
                assert(seg.contains(v));
            }
            if spec_matched(it, v, stream, nx, sigma, m as int, s as int, p) {
                assert(seg.contains(v));
                assert(seg.to_multiset().count(v) > 0);
                assert(tx.map_values(f).contains(v));
                let q = choose|q: int| 0 <= q < tx.len() && tx.map_values(f)[q] == v;
                assert(f(tx[q]) == f(it.entry));
                assert(tx[q] == it.entry);
                assert(tx.contains(it.entry));
            }
        },
    }
}

/// A positive residence count yields a resident slot.
proof fn lemma_idx_count_witness(tbl: Seq<Option<CuckooItem>>, k: nat)
    requires
        spec_idx_count(tbl, k) > 0,
    ensures
        exists|p: int|
            0 <= p < tbl.len() && ((#[trigger] tbl[p]) matches Some(it) && it.input_index == k),
    decreases tbl.len(),
{
    match tbl.last() {
        Option::Some(it) => {
            if it.input_index == k {
                assert(tbl[tbl.len() - 1] matches Some(x) && x.input_index == k);
            } else {
                lemma_idx_count_witness(tbl.drop_last(), k);
                let p = choose|p: int|
                    0 <= p < tbl.drop_last().len() && ((#[trigger] tbl.drop_last()[p])
                        matches Some(it) && it.input_index == k);
                assert(tbl[p] == tbl.drop_last()[p]);
            }
        },
        Option::None => {
            lemma_idx_count_witness(tbl.drop_last(), k);
            let p = choose|p: int|
                0 <= p < tbl.drop_last().len() && ((#[trigger] tbl.drop_last()[p]) matches Some(it)
                    && it.input_index == k);
            assert(tbl[p] == tbl.drop_last()[p]);
        },
    }
}

/// What the first p slots emit is kept by every longer prefix.
proof fn lemma_hits_monotone(
    tbl: Seq<Option<CuckooItem>>,
    outputs: Seq<Seq<u8>>,
    stream: Seq<u8>,
    nx: nat,
    sigma: nat,
    m: int,
    s: int,
    yviews: Seq<Seq<u8>>,
    p: int,
    p2: int,
    v: Seq<u8>,
)
    requires
        0 <= p <= p2,
        spec_hits(tbl, outputs, stream, nx, sigma, m, s, yviews, p).contains(v),
    ensures
        spec_hits(tbl, outputs, stream, nx, sigma, m, s, yviews, p2).contains(v),
    decreases p2 - p,
{
    if p2 > p {
        let h = spec_hits(tbl, outputs, stream, nx, sigma, m, s, yviews, p2 - 1);
        lemma_hits_monotone(tbl, outputs, stream, nx, sigma, m, s, yviews, p, p2 - 1, v);
        let j = choose|j: int| 0 <= j < h.len() && h[j] == v;
        assert(spec_hits(tbl, outputs, stream, nx, sigma, m, s, yviews, p2)[j] == v);
    }
}

/// Completeness: every receiver input whose token lies among the sender's
/// tokens is emitted.
pub proof fn lemma_intersection_complete(
    tbl: Seq<Option<CuckooItem>>,
    ty: Seq<Token>,
    tx: Seq<Token>,
    pkey: Token,
    seeds: Seq<Seq<u8>>,
    outputs: Seq<Seq<u8>>,
    stream: Seq<u8>,
    nx: nat,
    sigma: nat,
    m: nat,
    s: nat,
    yviews: Seq<Seq<u8>>,
    k: int,
)
    requires
        spec_honest_run(tbl, ty, tx, pkey, seeds, outputs, stream, nx, sigma, m, s),
        spec_no_collisions(tbl, tx, pkey, seeds, m, sigma),
        yviews.len() == ty.len(),
        forall|j: nat| spec_idx_count(tbl, j) == (if j < ty.len() { 1nat } else { 0 }),
        0 <= k < ty.len(),
        tx.contains(ty[k]),
    ensures
        spec_hits(tbl, outputs, stream, nx, sigma, m as int, s as int, yviews, (m + s) as int)
            .contains(yviews[k]),
{
    assert(spec_idx_count(tbl, k as nat) > 0);
    lemma_idx_count_witness(tbl, k as nat);
    let p = choose|p: int|
        0 <= p < tbl.len() && ((#[trigger] tbl[p]) matches Some(it) && it.input_index == k);
    let it = tbl[p].unwrap();
    assert(it.entry == ty[k]);
    lemma_slot_matched(tbl, ty, tx, pkey, seeds, outputs, stream, nx, sigma, m, s, p);
    let pre = spec_hits(tbl, outputs, stream, nx, sigma, m as int, s as int, yviews, p);
    let cur = spec_hits(tbl, outputs, stream, nx, sigma, m as int, s as int, yviews, p + 1);
    assert(cur == pre.push(yviews[k]));
    assert(cur[cur.len() - 1] == yviews[k]);
    assert(cur.contains(yviews[k]));
    lemma_hits_monotone(
        tbl,
        outputs,
        stream,
        nx,
        sigma,
        m as int,
        s as int,
        yviews,
        p + 1,
        (m + s) as int,
        yviews[k],
    );
}

/// Soundness: everything emitted is a receiver input whose token lies among
/// the sender's tokens.
pub proof fn lemma_intersection_sound(
    tbl: Seq<Option<CuckooItem>>,
    ty: Seq<Token>,
    tx: Seq<Token>,
    pkey: Token,
    seeds: Seq<Seq<u8>>,
    outputs: Seq<Seq<u8>>,
    stream: Seq<u8>,
    nx: nat,
    sigma: nat,
    m: nat,
    s: nat,
    yviews: Seq<Seq<u8>>,
    p: int,
    v: Seq<u8>,
)
    requires
        spec_honest_run(tbl, ty, tx, pkey, seeds, outputs, stream, nx, sigma, m, s),
        spec_no_collisions(tbl, tx, pkey, seeds, m, sigma),
        yviews.len() == ty.len(),
        0 <= p <= tbl.len(),
        spec_hits(tbl, outputs, stream, nx, sigma, m as int, s as int, yviews, p).contains(v),
    ensures
        exists|k: int| 0 <= k < ty.len() && yviews[k] == v && tx.contains(#[trigger] ty[k]),
    decreases p,
{
    let rest = spec_hits(tbl, outputs, stream, nx, sigma, m as int, s as int, yviews, p - 1);
    let cur = spec_hits(tbl, outputs, stream, nx, sigma, m as int, s as int, yviews, p);
    if cur == rest {
        lemma_intersection_sound(
            tbl, ty, tx, pkey, seeds, outputs, stream, nx, sigma, m, s, yviews, p - 1, v,
        );
    } else {
        let it = tbl[p - 1].unwrap();
        assert(cur == rest.push(yviews[it.input_index as int]));
        if v == yviews[it.input_index as int] && !rest.contains(v) {
            lemma_slot_matched(tbl, ty, tx, pkey, seeds, outputs, stream, nx, sigma, m, s, p - 1);
            let k = it.input_index as int;
            assert(it.entry == ty[k]);
            assert(tx.contains(ty[k]));
            assert(yviews[k] == v);
        } else {
            assert(rest.contains(v)) by {
                let j = choose|j: int| 0 <= j < cur.len() && cur[j] == v;
                if j < rest.len() {
                    assert(rest[j] == v);
                }
            }
            lemma_intersection_sound(
                tbl, ty, tx, pkey, seeds, outputs, stream, nx, sigma, m, s, yviews, p - 1, v,
            );
        }
    }
}

/// How many of the first p slots emit the receiver input k.
pub open spec fn spec_emit_count(
    tbl: Seq<Option<CuckooItem>>,
    outputs: Seq<Seq<u8>>,
    stream: Seq<u8>,
    nx: nat,
    sigma: nat,
    m: int,
    s: int,
    yviews: Seq<Seq<u8>>,
    p: int,
    k: nat,
) -> nat
    decreases p,
{
    if p <= 0 {
        0
    } else {
        spec_emit_count(tbl, outputs, stream, nx, sigma, m, s, yviews, p - 1, k) + match tbl[p
            - 1] {
            Option::Some(it) => if spec_matched(
                it,
                outputs[p - 1].take(sigma as int),
                stream,
                nx,
                sigma,
                m,
                s,
                p - 1,
            ) && it.input_index < yviews.len() && it.input_index == k {
                1nat
            } else {
                0
            },
            Option::None => 0,
        }
    }
}

/// The count of residence among the first p slots.
proof fn lemma_idx_count_take(tbl: Seq<Option<CuckooItem>>, p: int, k: nat)
    requires
        0 < p <= tbl.len(),
    ensures
        spec_idx_count(tbl.take(p), k) == spec_idx_count(tbl.take(p - 1), k)
            + crate::cuckoo::spec_idx_one(tbl[p - 1], k),
{
    assert(tbl.take(p).drop_last() =~= tbl.take(p - 1));
    assert(tbl.take(p).last() == tbl[p - 1]);
}

/// Exactly once: the number of slots that emit input k is one when k's token
/// lies among the sender's tokens, and zero otherwise.
pub proof fn lemma_intersection_exactly_once(
    tbl: Seq<Option<CuckooItem>>,
    ty: Seq<Token>,
    tx: Seq<Token>,
    pkey: Token,
    seeds: Seq<Seq<u8>>,
    outputs: Seq<Seq<u8>>,
    stream: Seq<u8>,
    nx: nat,
    sigma: nat,
    m: nat,
    s: nat,
    yviews: Seq<Seq<u8>>,
    p: int,
    k: nat,
)
    requires
        spec_honest_run(tbl, ty, tx, pkey, seeds, outputs, stream, nx, sigma, m, s),
        spec_no_collisions(tbl, tx, pkey, seeds, m, sigma),
        yviews.len() == ty.len(),
        k < ty.len(),
        0 <= p <= tbl.len(),
    ensures
        spec_emit_count(tbl, outputs, stream, nx, sigma, m as int, s as int, yviews, p, k) == (
        if tx.contains(ty[k as int]) {
            spec_idx_count(tbl.take(p), k)
        } else {
            0
        }),
    decreases p,
{
    if p > 0 {
        lemma_intersection_exactly_once(
            tbl, ty, tx, pkey, seeds, outputs, stream, nx, sigma, m, s, yviews, p - 1, k,
        );
        lemma_idx_count_take(tbl, p, k);
        match tbl[p - 1] {
            Option::Some(it) => {
                if it.input_index == k {
                    assert(it.entry == ty[k as int]);
                    assert(it.input_index < yviews.len());
                    lemma_slot_matched(
                        tbl, ty, tx, pkey, seeds, outputs, stream, nx, sigma, m, s, p - 1,
                    );
                }
            },
            Option::None => {},
        }
    } else {
        assert(tbl.take(0) =~= Seq::empty());
    }
}

/// Round trip: when the sender's tokens are exactly the receiver's tokens
/// (Y = X), every receiver input is emitted, and exactly once.
pub proof fn lemma_round_trip(
    tbl: Seq<Option<CuckooItem>>,
    ty: Seq<Token>,
    tx: Seq<Token>,
    pkey: Token,
    seeds: Seq<Seq<u8>>,
    outputs: Seq<Seq<u8>>,
    stream: Seq<u8>,
    nx: nat,
    sigma: nat,
    m: nat,
    s: nat,
    yviews: Seq<Seq<u8>>,
    k: int,
)
    requires
        spec_honest_run(tbl, ty, tx, pkey, seeds, outputs, stream, nx, sigma, m, s),
        spec_no_collisions(tbl, tx, pkey, seeds, m, sigma),
        yviews.len() == ty.len(),
        forall|j: nat| spec_idx_count(tbl, j) == (if j < ty.len() { 1nat } else { 0 }),
        tx == ty,
        0 <= k < ty.len(),
    ensures
        spec_hits(tbl, outputs, stream, nx, sigma, m as int, s as int, yviews, (m + s) as int)
            .contains(yviews[k]),
        spec_emit_count(
            tbl,
            outputs,
            stream,
            nx,
            sigma,
            m as int,
            s as int,
            yviews,
            tbl.len() as int,
            k as nat,
        ) == 1,
{
    assert(tx.contains(ty[k]));
    lemma_intersection_complete(
        tbl, ty, tx, pkey, seeds, outputs, stream, nx, sigma, m, s, yviews, k,
    );
    lemma_intersection_exactly_once(
        tbl,
        ty,
        tx,
        pkey,
        seeds,
        outputs,
        stream,
        nx,
        sigma,
        m,
        s,
        yviews,
        tbl.len() as int,
        k as nat,
    );
    assert(tbl.take(tbl.len() as int) =~= tbl);
}

/// Disjointness: when no receiver token lies among the sender's tokens, the
/// output is empty.
pub proof fn lemma_disjoint_empty(
    tbl: Seq<Option<CuckooItem>>,
    ty: Seq<Token>,
    tx: Seq<Token>,
    pkey: Token,
    seeds: Seq<Seq<u8>>,
    outputs: Seq<Seq<u8>>,
    stream: Seq<u8>,
    nx: nat,
    sigma: nat,
    m: nat,
    s: nat,
    yviews: Seq<Seq<u8>>,
)
    requires
        spec_honest_run(tbl, ty, tx, pkey, seeds, outputs, stream, nx, sigma, m, s),
        spec_no_collisions(tbl, tx, pkey, seeds, m, sigma),
        yviews.len() == ty.len(),
        forall|k: int| 0 <= k < ty.len() ==> !tx.contains(#[trigger] ty[k]),
    ensures
        spec_hits(tbl, outputs, stream, nx, sigma, m as int, s as int, yviews, (m + s) as int).len()
            == 0,
{
    let hits = spec_hits(tbl, outputs, stream, nx, sigma, m as int, s as int, yviews, (m
        + s) as int);
    if hits.len() > 0 {
        let v = hits[0];
        assert(hits.contains(v));
        lemma_intersection_sound(
            tbl,
            ty,
            tx,
            pkey,
            seeds,
            outputs,
            stream,
            nx,
            sigma,
            m,
            s,
            yviews,
            (m + s) as int,
            v,
        );
    }
}

/// Receiver privacy upper bound: the sender's record transcript is exactly
/// 3·n·sigma + s·n·sigma bytes, a function of the sender's own set size and
/// the announced table parameters alone — nothing of Y's contents.
pub proof fn lemma_sender_transcript_length(
    nonce: Token,
    peer_nonce: Token,
    xviews: Seq<Seq<u8>>,
    msg: Seq<u8>,
    snd: crate::psz::Sender,
    stream: Seq<u8>,
)
    requires
        crate::psz::spec_send_ok(nonce, peer_nonce, xviews, msg, snd, stream),
    ensures
        stream.len() == 3 * (xviews.len() * crate::mask::spec_masksize(xviews.len()))
            + vstd::bytes::spec_u64_from_le_bytes(msg.subrange(8, 16)) * (xviews.len()
            * crate::mask::spec_masksize(xviews.len())),
{
    let n = xviews.len();
    let sigma = crate::mask::spec_masksize(n);
    let s = vstd::bytes::spec_u64_from_le_bytes(msg.subrange(8, 16)) as nat;
    assert((3 + s) * (n * sigma) == 3 * (n * sigma) + s * (n * sigma)) by (nonlinear_arith);
}

} // verus!
