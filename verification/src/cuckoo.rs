//! Cuckoo hash table: places the Receiver's n tokens into m bins (three hash
//! functions, eviction with a bounded kickout budget) plus a stash of s
//! overflow slots. Construction is a pure function of the token sequence, so
//! both parties agree on every placement that they later replay.
use crate::error::Error;
use crate::mask::MAX_SET_SIZE;
use crate::token::{Token, NHASHES};
use vstd::prelude::*;

verus! {

/// Kickout budget: evictions attempted before an item is pushed to the stash.
pub const MAX_KICKS: usize = 100;

/// One occupied slot: the token, the index of the original input it came
/// from, and the hash function that placed it (`None` for stash residents).
#[derive(Clone, Copy, Debug, PartialEq, Eq, Structural)]
pub struct CuckooItem {
    pub entry: Token,
    pub input_index: usize,
    pub hash_index: Option<usize>,
}

/// The table: `items[0..nbins)` are the bins, `items[nbins..nbins+stashsize)`
/// the stash; `None` marks an empty slot.
pub struct CuckooHash {
    pub items: Vec<Option<CuckooItem>>,
    pub nbins: usize,
    pub stashsize: usize,
}

/// Bin count m for n items: ceil(1.2 * n).
pub open spec fn spec_nbins(n: nat) -> nat {
    (6 * n + 4) / 5
}

/// Stash size s for n items, from the static schedule (larger sets need
/// relatively fewer stash slots).
pub open spec fn spec_stashsize(n: nat) -> nat
    recommends
        1 <= n <= MAX_SET_SIZE,
{
    if n <= 0x100 {
        12
    } else if n <= 0x1000 {
        6
    } else if n <= 0x10000 {
        4
    } else if n <= 0x100000 {
        3
    } else {
        2
    }
}

pub fn compute_nbins(n: usize) -> (r: usize)
    requires
        1 <= n <= MAX_SET_SIZE,
    ensures
        r == spec_nbins(n as nat),
        2 <= r <= 20132660,
{
    (6 * n + 4) / 5
}

pub fn compute_stashsize(n: usize) -> (r: usize)
    requires
        1 <= n <= MAX_SET_SIZE,
    ensures
        r == spec_stashsize(n as nat),
        2 <= r <= 12,
{
    if n <= 0x100 {
        12
    } else if n <= 0x1000 {
        6
    } else if n <= 0x10000 {
        4
    } else if n <= 0x100000 {
        3
    } else {
        2
    }
}

/// The bin that hash function i assigns to token t among m bins: the i-th
/// 32-bit lane of the token, reduced mod m. The lanes never read the low
/// byte where the hash index is spliced into PRF queries.
pub open spec fn spec_bin(t: Token, i: nat, m: nat) -> nat
    recommends
        i < NHASHES,
        m > 0,
{
    t.spec_lane(i) as nat % m
}

/// First free slot at or after position j (the stash scan), or the table
/// length when every remaining slot is occupied.
pub open spec fn spec_find_free(tbl: Seq<Option<CuckooItem>>, j: int) -> int
    recommends
        0 <= j <= tbl.len(),
    decreases tbl.len() - j,
{
    if j < 0 || j >= tbl.len() {
        tbl.len() as int
    } else if tbl[j] is None {
        j
    } else {
        spec_find_free(tbl, j + 1)
    }
}

/// Place one token (with its input index) into the table: try its three
/// candidate bins starting from hash index h; if all are occupied, evict the
/// occupant of the first candidate and re-place it under its next hash
/// function, until the kickout budget runs out; then fall back to the first
/// free stash slot. `None` means the stash was full: the build fails.
pub open spec fn spec_place(
    tbl: Seq<Option<CuckooItem>>,
    m: nat,
    entry: Token,
    idx: nat,
    h: nat,
    budget: nat,
) -> Option<Seq<Option<CuckooItem>>>
    recommends
        m > 0,
        m <= tbl.len(),
        h < NHASHES,
    decreases budget,
{
    let b0 = spec_bin(entry, h, m);
    let b1 = spec_bin(entry, ((h + 1) % (NHASHES as nat)), m);
    let b2 = spec_bin(entry, ((h + 2) % (NHASHES as nat)), m);
    if tbl[b0 as int] is None {
        Some(
            tbl.update(
                b0 as int,
                Some(CuckooItem { entry, input_index: idx as usize, hash_index: Some(h as usize) }),
            ),
        )
    } else if tbl[b1 as int] is None {
        Some(
            tbl.update(
                b1 as int,
                Some(
                    CuckooItem {
                        entry,
                        input_index: idx as usize,
                        hash_index: Some((((h + 1) % (NHASHES as nat)) as usize)),
                    },
                ),
            ),
        )
    } else if tbl[b2 as int] is None {
        Some(
            tbl.update(
                b2 as int,
                Some(
                    CuckooItem {
                        entry,
                        input_index: idx as usize,
                        hash_index: Some((((h + 2) % (NHASHES as nat)) as usize)),
                    },
                ),
            ),
        )
    } else if budget == 0 {
        let j = spec_find_free(tbl, m as int);
        if j < tbl.len() {
            Some(
                tbl.update(
                    j,
                    Some(CuckooItem { entry, input_index: idx as usize, hash_index: None }),
                ),
            )
        } else {
            None
        }
    } else {
        match tbl[b0 as int] {
            Some(old) => {
                let tbl2 = tbl.update(
                    b0 as int,
                    Some(
                        CuckooItem {
                            entry,
                            input_index: idx as usize,
                            hash_index: Some(h as usize),
                        },
                    ),
                );
                let oh = match old.hash_index {
                    Some(i) => if i < NHASHES {
                        i as nat
                    } else {
                        0
                    },
                    None => 0,
                };
                spec_place(
                    tbl2,
                    m,
                    old.entry,
                    old.input_index as nat,
                    ((oh + 1) % (NHASHES as nat)),
                    (budget - 1) as nat,
                )
            },
            None => None,  // unreachable: b0 is occupied on this branch
        }
    }
}

/// The table after placing the first k tokens, starting from the all-empty
/// table; `None` once any placement has failed.
pub open spec fn spec_build_upto(items: Seq<Token>, m: nat, slots: nat, k: int) -> Option<
    Seq<Option<CuckooItem>>,
>
    recommends
        0 <= k <= items.len(),
    decreases k,
{
    if k <= 0 {
        Some(Seq::new(slots, |p: int| Option::<CuckooItem>::None))
    } else {
        match spec_build_upto(items, m, slots, k - 1) {
            None => None,
            Some(t) => spec_place(t, m, items[k - 1], (k - 1) as nat, 0, MAX_KICKS as nat),
        }
    }
}

/// The finished table for a token sequence: bins and stash sized by the
/// schedule, tokens placed in input order. A pure function of the tokens.
pub open spec fn spec_table(items: Seq<Token>) -> Option<Seq<Option<CuckooItem>>>
    recommends
        1 <= items.len() <= MAX_SET_SIZE,
{
    let n = items.len();
    spec_build_upto(
        items,
        spec_nbins(n),
        spec_nbins(n) + spec_stashsize(n),
        n as int,
    )
}

/// Structural invariant of a built table, against the token sequence it was
/// built from: every occupied bin slot records the hash function that placed
/// it and sits at the bin that hash function assigns its token; stash slots
/// carry no hash index; and every resident item is one of the inputs, with
/// its entry equal to that input's token.
pub open spec fn spec_table_wf(
    tbl: Seq<Option<CuckooItem>>,
    items: Seq<Token>,
    m: nat,
) -> bool {
    forall|p: int|
        0 <= p < tbl.len() ==> match #[trigger] tbl[p] {
            Option::Some(it) => {
                &&& it.input_index < items.len()
                &&& it.entry == items[it.input_index as int]
                &&& if p < m {
                    it.hash_index matches Some(i) && i < NHASHES && spec_bin(
                        it.entry,
                        i as nat,
                        m,
                    ) == p
                } else {
                    it.hash_index is None
                }
            },
            Option::None => true,
        }
}

/// The stash scan never points before its start, stays in range, and lands
/// on a free slot when it lands inside the table.
proof fn lemma_find_free_range(tbl: Seq<Option<CuckooItem>>, j: int)
    requires
        0 <= j <= tbl.len(),
    ensures
        j <= spec_find_free(tbl, j) <= tbl.len(),
        spec_find_free(tbl, j) < tbl.len() ==> tbl[spec_find_free(tbl, j)] is None,
    decreases tbl.len() - j,
{
    if j < tbl.len() && !(tbl[j] is None) {
        lemma_find_free_range(tbl, j + 1);
    }
}

/// Updating one slot with a well-placed item keeps the invariant.
proof fn lemma_wf_update(
    tbl: Seq<Option<CuckooItem>>,
    items: Seq<Token>,
    m: nat,
    b: int,
    it: CuckooItem,
)
    requires
        0 < m <= tbl.len(),
        spec_table_wf(tbl, items, m),
        0 <= b < tbl.len(),
        it.input_index < items.len(),
        it.entry == items[it.input_index as int],
        b < m ==> (it.hash_index matches Some(i) && i < NHASHES && spec_bin(it.entry, i as nat, m)
            == b),
        b >= m ==> it.hash_index is None,
    ensures
        spec_table_wf(tbl.update(b, Some(it)), items, m),
{
    let t2 = tbl.update(b, Some(it));
    assert forall|p: int|
        0 <= p < t2.len() implies match #[trigger] t2[p] {
            Option::Some(x) => {
                &&& x.input_index < items.len()
                &&& x.entry == items[x.input_index as int]
                &&& if p < m {
                    x.hash_index matches Some(i) && i < NHASHES && spec_bin(x.entry, i as nat, m)
                        == p
                } else {
                    x.hash_index is None
                }
            },
            Option::None => true,
        } by {
        if p != b {
            assert(t2[p] == tbl[p]);
        }
    }
}

/// Placement preserves the structural invariant.
proof fn lemma_place_wf(
    tbl: Seq<Option<CuckooItem>>,
    items: Seq<Token>,
    m: nat,
    entry: Token,
    idx: nat,
    h: nat,
    budget: nat,
)
    requires
        0 < m <= tbl.len(),
        h < NHASHES,
        spec_table_wf(tbl, items, m),
        items.len() <= 0xffff_ffff,
        idx < items.len(),
        entry == items[idx as int],
        spec_place(tbl, m, entry, idx, h, budget) is Some,
    ensures
        spec_place(tbl, m, entry, idx, h, budget) matches Some(t2) && t2.len() == tbl.len()
            && spec_table_wf(t2, items, m),
    decreases budget,
{
    let b0 = spec_bin(entry, h, m);
    let b1 = spec_bin(entry, ((h + 1) % (NHASHES as nat)), m);
    let b2 = spec_bin(entry, ((h + 2) % (NHASHES as nat)), m);
    if tbl[b0 as int] is None {
        lemma_wf_update(
            tbl,
            items,
            m,
            b0 as int,
            CuckooItem { entry, input_index: idx as usize, hash_index: Some(h as usize) },
        );
    } else if tbl[b1 as int] is None {
        lemma_wf_update(
            tbl,
            items,
            m,
            b1 as int,
            CuckooItem {
                entry,
                input_index: idx as usize,
                hash_index: Some((((h + 1) % (NHASHES as nat)) as usize)),
            },
        );
    } else if tbl[b2 as int] is None {
        lemma_wf_update(
            tbl,
            items,
            m,
            b2 as int,
            CuckooItem {
                entry,
                input_index: idx as usize,
                hash_index: Some((((h + 2) % (NHASHES as nat)) as usize)),
            },
        );
    } else if budget == 0 {
        lemma_find_free_range(tbl, m as int);
        let j = spec_find_free(tbl, m as int);
        if j < tbl.len() {
            lemma_wf_update(
                tbl,
                items,
                m,
                j,
                CuckooItem { entry, input_index: idx as usize, hash_index: None },
            );
        }
    } else {
        match tbl[b0 as int] {
            Some(old) => {
                let tbl2 = tbl.update(
                    b0 as int,
                    Some(
                        CuckooItem {
                            entry,
                            input_index: idx as usize,
                            hash_index: Some(h as usize),
                        },
                    ),
                );
                let oh = match old.hash_index {
                    Some(i) => if i < NHASHES {
                        i as nat
                    } else {
                        0
                    },
                    None => 0,
                };
                assert(old.input_index < items.len() && old.entry == items[old.input_index as int]);
                lemma_wf_update(
                    tbl,
                    items,
                    m,
                    b0 as int,
                    CuckooItem { entry, input_index: idx as usize, hash_index: Some(h as usize) },
                );
                lemma_place_wf(
                    tbl2,
                    items,
                    m,
                    old.entry,
                    old.input_index as nat,
                    ((oh + 1) % (NHASHES as nat)),
                    (budget - 1) as nat,
                );
            },
            None => {},
        }
    }
}

/// Every partial build satisfies the structural invariant.
pub proof fn lemma_build_wf(items: Seq<Token>, m: nat, slots: nat, k: int)
    requires
        0 < m <= slots,
        items.len() <= 0xffff_ffff,
        0 <= k <= items.len(),
        spec_build_upto(items, m, slots, k) is Some,
    ensures
        spec_build_upto(items, m, slots, k) matches Some(t) && t.len() == slots && spec_table_wf(
            t,
            items,
            m,
        ),
    decreases k,
{
    if k > 0 {
        lemma_build_wf(items, m, slots, k - 1);
        let t = spec_build_upto(items, m, slots, k - 1).unwrap();
        lemma_place_wf(t, items, m, items[k - 1], (k - 1) as nat, 0, MAX_KICKS as nat);
    }
}

/// A finished table satisfies the structural invariant.
pub proof fn lemma_table_wf(items: Seq<Token>)
    requires
        1 <= items.len() <= MAX_SET_SIZE,
        spec_table(items) is Some,
    ensures
        spec_table(items) matches Some(t) && t.len() == spec_nbins(items.len()) + spec_stashsize(
            items.len(),
        ) && spec_table_wf(t, items, spec_nbins(items.len())),
{
    lemma_build_wf(
        items,
        spec_nbins(items.len()),
        spec_nbins(items.len()) + spec_stashsize(items.len()),
        items.len() as int,
    );
}

/// How many slots hold an item that came from input k.
pub open spec fn spec_idx_count(tbl: Seq<Option<CuckooItem>>, k: nat) -> nat
    decreases tbl.len(),
{
    if tbl.len() == 0 {
        0
    } else {
        spec_idx_count(tbl.drop_last(), k) + match tbl.last() {
            Option::Some(it) => if it.input_index == k {
                1nat
            } else {
                0
            },
            Option::None => 0,
        }
    }
}

/// The contribution of one slot to an index count.
pub open spec fn spec_idx_one(slot: Option<CuckooItem>, k: nat) -> nat {
    match slot {
        Option::Some(it) => if it.input_index == k {
            1nat
        } else {
            0
        },
        Option::None => 0,
    }
}

/// Updating slot p trades its old contribution for the new one.
proof fn lemma_idx_count_update(tbl: Seq<Option<CuckooItem>>, p: int, v: Option<CuckooItem>, k: nat)
    requires
        0 <= p < tbl.len(),
    ensures
        spec_idx_count(tbl.update(p, v), k) + spec_idx_one(tbl[p], k) == spec_idx_count(tbl, k)
            + spec_idx_one(v, k),
    decreases tbl.len(),
{
    let t2 = tbl.update(p, v);
    if p == tbl.len() - 1 {
        assert(t2.drop_last() =~= tbl.drop_last());
    } else {
        assert(t2.drop_last() =~= tbl.drop_last().update(p, v));
        assert(t2.last() == tbl.last());
        lemma_idx_count_update(tbl.drop_last(), p, v, k);
    }
}

/// An all-empty table holds nothing.
proof fn lemma_idx_count_empty(tbl: Seq<Option<CuckooItem>>, k: nat)
    requires
        forall|p: int| 0 <= p < tbl.len() ==> tbl[p] is None,
    ensures
        spec_idx_count(tbl, k) == 0,
    decreases tbl.len(),
{
    if tbl.len() > 0 {
        lemma_idx_count_empty(tbl.drop_last(), k);
    }
}

/// Placement adds exactly the placed input and moves nothing else in or out.
proof fn lemma_place_idx_count(
    tbl: Seq<Option<CuckooItem>>,
    m: nat,
    entry: Token,
    idx: nat,
    h: nat,
    budget: nat,
    k: nat,
)
    requires
        0 < m <= tbl.len(),
        spec_place(tbl, m, entry, idx, h, budget) is Some,
        idx <= usize::MAX,
    ensures
        spec_place(tbl, m, entry, idx, h, budget) matches Some(t2) && spec_idx_count(t2, k)
            == spec_idx_count(tbl, k) + (if k == idx {
            1nat
        } else {
            0
        }),
    decreases budget,
{
    let b0 = spec_bin(entry, h, m);
    let b1 = spec_bin(entry, ((h + 1) % (NHASHES as nat)), m);
    let b2 = spec_bin(entry, ((h + 2) % (NHASHES as nat)), m);
    let newit = |hi: Option<usize>| Some(
        CuckooItem { entry, input_index: idx as usize, hash_index: hi },
    );
    if tbl[b0 as int] is None {
        lemma_idx_count_update(tbl, b0 as int, newit(Some(h as usize)), k);
    } else if tbl[b1 as int] is None {
        lemma_idx_count_update(tbl, b1 as int, newit(Some((((h + 1) % (NHASHES as nat)) as usize))), k);
    } else if tbl[b2 as int] is None {
        lemma_idx_count_update(tbl, b2 as int, newit(Some((((h + 2) % (NHASHES as nat)) as usize))), k);
    } else if budget == 0 {
        lemma_find_free_range(tbl, m as int);
        let j = spec_find_free(tbl, m as int);
        if j < tbl.len() {
            lemma_idx_count_update(tbl, j, newit(None), k);
        }
    } else {
        match tbl[b0 as int] {
            Some(old) => {
                let tbl2 = tbl.update(b0 as int, newit(Some(h as usize)));
                let oh = match old.hash_index {
                    Some(i) => if i < NHASHES {
                        i as nat
                    } else {
                        0
                    },
                    None => 0,
                };
                lemma_idx_count_update(tbl, b0 as int, newit(Some(h as usize)), k);
                lemma_place_idx_count(
                    tbl2,
                    m,
                    old.entry,
                    old.input_index as nat,
                    ((oh + 1) % (NHASHES as nat)),
                    (budget - 1) as nat,
                    k,
                );
            },
            None => {},
        }
    }
}

/// After building the first kk inputs, input k is resident exactly once when
/// already placed, and not at all otherwise.
pub proof fn lemma_build_idx_count(items: Seq<Token>, m: nat, slots: nat, kk: int, k: nat)
    requires
        0 < m <= slots,
        items.len() <= 0xffff_ffff,
        0 <= kk <= items.len(),
        spec_build_upto(items, m, slots, kk) is Some,
    ensures
        spec_build_upto(items, m, slots, kk) matches Some(t) && spec_idx_count(t, k) == (if k < kk {
            1nat
        } else {
            0
        }),
    decreases kk,
{
    if kk == 0 {
        let t = spec_build_upto(items, m, slots, 0).unwrap();
        lemma_idx_count_empty(t, k);
    } else {
        lemma_build_idx_count(items, m, slots, kk - 1, k);
        let t = spec_build_upto(items, m, slots, kk - 1).unwrap();
        lemma_build_wf(items, m, slots, kk - 1);
        lemma_place_idx_count(t, m, items[kk - 1], (kk - 1) as nat, 0, MAX_KICKS as nat, k);
    }
}

/// In a finished table every input is resident exactly once.
pub proof fn lemma_table_idx_count(items: Seq<Token>, k: nat)
    requires
        1 <= items.len() <= MAX_SET_SIZE,
        spec_table(items) is Some,
    ensures
        spec_table(items) matches Some(t) && spec_idx_count(t, k) == (if k < items.len() {
            1nat
        } else {
            0
        }),
{
    lemma_build_idx_count(
        items,
        spec_nbins(items.len()),
        spec_nbins(items.len()) + spec_stashsize(items.len()),
        items.len() as int,
        k,
    );
}

/// Once a placement has failed, every longer build fails too.
pub proof fn lemma_build_upto_none(items: Seq<Token>, m: nat, slots: nat, k: int, k2: int)
    requires
        0 <= k <= k2 <= items.len(),
        spec_build_upto(items, m, slots, k) is None,
    ensures
        spec_build_upto(items, m, slots, k2) is None,
    decreases k2 - k,
{
    if k2 > k {
        lemma_build_upto_none(items, m, slots, k, k2 - 1);
    }
}

impl CuckooHash {
    /// Bin placement, shared verbatim by both parties.
    pub fn bin(input: Token, hidx: usize, nbins: usize) -> (r: usize)
        requires
            hidx < NHASHES,
            nbins > 0,
        ensures
            r == spec_bin(input, hidx as nat, nbins as nat),
            r < nbins,
    {
        (input.lane(hidx) % (nbins as u64)) as usize
    }

    /// Place one item, mirroring `spec_place` exactly. Returns whether the
    /// item (and every evicted one) found a slot.
    fn place(tbl: &mut Vec<Option<CuckooItem>>, m: usize, entry: Token, idx: usize) -> (ok: bool)
        requires
            0 < m <= old(tbl)@.len(),
            old(tbl)@.len() <= 21000000,
        ensures
            final(tbl)@.len() == old(tbl)@.len(),
            ok ==> Some(final(tbl)@) == spec_place(
                old(tbl)@,
                m as nat,
                entry,
                idx as nat,
                0,
                MAX_KICKS as nat,
            ),
            !ok ==> spec_place(
                old(tbl)@,
                m as nat,
                entry,
                idx as nat,
                0,
                MAX_KICKS as nat,
            ) is None,
    {
        let ghost tbl0 = tbl@;
        let ghost target = spec_place(tbl0, m as nat, entry, idx as nat, 0, MAX_KICKS as nat);
        let mut cur_entry = entry;
        let mut cur_idx = idx;
        let mut h: usize = 0;
        let mut budget: usize = MAX_KICKS;
        loop
            invariant
                0 < m <= tbl@.len(),
                tbl@.len() == tbl0.len(),
                h < NHASHES,
                spec_place(tbl@, m as nat, cur_entry, cur_idx as nat, h as nat, budget as nat)
                    == target,
            decreases budget,
        {
            let b0 = Self::bin(cur_entry, h, m);
            let b1 = Self::bin(cur_entry, (h + 1) % NHASHES, m);
            let b2 = Self::bin(cur_entry, (h + 2) % NHASHES, m);
            if tbl[b0].is_none() {
                tbl.set(
                    b0,
                    Some(CuckooItem { entry: cur_entry, input_index: cur_idx, hash_index: Some(h) }),
                );
                return true;
            }
            if tbl[b1].is_none() {
                tbl.set(
                    b1,
                    Some(
                        CuckooItem {
                            entry: cur_entry,
                            input_index: cur_idx,
                            hash_index: Some((h + 1) % NHASHES),
                        },
                    ),
                );
                return true;
            }
            if tbl[b2].is_none() {
                tbl.set(
                    b2,
                    Some(
                        CuckooItem {
                            entry: cur_entry,
                            input_index: cur_idx,
                            hash_index: Some((h + 2) % NHASHES),
                        },
                    ),
                );
                return true;
            }
            if budget == 0 {
                // Stash fallback: scan for the first free stash slot.
                let ghost tblpre = tbl@;
                let mut j: usize = m;
                while j < tbl.len()
                    invariant
                        tbl@ == tblpre,
                        m <= j <= tbl@.len(),
                        spec_find_free(tbl@, m as int) == spec_find_free(tbl@, j as int),
                    decreases tbl@.len() - j,
                {
                    if tbl[j].is_none() {
                        tbl.set(
                            j,
                            Some(
                                CuckooItem {
                                    entry: cur_entry,
                                    input_index: cur_idx,
                                    hash_index: None,
                                },
                            ),
                        );
                        return true;
                    }
                    j = j + 1;
                }
                return false;
            }
            // Evict the occupant of the first candidate bin.
            let old_item = tbl[b0].unwrap();
            tbl.set(
                b0,
                Some(CuckooItem { entry: cur_entry, input_index: cur_idx, hash_index: Some(h) }),
            );
            cur_entry = old_item.entry;
            cur_idx = old_item.input_index;
            h = match old_item.hash_index {
                Some(i) => if i < NHASHES {
                    (i + 1) % NHASHES
                } else {
                    1
                },
                None => 1,
            };
            budget = budget - 1;
        }
    }

    /// Build the table over the given tokens with three hash functions.
    /// The result is `spec_table(inputs)`: construction is a pure function
    /// of the token sequence. Fails with `BadInputSize` exactly when the
    /// input count is outside the schedule, and with `CuckooFailed` exactly
    /// when some placement exhausts budget and stash.
    pub fn new(inputs: &Vec<Token>, nhashes: usize) -> (r: Result<CuckooHash, Error>)
        requires
            nhashes == NHASHES,
        ensures
            match r {
                Ok(t) => {
                    &&& 1 <= inputs@.len() <= MAX_SET_SIZE
                    &&& t.nbins == spec_nbins(inputs@.len())
                    &&& t.stashsize == spec_stashsize(inputs@.len())
                    &&& t.items@.len() == t.nbins + t.stashsize
                    &&& Some(t.items@) == spec_table(inputs@)
                },
                Err(Error::BadInputSize) => inputs@.len() == 0 || inputs@.len() > MAX_SET_SIZE,
                Err(Error::CuckooFailed) => 1 <= inputs@.len() <= MAX_SET_SIZE && spec_table(
                    inputs@,
                ) is None,
                Err(_) => false,
            },
    {
        let n = inputs.len();
        if n == 0 || n > MAX_SET_SIZE {
            return Err(Error::BadInputSize);
        }
        let nbins = compute_nbins(n);
        let stashsize = compute_stashsize(n);
        let total = nbins + stashsize;
        let mut items: Vec<Option<CuckooItem>> = Vec::new();
        let mut p: usize = 0;
        while p < total
            invariant
                items@.len() == p,
                p <= total,
                forall|q: int| 0 <= q < p ==> items@[q] is None,
            decreases total - p,
        {
            items.push(None);
            p = p + 1;
        }
        proof {
            assert(items@ =~= Seq::new((nbins + stashsize) as nat, |q: int| None));
        }
        let mut k: usize = 0;
        while k < n
            invariant
                0 <= k <= n,
                n == inputs@.len(),
                1 <= n <= MAX_SET_SIZE,
                nbins == spec_nbins(n as nat),
                stashsize == spec_stashsize(n as nat),
                items@.len() == nbins + stashsize,
                Some(items@) == spec_build_upto(
                    inputs@,
                    nbins as nat,
                    (nbins + stashsize) as nat,
                    k as int,
                ),
            decreases n - k,
        {
            let entry = inputs[k];
            let ghost pre = items@;
            let ok = Self::place(&mut items, nbins, entry, k);
            if !ok {
                proof {
                    assert(spec_build_upto(
                        inputs@,
                        nbins as nat,
                        (nbins + stashsize) as nat,
                        k + 1,
                    ) is None);
                    lemma_build_upto_none(
                        inputs@,
                        nbins as nat,
                        (nbins + stashsize) as nat,
                        k + 1,
                        n as int,
                    );
                }
                return Err(Error::CuckooFailed);
            }
            k = k + 1;
        }
        Ok(CuckooHash { items, nbins, stashsize })
    }
}

} // verus!
