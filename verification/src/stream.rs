//! Byte-stream helpers: fixed-width records written back to back with no
//! delimiters, and their exact correspondence to record sequences.
use vstd::prelude::*;
use vstd::seq_lib::group_to_multiset_ensures;

verus! {

/// The record sequence held in a flat byte string: chunk c is bytes
/// [c*w, c*w + w).
pub open spec fn spec_chunks(s: Seq<u8>, w: nat) -> Seq<Seq<u8>>
    recommends
        w > 0,
{
    Seq::new(s.len() / w, |c: int| s.subrange(c * w as int, c * w as int + w as int))
}

/// Concatenation of records into a flat byte string.
pub open spec fn spec_concat(rs: Seq<Seq<u8>>) -> Seq<u8>
    decreases rs.len(),
{
    if rs.len() == 0 {
        Seq::empty()
    } else {
        spec_concat(rs.drop_last()) + rs.last()
    }
}

/// Concatenating n records of width w gives n*w bytes whose chunks are
/// exactly the records again.
pub proof fn lemma_chunks_of_concat(rs: Seq<Seq<u8>>, w: nat)
    requires
        w > 0,
        forall|j: int| 0 <= j < rs.len() ==> (#[trigger] rs[j]).len() == w,
    ensures
        spec_concat(rs).len() == rs.len() * w,
        spec_chunks(spec_concat(rs), w) == rs,
    decreases rs.len(),
{
    if rs.len() == 0 {
        assert(spec_chunks(spec_concat(rs), w) =~= rs);
    } else {
        lemma_chunks_of_concat(rs.drop_last(), w);
        let pre = spec_concat(rs.drop_last());
        let all = spec_concat(rs);
        assert(all.len() == rs.len() * w) by (nonlinear_arith)
            requires
                all.len() == pre.len() + w,
                pre.len() == (rs.len() - 1) * w,
        ;
        assert(all.len() as int / w as int == rs.len() as int) by (nonlinear_arith)
            requires
                all.len() == rs.len() * w,
                w > 0,
        ;
        assert forall|c: int| 0 <= c < rs.len() implies spec_chunks(all, w)[c] == rs[c] by {
            if c < rs.len() - 1 {
                assert(c * w + w <= pre.len()) by (nonlinear_arith)
                    requires
                        pre.len() == (rs.len() - 1) * w,
                        0 <= c < rs.len() - 1,
                        w > 0,
                ;
                assert(all.subrange(c * w as int, c * w as int + w as int) =~= pre.subrange(
                    c * w as int,
                    c * w as int + w as int,
                ));
                assert(spec_chunks(pre, w)[c] == rs.drop_last()[c]);
            } else {
                assert(c * w == pre.len()) by (nonlinear_arith)
                    requires
                        pre.len() == (rs.len() - 1) * w,
                        c == rs.len() - 1,
                ;
                assert(all.subrange(c * w as int, c * w as int + w as int) =~= rs.last());
            }
        }
        assert(spec_chunks(all, w) =~= rs);
    }
}

/// Append every record (each w bytes wide) to the flat stream.
pub fn append_records(stream: &mut Vec<u8>, records: &Vec<Vec<u8>>, w: usize)
    requires
        w > 0,
        forall|j: int| 0 <= j < records@.len() ==> (#[trigger] records@[j])@.len() == w,
        old(stream)@.len() + records@.len() * w <= 0xffff_ffff,
    ensures
        final(stream)@ == old(stream)@ + spec_concat(records@.map_values(|r: Vec<u8>| r@)),
{
    let ghost rviews = records@.map_values(|r: Vec<u8>| r@);
    let mut j: usize = 0;
    while j < records.len()
        invariant
            0 <= j <= records@.len(),
            stream@ == old(stream)@ + spec_concat(rviews.take(j as int)),
        decreases records@.len() - j,
    {
        let ghost pre = stream@;
        let rec = &records[j];
        let mut b: usize = 0;
        while b < rec.len()
            invariant
                0 <= b <= rec@.len(),
                stream@ == pre + rec@.take(b as int),
            decreases rec@.len() - b,
        {
            stream.push(rec[b]);
            proof {
                assert(stream@ =~= pre + rec@.take(b + 1));
            }
            b = b + 1;
        }
        proof {
            assert(rec@.take(rec@.len() as int) =~= rec@);
            assert(rviews.take(j + 1).drop_last() =~= rviews.take(j as int));
            assert(rviews.take(j + 1).last() == rec@);
            assert(stream@ =~= old(stream)@ + spec_concat(rviews.take(j + 1)));
        }
        j = j + 1;
    }
    proof {
        assert(rviews.take(records@.len() as int) =~= rviews);
    }
}

/// Byte-string equality.
pub fn bytes_eq(a: &Vec<u8>, b: &Vec<u8>) -> (r: bool)
    ensures
        r == (a@ == b@),
{
    if a.len() != b.len() {
        return false;
    }
    let mut i: usize = 0;
    while i < a.len()
        invariant
            0 <= i <= a@.len(),
            a@.len() == b@.len(),
            forall|q: int| 0 <= q < i ==> a@[q] == b@[q],
        decreases a@.len() - i,
    {
        if a[i] != b[i] {
            return false;
        }
        i = i + 1;
    }
    proof {
        assert(a@ =~= b@);
    }
    true
}

/// Whether the record list holds the given record.
pub fn contains_record(set: &Vec<Vec<u8>>, x: &Vec<u8>) -> (r: bool)
    ensures
        r == set@.map_values(|v: Vec<u8>| v@).contains(x@),
{
    let ghost views = set@.map_values(|v: Vec<u8>| v@);
    let mut i: usize = 0;
    while i < set.len()
        invariant
            0 <= i <= set@.len(),
            forall|q: int| 0 <= q < i ==> views[q] != x@,
        decreases set@.len() - i,
    {
        if bytes_eq(&set[i], x) {
            assert(views[i as int] == x@);
            return true;
        }
        i = i + 1;
    }
    false
}

/// A fresh deep copy of a byte string.
pub fn copy_bytes(v: &Vec<u8>) -> (r: Vec<u8>)
    ensures
        r@ == v@,
{
    let mut out: Vec<u8> = Vec::new();
    let mut i: usize = 0;
    while i < v.len()
        invariant
            0 <= i <= v@.len(),
            out@ == v@.take(i as int),
        decreases v@.len() - i,
    {
        out.push(v[i]);
        proof {
            assert(out@ =~= v@.take(i + 1));
        }
        i = i + 1;
    }
    proof {
        assert(v@.take(v@.len() as int) =~= v@);
    }
    out
}

/// A fresh deep copy of a list of byte strings.
pub fn copy_records(v: &Vec<Vec<u8>>) -> (r: Vec<Vec<u8>>)
    ensures
        r@.len() == v@.len(),
        forall|q: int| 0 <= q < v@.len() ==> (#[trigger] r@[q])@ == v@[q]@,
{
    let mut out: Vec<Vec<u8>> = Vec::new();
    let mut i: usize = 0;
    while i < v.len()
        invariant
            0 <= i <= v@.len(),
            out@.len() == i,
            forall|q: int| 0 <= q < i ==> (#[trigger] out@[q])@ == v@[q]@,
        decreases v@.len() - i,
    {
        let c = copy_bytes(&v[i]);
        out.push(c);
        i = i + 1;
    }
    out
}

/// Multiset equality of sequences survives any per-element view: used to
/// carry a shuffle's guarantee from records to their byte strings.
pub proof fn lemma_to_multiset_map<A, B>(s1: Seq<A>, s2: Seq<A>, f: spec_fn(A) -> B)
    requires
        s1.to_multiset() == s2.to_multiset(),
    ensures
        s1.map_values(f).to_multiset() == s2.map_values(f).to_multiset(),
    decreases s1.len(),
{
    broadcast use group_to_multiset_ensures;

    assert(s1.to_multiset().len() == s1.len());
    assert(s2.to_multiset().len() == s2.len());
    if s1.len() == 0 {
        assert(s2.len() == 0);
        assert(s1.map_values(f) =~= s2.map_values(f));
    } else {
        let x = s1.last();
        let li = s1.len() - 1;
        assert(s1.to_multiset().count(x) > 0);
        assert(s2.to_multiset().count(x) > 0);
        assert(s2.contains(x));
        let k = choose|k: int| 0 <= k < s2.len() && s2[k] == x;
        let s1r = s1.drop_last();
        let s2r = s2.remove(k);
        assert(s1.remove(li) =~= s1r);
        assert(s1r.to_multiset() == s1.to_multiset().remove(x));
        assert(s2r.to_multiset() == s2.to_multiset().remove(x));
        lemma_to_multiset_map(s1r, s2r, f);
        assert(s1.map_values(f) =~= s1r.map_values(f).push(f(x)));
        assert(s2r.map_values(f) =~= s2.map_values(f).remove(k));
        assert(s2.map_values(f)[k] == f(x));
        assert(s2.map_values(f).remove(k).to_multiset() == s2.map_values(f).to_multiset().remove(
            f(x),
        ));
        assert(s2.map_values(f).to_multiset().count(f(x)) > 0);
        assert(s1.map_values(f).to_multiset() =~= s1r.map_values(f).to_multiset().insert(f(x)));
        assert(s2.map_values(f).to_multiset() =~= s2.map_values(f).to_multiset().remove(
            f(x),
        ).insert(f(x)));
    }
}

} // verus!
