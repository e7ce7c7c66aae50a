//! Size-bucket index: groups eligible candidates by exact byte length.
//!
//! The index is the sole deduplication pre-filter: only candidates of equal
//! byte size are ever compared. Candidates are kept in scan-encounter order
//! within a bucket; the set of bucket keys carries no promised order.

use crate::filter::eligible_spec;
use crate::filter::is_eligible;
use vstd::prelude::*;

verus! {

/// One scanned entry, as the index sees it: whether it is a regular file,
/// its name's bytes, its path, and its byte size.
pub struct ScanRecord {
    pub is_file: bool,
    pub name: Seq<u8>,
    pub path: Seq<char>,
    pub size: u64,
}

/// The candidates that a sequence of index entries holds for one byte size,
/// in insertion order.
pub open spec fn bucket_of(v: Seq<(u64, Seq<char>)>, size: u64) -> Seq<Seq<char>>
    decreases v.len(),
{
    if v.len() == 0 {
        Seq::empty()
    } else {
        let rest = bucket_of(v.drop_last(), size);
        if v.last().0 == size {
            rest.push(v.last().1)
        } else {
            rest
        }
    }
}

/// The index that a sequence of scanned entries builds: one entry per
/// eligible candidate, in scan order.
pub open spec fn buckets_model(rs: Seq<ScanRecord>) -> Seq<(u64, Seq<char>)>
    decreases rs.len(),
{
    if rs.len() == 0 {
        Seq::empty()
    } else {
        let prev = buckets_model(rs.drop_last());
        let r = rs.last();
        if eligible_spec(r.is_file, r.name, r.size) {
            prev.push((r.size, r.path))
        } else {
            prev
        }
    }
}

/// Some entry among the first `t` of the index carries this byte size.
pub open spec fn key_in_prefix(v: Seq<(u64, Seq<char>)>, key: u64, t: int) -> bool {
    exists|k: int| 0 <= k < t && v[k].0 == key
}

/// A key seen at position `k` is a key of every prefix beyond `k`.
proof fn lemma_key_in_prefix_intro(v: Seq<(u64, Seq<char>)>, k: int, t: int)
    requires
        0 <= k < t,
        k < v.len(),
    ensures
        key_in_prefix(v, v[k].0, t),
{
    assert(0 <= k < t && v[k].0 == v[k].0);
}

/// A key of a prefix is a key of every longer prefix.
proof fn lemma_key_in_prefix_mono(v: Seq<(u64, Seq<char>)>, key: u64, t1: int, t2: int)
    requires
        key_in_prefix(v, key, t1),
        t1 <= t2,
    ensures
        key_in_prefix(v, key, t2),
{
    let k = choose|k: int| 0 <= k < t1 && v[k].0 == key;
    assert(0 <= k < t2 && v[k].0 == key);
}

/// The size-bucket index: every accepted candidate with its byte size, in
/// scan-encounter order.
pub struct SizeBuckets {
    items: Vec<(u64, String)>,
}

impl View for SizeBuckets {
    type V = Seq<(u64, Seq<char>)>;

    closed spec fn view(&self) -> Seq<(u64, Seq<char>)> {
        self.items@.map_values(|p: (u64, String)| (p.0, p.1@))
    }
}

impl SizeBuckets {
    /// An empty index.
    pub fn new() -> (s: SizeBuckets)
        ensures
            s@ =~= Seq::<(u64, Seq<char>)>::empty(),
    {
        SizeBuckets { items: Vec::new() }
    }

    /// Applies the path filter to one scanned entry and, when it is an
    /// eligible candidate, files it under its byte size. Returns whether the
    /// entry was accepted.
    pub fn consider_entry(&mut self, is_file: bool, name: &[u8], path: String, size: u64) -> (added:
        bool)
        ensures
            added == eligible_spec(is_file, name@, size),
            added ==> final(self)@ =~= old(self)@.push((size, path@)),
            !added ==> final(self)@ =~= old(self)@,
    {
        if is_eligible(is_file, name, size) {
            self.items.push((size, path));
            true
        } else {
            false
        }
    }

    /// How many candidates the whole index holds.
    pub fn len(&self) -> (n: usize)
        ensures
            n == self@.len(),
    {
        self.items.len()
    }

    /// The distinct byte sizes present in the index: every candidate's size
    /// appears exactly once, in first-encounter order.
    pub fn sizes(&self) -> (out: Vec<u64>)
        ensures
            forall|a: int, b: int| 0 <= a < b < out@.len() ==> out@[a] != out@[b],
            forall|k: int| 0 <= k < self@.len() ==> out@.contains(#[trigger] self@[k].0),
            forall|a: int|
                0 <= a < out@.len() ==> key_in_prefix(self@, #[trigger] out@[a], self@.len() as int),
    {
        let mut out: Vec<u64> = Vec::new();
        let mut t: usize = 0;
        while t < self.items.len()
            invariant
                t <= self@.len(),
                forall|a: int, b: int| 0 <= a < b < out@.len() ==> out@[a] != out@[b],
                forall|k: int| 0 <= k < t ==> out@.contains(#[trigger] self@[k].0),
                forall|a: int|
                    0 <= a < out@.len() ==> key_in_prefix(self@, #[trigger] out@[a], t as int),
            decreases self@.len() - t,
        {
            let ghost out0 = out@;
            let key: u64 = self.items[t].0;
            let mut seen: bool = false;
            let mut a: usize = 0;
            while a < out.len()
                invariant
                    a <= out@.len(),
                    seen == exists|b: int| 0 <= b < a && out@[b] == key,
                decreases out@.len() - a,
            {
                if out[a] == key {
                    seen = true;
                }
                a += 1;
            }
            if !seen {
                out.push(key);
            }
            proof {
                assert(key == self@[t as int].0);
                if seen {
                    assert(out@ == out0);
                    assert(out@.contains(key));
                } else {
                    assert(out@ == out0.push(key));
                    assert(out@[out@.len() - 1] == key);
                    assert(out@.contains(key));
                }
                assert forall|k: int| 0 <= k < t + 1 implies out@.contains(
                    #[trigger] self@[k].0,
                ) by {
                    if k < t {
                        let b = choose|b: int| 0 <= b < out0.len() && out0[b] == self@[k].0;
                        assert(out@[b] == self@[k].0);
                    }
                }
                assert forall|a2: int|
                    0 <= a2 < out@.len() implies key_in_prefix(
                    self@,
                    #[trigger] out@[a2],
                    t + 1,
                ) by {
                    if a2 < out0.len() {
                        assert(out@[a2] == out0[a2]);
                        lemma_key_in_prefix_mono(self@, out@[a2], t as int, t + 1);
                    } else {
                        assert(out@[a2] == key);
                        lemma_key_in_prefix_intro(self@, t as int, t + 1);
                    }
                }
            }
            t += 1;
        }
        out
    }

    /// The candidates filed under one byte size, in insertion order.
    pub fn bucket(&self, size: u64) -> (b: Vec<String>)
        ensures
            b@.map_values(|p: String| p@) =~= bucket_of(self@, size),
    {
        let mut b: Vec<String> = Vec::new();
        let mut t: usize = 0;
        while t < self.items.len()
            invariant
                t <= self@.len(),
                b@.map_values(|p: String| p@) =~= bucket_of(self@.take(t as int), size),
            decreases self@.len() - t,
        {
            proof {
                assert(self@.take(t + 1).drop_last() =~= self@.take(t as int));
                assert(self@.take(t + 1).last() == self@[t as int]);
            }
            if self.items[t].0 == size {
                let p: String = self.items[t].1.clone();
                assert(p@ == self@[t as int].1);
                b.push(p);
            }
            t += 1;
        }
        proof {
            assert(self@.take(self@.len() as int) =~= self@);
        }
        b
    }
}

/// Every candidate that a scan files under a byte size came from an eligible
/// entry of exactly that size: the bucket invariant of the pre-filter.
pub proof fn lemma_bucket_members_share_size(rs: Seq<ScanRecord>, size: u64, k: int)
    requires
        0 <= k < bucket_of(buckets_model(rs), size).len(),
    ensures
        exists|t: int|
            0 <= t < rs.len() && #[trigger] rs[t].size == size && rs[t].path == bucket_of(
                buckets_model(rs),
                size,
            )[k] && eligible_spec(rs[t].is_file, rs[t].name, rs[t].size),
    decreases rs.len(),
{
    if rs.len() > 0 {
        let prev = buckets_model(rs.drop_last());
        let r = rs.last();
        if eligible_spec(r.is_file, r.name, r.size) {
            assert(buckets_model(rs) == prev.push((r.size, r.path)));
            assert(buckets_model(rs).drop_last() =~= prev);
            if r.size == size && k == bucket_of(prev, size).len() {
                assert(rs[rs.len() - 1].size == size);
            } else {
                assert(bucket_of(buckets_model(rs), size)[k] == bucket_of(prev, size)[k]);
                lemma_bucket_members_share_size(rs.drop_last(), size, k);
                let t = choose|t: int|
                    0 <= t < rs.drop_last().len() && #[trigger] rs.drop_last()[t].size == size
                        && rs.drop_last()[t].path == bucket_of(prev, size)[k] && eligible_spec(
                        rs.drop_last()[t].is_file,
                        rs.drop_last()[t].name,
                        rs.drop_last()[t].size,
                    );
                assert(rs[t].size == size);
            }
        } else {
            assert(buckets_model(rs) == prev);
            lemma_bucket_members_share_size(rs.drop_last(), size, k);
            let t = choose|t: int|
                0 <= t < rs.drop_last().len() && #[trigger] rs.drop_last()[t].size == size
                    && rs.drop_last()[t].path == bucket_of(prev, size)[k] && eligible_spec(
                    rs.drop_last()[t].is_file,
                    rs.drop_last()[t].name,
                    rs.drop_last()[t].size,
                );
            assert(rs[t].size == size);
        }
    }
}

/// One scan step changes the model exactly as `consider_entry` changes the
/// index: an eligible entry is appended under its size, any other entry
/// leaves the index as it was. An index built by `consider_entry` from a
/// sequence of entries therefore equals `buckets_model` of that sequence,
/// and rebuilding from the same entries rebuilds the same index.
pub proof fn lemma_buckets_model_step(rs: Seq<ScanRecord>, r: ScanRecord)
    ensures
        eligible_spec(r.is_file, r.name, r.size) ==> buckets_model(rs.push(r)) == buckets_model(
            rs,
        ).push((r.size, r.path)),
        !eligible_spec(r.is_file, r.name, r.size) ==> buckets_model(rs.push(r)) == buckets_model(
            rs,
        ),
{
    assert(rs.push(r).drop_last() =~= rs);
    assert(rs.push(r).len() > 0);
    assert(rs.push(r).last() == r);
}

/// A hidden entry contributes nothing to the index, wherever it stands in
/// the scan.
pub proof fn lemma_hidden_contributes_nothing(rs: Seq<ScanRecord>, r: ScanRecord)
    requires
        crate::filter::is_hidden_spec(r.name),
    ensures
        buckets_model(rs.push(r)) == buckets_model(rs),
{
    assert(rs.push(r).drop_last() =~= rs);
    assert(rs.push(r).len() > 0);
}

} // verus!
