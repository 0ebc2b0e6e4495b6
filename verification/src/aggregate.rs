//! The classifier/aggregator: one pass over the file records that counts
//! files per size bucket, sums all sizes and keeps the largest files.

use crate::bucket::{bucket_index, bucket_of, BUCKET_COUNT};
use crate::ranking::{rank_insert, rank_truncate, record_views, top_n, RANK_CAPACITY};
use crate::record::{lemma_rank_ge_total_ordering, rank_ge, FileRecord, RecordV};
use vstd::pervasive::VecAdditionalExecFns;
use vstd::prelude::*;
use vstd::relations::sorted_by;

verus! {

/// The number of records in `s` whose size falls into bucket `i`.
pub open spec fn bucket_count(s: Seq<RecordV>, i: int) -> int
    decreases s.len(),
{
    if s.len() == 0 {
        0
    } else {
        bucket_count(s.drop_last(), i) + if bucket_index(s.last().size) == i {
            1int
        } else {
            0int
        }
    }
}

/// The arithmetic sum of the sizes of all records in `s`.
pub open spec fn total_size_of(s: Seq<RecordV>) -> int
    decreases s.len(),
{
    if s.len() == 0 {
        0
    } else {
        total_size_of(s.drop_last()) + s.last().size
    }
}

/// Each bucket counts at most all of `s`, never negatively.
pub proof fn lemma_bucket_count_bounds(s: Seq<RecordV>, i: int)
    ensures
        0 <= bucket_count(s, i) <= s.len(),
    decreases s.len(),
{
    if s.len() != 0 {
        lemma_bucket_count_bounds(s.drop_last(), i);
    }
}

/// Count conservation: the six bucket counts add up to the number of
/// records, whatever the records are, because every size falls into
/// exactly one bucket.
pub proof fn lemma_count_conservation(s: Seq<RecordV>)
    ensures
        bucket_count(s, 0) + bucket_count(s, 1) + bucket_count(s, 2) + bucket_count(s, 3)
            + bucket_count(s, 4) + bucket_count(s, 5) == s.len(),
    decreases s.len(),
{
    if s.len() != 0 {
        lemma_count_conservation(s.drop_last());
        crate::bucket::lemma_bucket_exhaustive_disjoint(s.last().size);
    }
}

/// The size sum is never negative.
pub proof fn lemma_total_size_nonneg(s: Seq<RecordV>)
    ensures
        total_size_of(s) >= 0,
    decreases s.len(),
{
    if s.len() != 0 {
        lemma_total_size_nonneg(s.drop_last());
    }
}

/// A prefix never sums to more than the whole sequence.
pub proof fn lemma_total_size_prefix(s: Seq<RecordV>, i: int)
    requires
        0 <= i <= s.len(),
    ensures
        total_size_of(s.take(i)) <= total_size_of(s),
    decreases s.len() - i,
{
    if i == s.len() {
        assert(s.take(i) =~= s);
    } else {
        assert(s.take(i + 1).drop_last() =~= s.take(i));
        assert(s.take(i + 1).last() == s[i]);
        lemma_total_size_prefix(s, i + 1);
    }
}

/// Consumes the file records of one traversal and returns, in this order:
/// how many files fall into each of the six size buckets, the sum of all
/// file sizes, and the largest files in descending order of
/// (size, path, name).
///
/// The accumulator is 64 bits wide; the caller guarantees that the sizes
/// sum within it, which only an extreme input could break.
pub fn file_count(files: Vec<FileRecord>) -> (r: (Vec<u64>, u64, Vec<FileRecord>))
    requires
        total_size_of(record_views(files@)) <= u64::MAX,
    ensures
        r.0@.len() == BUCKET_COUNT,
        forall|i: int|
            0 <= i < BUCKET_COUNT ==> r.0@[i] == bucket_count(record_views(files@), i),
        r.0@[0] + r.0@[1] + r.0@[2] + r.0@[3] + r.0@[4] + r.0@[5] == files@.len(),
        r.1 == total_size_of(record_views(files@)),
        record_views(r.2@) == top_n(record_views(files@), RANK_CAPACITY as int),
        r.2@.len() <= RANK_CAPACITY,
{
    let ghost all = record_views(files@);
    let mut counter: Vec<u64> = vec![0, 0, 0, 0, 0, 0];
    let mut total: u64 = 0;
    let mut ranking: Vec<FileRecord> = Vec::new();
    let mut idx: usize = 0;
    proof {
        broadcast use vstd::seq_lib::group_to_multiset_ensures;

        let e = Seq::<RecordV>::empty();
        assert(all.take(0) =~= e);
        assert(record_views(ranking@) =~= e);
        lemma_rank_ge_total_ordering();
        e.lemma_sort_by_ensures(rank_ge());
        assert(e.sort_by(rank_ge()).to_multiset() == e.to_multiset());
        assert(e.sort_by(rank_ge()).len() == e.sort_by(rank_ge()).to_multiset().len());
        assert(e.len() == e.to_multiset().len());
        assert(e.sort_by(rank_ge()) =~= e);
    }
    while idx < files.len()
        invariant
            idx <= files.len(),
            all == record_views(files@),
            all.len() == files@.len(),
            total_size_of(all) <= u64::MAX,
            counter@.len() == BUCKET_COUNT,
            forall|i: int|
                0 <= i < BUCKET_COUNT ==> counter@[i] == bucket_count(all.take(idx as int), i),
            total == total_size_of(all.take(idx as int)),
            sorted_by(record_views(ranking@), rank_ge()),
            record_views(ranking@) == all.take(idx as int).sort_by(rank_ge()),
            ranking@.len() == idx,
        decreases files@.len() - idx,
    {
        let rec = {
            let current = &files[idx];
            current.duplicate()
        };
        let ghost prefix = all.take(idx as int);
        let ghost prefix1 = all.take(idx as int + 1);
        proof {
            assert(prefix1.drop_last() =~= prefix);
            assert(prefix1.last() == all[idx as int]);
            assert(all[idx as int] == rec@);
            lemma_bucket_count_bounds(prefix, bucket_index(rec.size));
            lemma_total_size_nonneg(prefix);
            lemma_total_size_prefix(all, idx as int + 1);
        }
        let b = bucket_of(rec.size);
        let c = counter[b];
        counter.set(b, c + 1);
        total = total + rec.size;
        proof {
            assert(prefix.push(rec@) =~= prefix1);
        }
        let ghost sorted_prefix = record_views(ranking@);
        rank_insert(&mut ranking, rec);
        proof {
            // The insertion sorted (sorted prefix + record); the invariant
            // speaks of sorting (prefix + record). Both orderings of the
            // same multiset coincide.
            broadcast use vstd::seq_lib::group_to_multiset_ensures;

            lemma_rank_ge_total_ordering();
            prefix.lemma_sort_by_ensures(rank_ge());
            sorted_prefix.push(rec@).lemma_sort_by_ensures(rank_ge());
            prefix1.lemma_sort_by_ensures(rank_ge());
            assert(sorted_prefix.push(rec@).to_multiset() =~= prefix1.to_multiset());
            vstd::seq_lib::lemma_sorted_unique(
                sorted_prefix.push(rec@).sort_by(rank_ge()),
                prefix1.sort_by(rank_ge()),
                rank_ge(),
            );
        }
        idx = idx + 1;
    }
    proof {
        assert(all.take(files@.len() as int) =~= all);
        lemma_count_conservation(all);
    }
    rank_truncate(&mut ranking);
    proof {
        if all.len() > RANK_CAPACITY as int {
            assert(record_views(ranking@) =~= all.sort_by(rank_ge()).take(RANK_CAPACITY as int));
        }
    }
    (counter, total, ranking)
}

/// The complete aggregated result of one traversal, owned by the
/// reporting stage and never mutated after construction.
pub struct RunSummary {
    pub bucket_counts: Vec<u64>,
    pub file_total: u64,
    pub dir_total: u64,
    pub total_size: u64,
    pub ranking: Vec<FileRecord>,
}

/// Builds the [`RunSummary`] of one traversal from its file records and
/// its directory count.
pub fn summarize(files: Vec<FileRecord>, dir_total: u64) -> (s: RunSummary)
    requires
        total_size_of(record_views(files@)) <= u64::MAX,
    ensures
        s.bucket_counts@.len() == BUCKET_COUNT,
        forall|i: int|
            0 <= i < BUCKET_COUNT ==> s.bucket_counts@[i] == bucket_count(
                record_views(files@),
                i,
            ),
        s.file_total == files@.len(),
        s.dir_total == dir_total,
        s.total_size == total_size_of(record_views(files@)),
        record_views(s.ranking@) == top_n(record_views(files@), RANK_CAPACITY as int),
        s.ranking@.len() <= RANK_CAPACITY,
{
    let file_total = files.len() as u64;
    let (bucket_counts, total_size, ranking) = file_count(files);
    RunSummary { bucket_counts, file_total, dir_total, total_size, ranking }
}

} // verus!
