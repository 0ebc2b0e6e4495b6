//! Bounded top-N ranking of file records.
//!
//! The ranking of a sequence of records is the sequence sorted in
//! descending rank order; the top-N ranking keeps only its first N
//! entries, that is, the N largest records. The ranking is kept sorted
//! incrementally, one insertion per file, with the same observable result
//! as sorting everything at the end.

use crate::record::{rank_ge, record_le, FileRecord, RecordV};
use crate::record::{lemma_rank_ge_total_ordering, lemma_record_le_connected,
    lemma_record_le_transitive};
use vstd::prelude::*;
use vstd::relations::sorted_by;
use vstd::seq_lib::lemma_sorted_unique;

verus! {

/// How many records the reported ranking retains.
pub const RANK_CAPACITY: usize = 10;

/// The mathematical values of a sequence of records.
pub open spec fn record_views(s: Seq<FileRecord>) -> Seq<RecordV> {
    s.map_values(|r: FileRecord| r@)
}

/// All records, sorted in descending rank order (largest first).
pub open spec fn ranked(s: Seq<RecordV>) -> Seq<RecordV> {
    s.sort_by(rank_ge())
}

/// The `n` largest records, in descending rank order.
pub open spec fn top_n(s: Seq<RecordV>, n: int) -> Seq<RecordV> {
    if s.len() <= n {
        ranked(s)
    } else {
        ranked(s).take(n)
    }
}

/// Inserts `rec` into a ranking kept in descending rank order. The new
/// ranking is exactly the old one re-sorted with `rec` added.
pub fn rank_insert(ranking: &mut Vec<FileRecord>, rec: FileRecord)
    requires
        sorted_by(record_views(old(ranking)@), rank_ge()),
    ensures
        record_views(final(ranking)@) == ranked(record_views(old(ranking)@).push(rec@)),
        sorted_by(record_views(final(ranking)@), rank_ge()),
        final(ranking)@.len() == old(ranking)@.len() + 1,
{
    let ghost old_views = record_views(ranking@);
    let n = ranking.len();
    let mut i: usize = 0;
    while i < n && rec.le(&ranking[i])
        invariant
            n == ranking@.len(),
            ranking@ == old(ranking)@,
            i <= n,
            forall|j: int| 0 <= j < i ==> record_le(rec@, #[trigger] record_views(ranking@)[j]),
        decreases n - i,
    {
        i = i + 1;
    }
    proof {
        if i < n {
            lemma_record_le_connected(rec@, old_views[i as int]);
        }
    }
    ranking.insert(i, rec);
    proof {
        broadcast use vstd::seq_lib::group_to_multiset_ensures;
        broadcast use vstd::seq_lib::to_multiset_insert;

        let ov = old_views;
        let nv = record_views(ranking@);
        let pos = i as int;
        ov.insert_ensures(pos, rec@);
        assert(nv =~= ov.insert(pos, rec@));
        assert forall|p: int, q: int| 0 <= p < q < nv.len() implies rank_ge()(nv[p], nv[q]) by {
            if q < pos {
                assert(nv[p] == ov[p]);
                assert(nv[q] == ov[q]);
            } else if q == pos {
                // nv[q] is rec; every entry above the insertion point
                // ranks at or above rec, by the scan's invariant.
                assert(nv[p] == ov[p]);
                assert(record_le(rec@, ov[p]));
            } else if p == pos {
                // nv[p] is rec; the entry at the old insertion point ranks
                // strictly below rec, and entries after it below that one.
                assert(nv[q] == ov[q - 1]);
                if q - 1 == pos {
                    assert(record_le(ov[pos], rec@));
                } else {
                    assert(rank_ge()(ov[pos], ov[q - 1]));
                    lemma_record_le_transitive(ov[q - 1], ov[pos], rec@);
                }
            } else if p < pos {
                assert(nv[p] == ov[p]);
                assert(nv[q] == ov[q - 1]);
                assert(rank_ge()(ov[p], ov[q - 1]));
            } else {
                assert(nv[p] == ov[p - 1]);
                assert(nv[q] == ov[q - 1]);
                assert(rank_ge()(ov[p - 1], ov[q - 1]));
            }
        }
        let sorted = ranked(ov.push(rec@));
        lemma_rank_ge_total_ordering();
        ov.push(rec@).lemma_sort_by_ensures(rank_ge());
        assert(nv.to_multiset() =~= ov.to_multiset().insert(rec@));
        assert(ov.push(rec@).to_multiset() =~= ov.to_multiset().insert(rec@));
        lemma_sorted_unique(nv, sorted, rank_ge());
        assert(nv =~= sorted);
    }
}

/// Top-N correctness: for any records and any bound, the top-N ranking
/// holds exactly `min(count, n)` entries, its sizes are non-increasing,
/// every entry is one of the given records, and no record left out of it
/// outranks a record in it.
pub proof fn lemma_top_n_correct(s: Seq<RecordV>, n: int)
    requires
        0 <= n,
    ensures
        top_n(s, n).len() == if s.len() <= n {
            s.len() as int
        } else {
            n
        },
        sorted_by(top_n(s, n), rank_ge()),
        forall|i: int, j: int|
            0 <= i <= j < top_n(s, n).len() ==> (#[trigger] top_n(s, n)[j]).size <= (
            #[trigger] top_n(s, n)[i]).size,
        forall|i: int| 0 <= i < top_n(s, n).len() ==> s.contains(#[trigger] top_n(s, n)[i]),
        forall|i: int, j: int|
            0 <= i < top_n(s, n).len() && top_n(s, n).len() <= j < s.len() ==> record_le(
                #[trigger] ranked(s)[j],
                #[trigger] top_n(s, n)[i],
            ),
{
    broadcast use vstd::seq_lib::group_to_multiset_ensures;

    lemma_rank_ge_total_ordering();
    s.lemma_sort_by_ensures(rank_ge());
    let r = ranked(s);
    assert(r.to_multiset() == s.to_multiset());
    assert(r.len() == r.to_multiset().len());
    assert(s.len() == s.to_multiset().len());
    let t = top_n(s, n);
    assert forall|i: int| 0 <= i < t.len() implies s.contains(#[trigger] t[i]) by {
        assert(t[i] == r[i]);
        assert(r.contains(r[i]));
    }
    assert forall|i: int, j: int| 0 <= i <= j < t.len() implies (#[trigger] t[j]).size <= (
    #[trigger] t[i]).size by {
        if i < j {
            assert(rank_ge()(r[i], r[j]));
        }
    }
    assert forall|i: int, j: int| 0 <= i < t.len() && t.len() <= j < s.len() implies record_le(
        #[trigger] r[j],
        #[trigger] t[i],
    ) by {
        assert(rank_ge()(r[i], r[j]));
    }
}

/// Stability under insertion order: any two encounter orders of the same
/// records produce the same top-N ranking — the same entries, in the same
/// order.
pub proof fn lemma_top_n_insertion_order(a: Seq<RecordV>, b: Seq<RecordV>, n: int)
    requires
        a.to_multiset() == b.to_multiset(),
    ensures
        top_n(a, n) == top_n(b, n),
{
    broadcast use vstd::seq_lib::group_to_multiset_ensures;

    lemma_rank_ge_total_ordering();
    a.lemma_sort_by_ensures(rank_ge());
    b.lemma_sort_by_ensures(rank_ge());
    assert(a.len() == a.to_multiset().len());
    assert(b.len() == b.to_multiset().len());
    lemma_sorted_unique(ranked(a), ranked(b), rank_ge());
}

/// Cuts a descending ranking down to its largest `RANK_CAPACITY` entries.
pub fn rank_truncate(ranking: &mut Vec<FileRecord>)
    ensures
        final(ranking)@.len() <= RANK_CAPACITY,
        old(ranking)@.len() <= RANK_CAPACITY ==> final(ranking)@ == old(ranking)@,
        old(ranking)@.len() > RANK_CAPACITY ==> final(ranking)@ == old(ranking)@.take(
            RANK_CAPACITY as int,
        ),
{
    ranking.truncate(RANK_CAPACITY);
}

} // verus!
