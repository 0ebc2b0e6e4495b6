//! Classification of file sizes into six fixed, contiguous byte ranges.
//!
//! The ranges cover the whole unsigned 64-bit domain with no gaps and no
//! overlaps: exactly zero; up to a kilobyte; up to a megabyte; up to a
//! gigabyte; up to a terabyte; and everything beyond.

use vstd::prelude::*;

verus! {

/// Number of size buckets.
pub const BUCKET_COUNT: usize = 6;

/// First size (in bytes) that no longer counts as "under a kilobyte".
pub const KILOBYTE: u64 = 1_024;

/// First size that no longer counts as "under a megabyte".
pub const MEGABYTE: u64 = 1_048_576;

/// First size that no longer counts as "under a gigabyte".
pub const GIGABYTE: u64 = 1_073_741_824;

/// First size that no longer counts as "under a terabyte".
pub const TERABYTE: u64 = 1_099_511_627_776;

/// The bucket that a file of `size` bytes falls into.
pub open spec fn bucket_index(size: u64) -> int {
    if size == 0 {
        0
    } else if size < KILOBYTE {
        1
    } else if size < MEGABYTE {
        2
    } else if size < GIGABYTE {
        3
    } else if size < TERABYTE {
        4
    } else {
        5
    }
}

/// Whether `size` lies inside bucket `i`'s range, stated directly from the
/// range table rather than through `bucket_index`.
pub open spec fn in_bucket(size: u64, i: int) -> bool {
    if i == 0 {
        size == 0
    } else if i == 1 {
        1 <= size < KILOBYTE
    } else if i == 2 {
        KILOBYTE <= size < MEGABYTE
    } else if i == 3 {
        MEGABYTE <= size < GIGABYTE
    } else if i == 4 {
        GIGABYTE <= size < TERABYTE
    } else if i == 5 {
        TERABYTE <= size
    } else {
        false
    }
}

/// The six ranges are exhaustive and disjoint: every unsigned 64-bit size
/// lies in exactly one bucket, and that bucket is `bucket_index(size)`.
pub proof fn lemma_bucket_exhaustive_disjoint(size: u64)
    ensures
        0 <= bucket_index(size) < BUCKET_COUNT,
        in_bucket(size, bucket_index(size)),
        forall|i: int| in_bucket(size, i) ==> i == bucket_index(size),
{
}

/// Classifies a file size into its bucket.
pub fn bucket_of(size: u64) -> (i: usize)
    ensures
        i as int == bucket_index(size),
        i < BUCKET_COUNT,
{
    if size == 0 {
        0
    } else if size < KILOBYTE {
        1
    } else if size < MEGABYTE {
        2
    } else if size < GIGABYTE {
        3
    } else if size < TERABYTE {
        4
    } else {
        5
    }
}

} // verus!
