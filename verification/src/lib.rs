//! Verified core of a directory-tree file-size reporting tool.
//!
//! The pipeline has four stages: a walker enumerates filesystem entries,
//! a partitioner separates files from directories, a classifier/aggregator
//! buckets file sizes, sums them and keeps the largest files, and a reporter
//! formats the result. The walker, the metadata lookups and the formatting
//! are I/O and live outside this library; everything that decides or
//! computes on the resulting plain values is verified here.

pub mod aggregate;
pub mod bucket;
pub mod entry;
pub mod ranking;
pub mod record;
pub mod units;

use vstd::prelude::*;

verus! {

/// Picks the root path from the argument list: the first real argument if
/// one was given, otherwise the program's own path (the leading argument).
pub fn parse_path(args: &Vec<String>) -> (r: &String)
    requires
        args@.len() >= 1,
    ensures
        args@.len() == 1 ==> r@ == args@[0]@,
        args@.len() != 1 ==> r@ == args@[1]@,
{
    if args.len() == 1 {
        &args[0]
    } else {
        &args[1]
    }
}

} // verus!
