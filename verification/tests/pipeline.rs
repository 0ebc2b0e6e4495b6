use fsize_report::aggregate::{file_count, summarize};
use fsize_report::entry::{partition_from, Entry, EntryKind};
use fsize_report::parse_path;
use fsize_report::ranking::{rank_insert, rank_truncate};
use fsize_report::record::FileRecord;

fn rec(size: u64, path: &str, name: &str) -> FileRecord {
    FileRecord { size, path: String::from(path), name: String::from(name) }
}

fn sizes(ranking: &[FileRecord]) -> Vec<u64> {
    ranking.iter().map(|r| r.size).collect()
}

#[test]
fn scenario_mixed_tree() {
    // One empty file, a 500-byte and a 2000-byte file, and a subdirectory
    // holding a 5,000,000-byte file.
    let pool = vec![
        Entry { path: String::from("/root"), kind: EntryKind::Directory },
        Entry { path: String::from("/root/empty.txt"), kind: EntryKind::File },
        Entry { path: String::from("/root/small.txt"), kind: EntryKind::File },
        Entry { path: String::from("/root/mid.txt"), kind: EntryKind::File },
        Entry { path: String::from("/root/sub"), kind: EntryKind::Directory },
        Entry { path: String::from("/root/sub/big.bin"), kind: EntryKind::File },
    ];
    let (files, dirs) = partition_from(pool);
    assert_eq!(files.len(), 4);
    assert_eq!(dirs.len(), 2);
    assert_eq!(files[0], "/root/empty.txt");
    assert_eq!(dirs[0], "/root");

    let records = vec![
        rec(0, "/root/empty.txt", "empty.txt"),
        rec(500, "/root/small.txt", "small.txt"),
        rec(2000, "/root/mid.txt", "mid.txt"),
        rec(5_000_000, "/root/sub/big.bin", "big.bin"),
    ];
    let (counts, total, ranking) = file_count(records);
    assert_eq!(counts, vec![1, 1, 1, 1, 0, 0]);
    assert_eq!(total, 5_002_500);
    assert_eq!(sizes(&ranking), vec![5_000_000, 2000, 500, 0]);
    assert_eq!(ranking[0].path, "/root/sub/big.bin");
    assert_eq!(ranking[0].name, "big.bin");
}

#[test]
fn scenario_empty_root() {
    let pool = vec![Entry { path: String::from("/root"), kind: EntryKind::Directory }];
    let (files, dirs) = partition_from(pool);
    assert_eq!(files.len(), 0);
    assert_eq!(dirs.len(), 1);

    let (counts, total, ranking) = file_count(Vec::new());
    assert_eq!(counts, vec![0, 0, 0, 0, 0, 0]);
    assert_eq!(total, 0);
    assert!(ranking.is_empty());
}

#[test]
fn partition_excludes_other_kinds() {
    let pool = vec![
        Entry { path: String::from("/a"), kind: EntryKind::File },
        Entry { path: String::from("/fifo"), kind: EntryKind::Other },
        Entry { path: String::from("/d"), kind: EntryKind::Directory },
        Entry { path: String::from("/socket"), kind: EntryKind::Other },
        Entry { path: String::from("/b"), kind: EntryKind::File },
    ];
    let (files, dirs) = partition_from(pool);
    assert_eq!(files, vec![String::from("/a"), String::from("/b")]);
    assert_eq!(dirs, vec![String::from("/d")]);
}

#[test]
fn count_conservation_many_files() {
    let mut records = Vec::new();
    let mut n: u64 = 0;
    for size in [0, 1, 7, 1023, 1024, 99_999, 1_048_575, 1_048_576, 123_456_789] {
        records.push(rec(size, &format!("/f{}", n), &format!("f{}", n)));
        n += 1;
    }
    let (counts, total, _) = file_count(records);
    let bucket_sum: u64 = counts.iter().sum();
    assert_eq!(bucket_sum, n);
    assert_eq!(total, 0 + 1 + 7 + 1023 + 1024 + 99_999 + 1_048_575 + 1_048_576 + 123_456_789);
}

#[test]
fn ranking_keeps_ten_largest() {
    let mut records = Vec::new();
    for i in 0..25u64 {
        // Sizes 3, 6, 9, ... 75, inserted in ascending order.
        records.push(rec(3 * (i + 1), &format!("/f{}", i), &format!("f{}", i)));
    }
    let (_, _, ranking) = file_count(records);
    assert_eq!(ranking.len(), 10);
    assert_eq!(sizes(&ranking), vec![75, 72, 69, 66, 63, 60, 57, 54, 51, 48]);
}

#[test]
fn ranking_independent_of_insertion_order() {
    let forward: Vec<FileRecord> =
        (0..15u64).map(|i| rec(i * 10, &format!("/f{}", i), &format!("f{}", i))).collect();
    let backward: Vec<FileRecord> =
        (0..15u64).rev().map(|i| rec(i * 10, &format!("/f{}", i), &format!("f{}", i))).collect();
    let shuffled: Vec<FileRecord> = [7u64, 2, 11, 0, 14, 5, 9, 1, 13, 3, 8, 4, 12, 6, 10]
        .iter()
        .map(|&i| rec(i * 10, &format!("/f{}", i), &format!("f{}", i)))
        .collect();

    let (_, _, r1) = file_count(forward);
    let (_, _, r2) = file_count(backward);
    let (_, _, r3) = file_count(shuffled);
    let s1 = sizes(&r1);
    assert_eq!(s1, sizes(&r2));
    assert_eq!(s1, sizes(&r3));
    for (a, b) in r1.iter().zip(r2.iter()) {
        assert_eq!(a.path, b.path);
    }
}

#[test]
fn ranking_ties_broken_by_path() {
    // Equal sizes: the full descending tuple order puts the greater path
    // first.
    let records = vec![
        rec(100, "/alpha", "alpha"),
        rec(100, "/beta", "beta"),
        rec(100, "/gamma", "gamma"),
    ];
    let (_, _, ranking) = file_count(records);
    assert_eq!(ranking[0].path, "/gamma");
    assert_eq!(ranking[1].path, "/beta");
    assert_eq!(ranking[2].path, "/alpha");
}

#[test]
fn incremental_insertion_stays_sorted() {
    let mut ranking: Vec<FileRecord> = Vec::new();
    for size in [30u64, 10, 50, 20, 40] {
        rank_insert(&mut ranking, rec(size, &format!("/f{}", size), &format!("f{}", size)));
    }
    assert_eq!(sizes(&ranking), vec![50, 40, 30, 20, 10]);
    rank_truncate(&mut ranking);
    assert_eq!(ranking.len(), 5);

    for size in [5u64, 90, 15, 60, 25, 70, 35, 80] {
        rank_insert(&mut ranking, rec(size, &format!("/f{}", size), &format!("f{}", size)));
    }
    rank_truncate(&mut ranking);
    assert_eq!(sizes(&ranking), vec![90, 80, 70, 60, 50, 40, 35, 30, 25, 20]);
}

#[test]
fn summary_collects_all_aggregates() {
    let records = vec![
        rec(0, "/r/a", "a"),
        rec(700, "/r/b", "b"),
        rec(4096, "/r/c", "c"),
    ];
    let summary = summarize(records, 3);
    assert_eq!(summary.bucket_counts, vec![1, 1, 1, 0, 0, 0]);
    assert_eq!(summary.file_total, 3);
    assert_eq!(summary.dir_total, 3);
    assert_eq!(summary.total_size, 4796);
    assert_eq!(sizes(&summary.ranking), vec![4096, 700, 0]);
}

#[test]
fn parse_path_uses_second_argument() {
    let args = vec![String::from("/bin/tool"), String::from("/data")];
    assert_eq!(parse_path(&args), "/data");
}

#[test]
fn parse_path_falls_back_to_program_path() {
    let args = vec![String::from("/bin/tool")];
    assert_eq!(parse_path(&args), "/bin/tool");
}
