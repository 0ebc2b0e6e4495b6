use fsize_report::bucket::bucket_of;
use fsize_report::record::{str_le, FileRecord};
use fsize_report::units::{from_units, to_units, SizeUnit};

#[test]
fn bucket_boundaries_are_exact() {
    assert_eq!(bucket_of(0), 0);
    assert_eq!(bucket_of(1), 1);
    assert_eq!(bucket_of(1_023), 1);
    assert_eq!(bucket_of(1_024), 2);
    assert_eq!(bucket_of(1_048_575), 2);
    assert_eq!(bucket_of(1_048_576), 3);
    assert_eq!(bucket_of(1_073_741_823), 3);
    assert_eq!(bucket_of(1_073_741_824), 4);
    assert_eq!(bucket_of(1_099_511_627_775), 4);
    assert_eq!(bucket_of(1_099_511_627_776), 5);
    assert_eq!(bucket_of(u64::MAX), 5);
}

#[test]
fn string_order_is_lexicographic() {
    assert!(str_le("", ""));
    assert!(str_le("", "a"));
    assert!(!str_le("a", ""));
    assert!(str_le("abc", "abd"));
    assert!(!str_le("abd", "abc"));
    assert!(str_le("ab", "abc"));
    assert!(!str_le("abc", "ab"));
    assert!(str_le("abc", "abc"));
}

#[test]
fn record_order_compares_size_then_path_then_name() {
    let small = FileRecord { size: 5, path: String::from("/z"), name: String::from("z") };
    let large = FileRecord { size: 9, path: String::from("/a"), name: String::from("a") };
    assert!(small.le(&large));
    assert!(!large.le(&small));

    let a = FileRecord { size: 5, path: String::from("/a"), name: String::from("x") };
    let b = FileRecord { size: 5, path: String::from("/b"), name: String::from("x") };
    assert!(a.le(&b));
    assert!(!b.le(&a));

    let n1 = FileRecord { size: 5, path: String::from("/p"), name: String::from("m") };
    let n2 = FileRecord { size: 5, path: String::from("/p"), name: String::from("n") };
    assert!(n1.le(&n2));
    assert!(!n2.le(&n1));
    assert!(n1.le(&n1));
}

#[test]
fn unit_conversion_divides_and_multiplies() {
    assert_eq!(to_units(5_002_500, SizeUnit::Kilobytes), 4885);
    assert_eq!(to_units(5_002_500, SizeUnit::Bytes), 5_002_500);
    assert_eq!(to_units(1_023, SizeUnit::Kilobytes), 0);
    assert_eq!(from_units(3, SizeUnit::Kilobytes), 3_072);
    assert_eq!(from_units(7, SizeUnit::Bytes), 7);
}

#[test]
fn unit_labels() {
    assert_eq!(SizeUnit::Bytes.singular_name(), "B");
    assert_eq!(SizeUnit::Kilobytes.singular_name(), "KB");
    assert_eq!(SizeUnit::Bytes.num_byte_in_unit(), 1);
    assert_eq!(SizeUnit::Kilobytes.num_byte_in_unit(), 1024);
}
