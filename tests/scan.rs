use wib::scan::{scan_entries, Scan};
use wib::size_format::fit_4;
use wib::top_files::FileEntry;

fn entry(path: &str, size: u64) -> FileEntry {
    FileEntry { path: path.to_string(), size }
}

#[test]
fn four_files_two_kept() {
    let input = vec![entry("one", 1), entry("ten_k", 10_000), entry("big", 999_500), entry("fifty", 50)];
    let scan = scan_entries(input, 2).unwrap();
    assert_eq!(scan.file_count(), 4);
    assert_eq!(scan.total_size(), 1 + 10_000 + 999_500 + 50);
    assert_eq!(scan.total_size(), 1_009_551);
    let top = scan.top();
    assert_eq!(top.len(), 2);
    assert_eq!(top[0].size, 999_500);
    assert_eq!(top[0].path, "big");
    assert_eq!(fit_4(top[0].size), "1.0Mo");
    assert_eq!(top[1].size, 10_000);
    assert_eq!(fit_4(top[1].size), "10Ko");
}

#[test]
fn empty_scan_is_zero() {
    let scan = Scan::new(5);
    assert_eq!(scan.file_count(), 0);
    assert_eq!(scan.total_size(), 0);
    assert!(scan.top().is_empty());
    let scan = scan_entries(Vec::new(), 5).unwrap();
    assert_eq!(scan.file_count(), 0);
    assert_eq!(scan.total_size(), 0);
    assert!(scan.top().is_empty());
}

#[test]
fn total_beyond_u64_is_refused() {
    let input = vec![entry("a", u64::MAX), entry("b", 1)];
    assert!(scan_entries(input, 1).is_none());
    let mut scan = Scan::new(1);
    scan.record(entry("a", u64::MAX));
    assert!(!scan.can_record(1));
    assert!(scan.can_record(0));
}
