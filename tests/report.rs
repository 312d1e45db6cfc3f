use wib::report::{entry_line, header_line, summary_line};
use wib::top_files::FileEntry;

#[test]
fn summary_text() {
    assert_eq!(summary_line(4, 1_009_551), "Number of files 4, total size: 1.0Mo");
    assert_eq!(summary_line(0, 0), "Number of files 0, total size: 0o");
}

#[test]
fn header_text() {
    assert_eq!(header_line(2), "Top 2 biggest files");
}

#[test]
fn entry_text_is_padded() {
    let e = FileEntry { path: "dir/big.bin".to_string(), size: 999_500 };
    assert_eq!(entry_line(&e), "1.0Mo - dir/big.bin");
    let e = FileEntry { path: "x".to_string(), size: 50 };
    assert_eq!(entry_line(&e), "50o  - x");
}
