use wib::top_files::{select_top, FileEntry, TopFiles};

fn entry(path: &str, size: u64) -> FileEntry {
    FileEntry { path: path.to_string(), size }
}

fn sizes(v: &[FileEntry]) -> Vec<u64> {
    v.iter().map(|e| e.size).collect()
}

fn paths(v: &[FileEntry]) -> Vec<String> {
    v.iter().map(|e| e.path.clone()).collect()
}

#[test]
fn keeps_the_largest_sorted() {
    let input = vec![entry("a", 3), entry("b", 9), entry("c", 1), entry("d", 7), entry("e", 5)];
    let kept = select_top(input, 3);
    assert_eq!(sizes(&kept), vec![9, 7, 5]);
    assert_eq!(paths(&kept), vec!["b", "d", "e"]);
}

#[test]
fn keeps_everything_when_room() {
    let input = vec![entry("a", 10), entry("b", 5), entry("c", 0)];
    let kept = select_top(input, 5);
    assert_eq!(sizes(&kept), vec![10, 5, 0]);
}

#[test]
fn equal_sizes_keep_offer_order() {
    let input = vec![entry("a", 4), entry("b", 4), entry("c", 4)];
    let kept = select_top(input, 2);
    assert_eq!(paths(&kept), vec!["a", "b"]);
}

#[test]
fn no_capacity_keeps_nothing() {
    let input = vec![entry("a", 4), entry("b", 40)];
    assert!(select_top(input, 0).is_empty());
}

#[test]
fn empty_input_keeps_nothing() {
    assert!(select_top(Vec::new(), 5).is_empty());
}

#[test]
fn rerun_gives_same_selection() {
    let make = || vec![entry("x", 8), entry("y", 2), entry("z", 8), entry("w", 30)];
    let first = select_top(make(), 2);
    let second = select_top(make(), 2);
    assert_eq!(paths(&first), paths(&second));
    assert_eq!(paths(&first), vec!["w", "x"]);
    let again = select_top(first, 2);
    assert_eq!(paths(&again), vec!["w", "x"]);
}

#[test]
fn offering_one_by_one() {
    let mut top = TopFiles::new(2);
    assert_eq!(top.capacity(), 2);
    top.offer(entry("a", 1));
    assert_eq!(sizes(top.entries()), vec![1]);
    top.offer(entry("b", 3));
    top.offer(entry("c", 2));
    assert_eq!(sizes(top.entries()), vec![3, 2]);
    top.offer(entry("d", 2));
    assert_eq!(paths(top.entries()), vec!["b", "c"]);
}
