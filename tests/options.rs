use wib::options::{parse_count, AppError, Options, TOP_NUMS};

#[test]
fn default_count() {
    let o = Options::from_arg(None).unwrap();
    assert_eq!(o.nums, TOP_NUMS);
    assert_eq!(o.nums, 5);
}

#[test]
fn given_count() {
    assert_eq!(Options::from_arg(Some("12")).unwrap().nums, 12);
    assert_eq!(Options::from_arg(Some("0")).unwrap().nums, 0);
    assert_eq!(Options::from_arg(Some("+3")).unwrap().nums, 3);
}

#[test]
fn invalid_count() {
    for bad in ["", "+", "-1", "abc", "1x", " 4", "99999999999999999999999"] {
        match Options::from_arg(Some(bad)) {
            Err(AppError::InvalidNumberOfFiles(t)) => assert_eq!(t, bad),
            Ok(o) => panic!("accepted {:?} as {}", bad, o.nums),
        }
    }
}

#[test]
fn count_agrees_with_std() {
    for t in ["7", "007", "+0", "18446744073709551615", "18446744073709551616", "", "x", "4294967296"] {
        assert_eq!(parse_count(t), t.parse::<usize>().ok(), "{:?}", t);
    }
}
