use wib::size_format::fit_4;

#[test]
fn bytes_are_written_as_is() {
    assert_eq!(fit_4(0), "0o");
    assert_eq!(fit_4(7), "7o");
    assert_eq!(fit_4(9999), "9999o");
}

#[test]
fn kilo_band_is_whole() {
    assert_eq!(fit_4(10000), "10Ko");
    assert_eq!(fit_4(11500), "12Ko");
    assert_eq!(fit_4(999_499), "999Ko");
}

#[test]
fn kilo_tie_goes_to_even() {
    assert_eq!(fit_4(10500), "10Ko");
}

#[test]
fn mega_bands() {
    assert_eq!(fit_4(999_500), "1.0Mo");
    assert_eq!(fit_4(1_234_567), "1.2Mo");
    assert_eq!(fit_4(9_949_999), "9.9Mo");
    assert_eq!(fit_4(9_950_000), "10Mo");
    assert_eq!(fit_4(9_950_001), "10Mo");
    assert_eq!(fit_4(999_499_999), "999Mo");
}

#[test]
fn giga_tera_peta_bands() {
    assert_eq!(fit_4(999_500_000), "1.0Go");
    assert_eq!(fit_4(42_000_000_000), "42Go");
    assert_eq!(fit_4(5_500_000_000_000), "5.5To");
    assert_eq!(fit_4(999_499_999_999_999), "999To");
    assert_eq!(fit_4(999_500_000_000_000), "1.0Po");
    assert_eq!(fit_4(123_456_789_012_345_678), "123Po");
    assert_eq!(fit_4(999_499_999_999_999_935), "999Po");
}

#[test]
fn beyond_the_largest_unit_is_huge() {
    assert_eq!(fit_4(999_499_999_999_999_936), "huge");
    assert_eq!(fit_4(1_000_000_000_000_000_000), "huge");
    assert_eq!(fit_4(u64::MAX), "huge");
}
