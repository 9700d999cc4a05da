use localstream_core::range::{parse_single_range, ByteRange};

#[test]
fn parses_closed_open_and_suffix_ranges() {
    assert_eq!(
        parse_single_range("bytes=2-5", 10),
        Ok(ByteRange { start: 2, end: 5 })
    );
    assert_eq!(
        parse_single_range("bytes=7-", 10),
        Ok(ByteRange { start: 7, end: 9 })
    );
    assert_eq!(
        parse_single_range("bytes=-3", 10),
        Ok(ByteRange { start: 7, end: 9 })
    );
    assert_eq!(
        parse_single_range("bytes=-20", 10),
        Ok(ByteRange { start: 0, end: 9 })
    );
}

#[test]
fn rejects_invalid_or_unsatisfiable_ranges() {
    for value in [
        "items=0-1",
        "bytes=",
        "bytes=10-",
        "bytes=5-2",
        "bytes=0-1,4-5",
        "bytes=-0",
    ] {
        assert!(parse_single_range(value, 10).is_err(), "{value}");
    }
    assert!(parse_single_range("bytes=0-0", 0).is_err());
}

#[test]
fn clamps_the_last_position_to_the_resource() {
    assert_eq!(
        parse_single_range("bytes=3-400", 10),
        Ok(ByteRange { start: 3, end: 9 })
    );
    assert_eq!(
        parse_single_range("bytes=+3-+4", 10),
        Ok(ByteRange { start: 3, end: 4 })
    );
    assert!(parse_single_range("bytes=18446744073709551616-", 10).is_err());
    assert!(parse_single_range("bytes=a-4", 10).is_err());
    assert_eq!(ByteRange { start: 3, end: 9 }.length(), 7);
}
