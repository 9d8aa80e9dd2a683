use mediarust::range::{ByteRange, RangeFile, RangeResolution};

fn resolve(header: &str, size: u64) -> RangeResolution {
    RangeFile::parse_range_header(header, size)
}

#[test]
fn two_sided_range_in_bounds() {
    assert_eq!(
        resolve("bytes=2-5", 10),
        RangeResolution::Resolved(ByteRange { start: 2, end_inclusive: 5 })
    );
}

#[test]
fn open_ended_range_runs_to_last_byte() {
    assert_eq!(
        resolve("bytes=1000-", 5000),
        RangeResolution::Resolved(ByteRange { start: 1000, end_inclusive: 4999 })
    );
}

#[test]
fn range_end_clamped_to_file_size() {
    assert_eq!(
        resolve("bytes=2-100", 10),
        RangeResolution::Resolved(ByteRange { start: 2, end_inclusive: 9 })
    );
}

#[test]
fn start_past_size_is_unsatisfiable() {
    assert_eq!(resolve("bytes=50-60", 10), RangeResolution::Unsatisfiable);
    assert_eq!(resolve("bytes=10-", 10), RangeResolution::Unsatisfiable);
    assert_eq!(resolve("bytes=10-20", 10), RangeResolution::Unsatisfiable);
}

#[test]
fn start_after_end_is_unsatisfiable() {
    assert_eq!(resolve("bytes=7-3", 10), RangeResolution::Unsatisfiable);
}

#[test]
fn empty_file_satisfies_no_range() {
    assert_eq!(resolve("bytes=0-", 0), RangeResolution::Unsatisfiable);
    assert_eq!(resolve("bytes=0-0", 0), RangeResolution::Unsatisfiable);
}

#[test]
fn wrong_prefix_is_malformed() {
    assert_eq!(resolve("items=0-5", 10), RangeResolution::Malformed);
    assert_eq!(resolve("Bytes=0-5", 10), RangeResolution::Malformed);
    assert_eq!(resolve("", 10), RangeResolution::Malformed);
}

#[test]
fn multi_range_is_malformed() {
    assert_eq!(resolve("bytes=0-5,7-9", 10), RangeResolution::Malformed);
    assert_eq!(resolve("bytes=0-5-7", 10), RangeResolution::Malformed);
}

#[test]
fn non_numeric_parts_are_malformed() {
    assert_eq!(resolve("bytes=abc-5", 10), RangeResolution::Malformed);
    assert_eq!(resolve("bytes=0-xyz", 10), RangeResolution::Malformed);
    assert_eq!(resolve("bytes=-5", 10), RangeResolution::Malformed);
    assert_eq!(resolve("bytes=", 10), RangeResolution::Malformed);
}

#[test]
fn whole_file_range() {
    assert_eq!(
        resolve("bytes=0-", 10),
        RangeResolution::Resolved(ByteRange { start: 0, end_inclusive: 9 })
    );
    assert_eq!(
        resolve("bytes=0-9", 10),
        RangeResolution::Resolved(ByteRange { start: 0, end_inclusive: 9 })
    );
}

#[test]
fn range_file_keeps_its_fields() {
    let f = RangeFile::new(
        String::from("/media/a.mkv"),
        String::from("video/x-matroska"),
        1234,
    );
    assert_eq!(f.file_path, "/media/a.mkv");
    assert_eq!(f.content_type, "video/x-matroska");
    assert_eq!(f.file_size, 1234);
}
