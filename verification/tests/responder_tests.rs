use mediarust::range::ByteRange;
use mediarust::respond::{build_response, plan_request, MediaResponse, ServePlan};

fn header<'a>(r: &'a MediaResponse, name: &str) -> &'a str {
    for (n, v) in r.headers.iter() {
        if n == name {
            return v;
        }
    }
    panic!("missing header {}", name);
}

#[test]
fn no_range_header_serves_full_content() {
    let plan = plan_request(None, 10);
    assert_eq!(plan, ServePlan::Full);
    let body = vec![7u8; 10];
    let r = build_response(&plan, "video/mp4", 10, body.clone());
    assert_eq!(r.status, 200);
    assert_eq!(header(&r, "Content-Length"), "10");
    assert_eq!(header(&r, "Accept-Ranges"), "bytes");
    assert_eq!(header(&r, "Content-Type"), "video/mp4");
    assert_eq!(r.body, body);
}

#[test]
fn malformed_range_header_serves_full_content() {
    assert_eq!(plan_request(Some("bogus"), 10), ServePlan::Full);
}

#[test]
fn partial_range_serves_206_with_content_range() {
    let plan = plan_request(Some("bytes=2-5"), 10);
    assert_eq!(
        plan,
        ServePlan::Partial(ByteRange { start: 2, end_inclusive: 5 })
    );
    let body = vec![1u8, 2, 3, 4];
    let r = build_response(&plan, "video/mp4", 10, body);
    assert_eq!(r.status, 206);
    assert_eq!(header(&r, "Content-Range"), "bytes 2-5/10");
    assert_eq!(header(&r, "Content-Length"), "4");
    assert_eq!(header(&r, "Accept-Ranges"), "bytes");
    assert_eq!(r.body.len(), 4);
}

#[test]
fn unsatisfiable_range_serves_416() {
    let plan = plan_request(Some("bytes=50-60"), 10);
    assert_eq!(plan, ServePlan::Unsatisfiable);
    let r = build_response(&plan, "video/mp4", 10, Vec::new());
    assert_eq!(r.status, 416);
    assert_eq!(r.headers.len(), 1);
    assert_eq!(header(&r, "Content-Range"), "bytes */10");
    assert!(r.body.is_empty());
}

#[test]
fn short_read_reports_actual_length() {
    // The file shrank after the range resolved: only 3 of the 8 planned
    // bytes could be read, and Content-Range reflects what is returned.
    let plan = ServePlan::Partial(ByteRange { start: 2, end_inclusive: 9 });
    let r = build_response(&plan, "video/mp4", 10, vec![0u8; 3]);
    assert_eq!(r.status, 206);
    assert_eq!(header(&r, "Content-Range"), "bytes 2-4/10");
    assert_eq!(header(&r, "Content-Length"), "3");
}

#[test]
fn open_ended_plan_covers_file_tail() {
    let plan = plan_request(Some("bytes=1000-"), 5000);
    assert_eq!(
        plan,
        ServePlan::Partial(ByteRange { start: 1000, end_inclusive: 4999 })
    );
}
