//! The byte-range responder: decides, from the optional `Range` header and
//! the file's size, whether a request is served with the full content, a
//! partial-content slice, or a range-not-satisfiable answer, and builds the
//! response with exactly the status and headers each case owes.
//!
//! The file I/O itself (metadata lookup, open, seek, read) happens outside;
//! the caller hands the bytes it actually read to [`build_response`].  When
//! fewer bytes than planned could be read (the file shrank concurrently),
//! the `Content-Range` header reflects the actual returned length.
use vstd::prelude::*;

use crate::range::{ByteRange, RangeFile, RangeResolution, spec_resolve};
use crate::text::{dec_str, push_dec_u64, u64_to_dec_string};

verus! {

/// How a stream request is to be served, resolved against the file's size.
#[derive(Clone, Copy, Debug, PartialEq, Eq, Structural)]
pub enum ServePlan {
    /// Serve the whole file with status 200: no range header was present, or
    /// it was malformed and is ignored.
    Full,
    /// Serve the given byte interval with status 206.
    Partial(ByteRange),
    /// Answer with status 416 and no body.
    Unsatisfiable,
}

/// The plan a header value resolves to: a malformed header falls back to
/// full-content serving.
pub open spec fn spec_plan(h: Seq<char>, size: u64) -> ServePlan {
    match spec_resolve(h, size) {
        RangeResolution::Resolved(b) => ServePlan::Partial(b),
        RangeResolution::Unsatisfiable => ServePlan::Unsatisfiable,
        RangeResolution::Malformed => ServePlan::Full,
    }
}

/// An HTTP response to a stream request: status code, headers in order, and
/// body bytes.
pub struct MediaResponse {
    pub status: u16,
    pub headers: Vec<(String, String)>,
    pub body: Vec<u8>,
}

/// The header pair holds the given name and value.
pub open spec fn header_is(h: (String, String), name: Seq<char>, value: Seq<char>) -> bool {
    h.0@ == name && h.1@ == value
}

/// Value of the `Content-Range` header of a partial response:
/// `bytes <first>-<last>/<size>`.
pub open spec fn content_range_value(first: u64, last: u64, size: u64) -> Seq<char> {
    "bytes "@ + dec_str(first as nat) + "-"@ + dec_str(last as nat) + "/"@ + dec_str(size as nat)
}

/// Value of the `Content-Range` header of an unsatisfiable-range response:
/// `bytes */<size>`.
pub open spec fn unsatisfiable_range_value(size: u64) -> Seq<char> {
    "bytes */"@ + dec_str(size as nat)
}

/// Decide how to serve a request from its optional `Range` header and the
/// file's size.
pub fn plan_request(range_header: Option<&str>, file_size: u64) -> (p: ServePlan)
    ensures
        match range_header {
            Some(h) => p == spec_plan(h@, file_size),
            None => p == ServePlan::Full,
        },
        p matches ServePlan::Partial(b) ==> b.valid_for(file_size),
{
    match range_header {
        None => ServePlan::Full,
        Some(h) => match RangeFile::parse_range_header(h, file_size) {
            RangeResolution::Resolved(b) => ServePlan::Partial(b),
            RangeResolution::Unsatisfiable => ServePlan::Unsatisfiable,
            RangeResolution::Malformed => ServePlan::Full,
        },
    }
}

/// Append the rendering of `bytes <first>-<last>/<size>`.
fn push_content_range(s: &mut String, first: u64, last: u64, size: u64)
    ensures
        final(s)@ == old(s)@ + content_range_value(first, last, size),
{
    proof {
        reveal_strlit("bytes ");
        reveal_strlit("-");
        reveal_strlit("/");
    }
    s.append("bytes ");
    push_dec_u64(s, first);
    s.append("-");
    push_dec_u64(s, last);
    s.append("/");
    push_dec_u64(s, size);
    proof {
        assert(final(s)@ =~= old(s)@ + content_range_value(first, last, size));
    }
}

/// Build the response a plan owes, given the bytes actually read for it.
///
/// For a full response the caller read the whole file; for a partial
/// response it read from the range's start, at least one byte and at most
/// the range's length; an unsatisfiable range carries no body.  Every case
/// that serves content carries the declared content type and
/// `Accept-Ranges: bytes`, so the three shapes stay consistent.
pub fn build_response(plan: &ServePlan, content_type: &str, file_size: u64, data: Vec<u8>) -> (r:
    MediaResponse)
    requires
        plan matches ServePlan::Full ==> data@.len() == file_size,
        plan matches ServePlan::Partial(b) ==> b.valid_for(file_size) && 1 <= data@.len()
            <= b.spec_len(),
        plan matches ServePlan::Unsatisfiable ==> data@.len() == 0,
    ensures
        r.body@ == data@,
        match *plan {
            ServePlan::Full => {
                &&& r.status == 200
                &&& r.headers@.len() == 3
                &&& header_is(r.headers@[0], "Content-Type"@, content_type@)
                &&& header_is(r.headers@[1], "Accept-Ranges"@, "bytes"@)
                &&& header_is(r.headers@[2], "Content-Length"@, dec_str(file_size as nat))
            },
            ServePlan::Partial(b) => {
                &&& r.status == 206
                &&& r.headers@.len() == 4
                &&& header_is(r.headers@[0], "Content-Type"@, content_type@)
                &&& header_is(r.headers@[1], "Accept-Ranges"@, "bytes"@)
                &&& header_is(
                    r.headers@[2],
                    "Content-Range"@,
                    content_range_value(
                        b.start,
                        (b.start + data@.len() - 1) as u64,
                        file_size,
                    ),
                )
                &&& header_is(r.headers@[3], "Content-Length"@, dec_str(data@.len() as nat))
            },
            ServePlan::Unsatisfiable => {
                &&& r.status == 416
                &&& r.headers@.len() == 1
                &&& header_is(r.headers@[0], "Content-Range"@, unsatisfiable_range_value(file_size))
            },
        },
{
    let mut headers: Vec<(String, String)> = Vec::new();
    match plan {
        ServePlan::Full => {
            headers.push((String::from_str("Content-Type"), String::from_str(content_type)));
            headers.push((String::from_str("Accept-Ranges"), String::from_str("bytes")));
            headers.push((String::from_str("Content-Length"), u64_to_dec_string(file_size)));
            MediaResponse { status: 200, headers, body: data }
        },
        ServePlan::Partial(b) => {
            headers.push((String::from_str("Content-Type"), String::from_str(content_type)));
            headers.push((String::from_str("Accept-Ranges"), String::from_str("bytes")));
            let mut range_value = String::new();
            let actual_len = data.len() as u64;
            push_content_range(&mut range_value, b.start, b.start + actual_len - 1, file_size);
            proof {
                assert(Seq::<char>::empty() + content_range_value(
                    b.start,
                    (b.start + data@.len() - 1) as u64,
                    file_size,
                ) =~= content_range_value(
                    b.start,
                    (b.start + data@.len() - 1) as u64,
                    file_size,
                ));
            }
            headers.push((String::from_str("Content-Range"), range_value));
            headers.push((String::from_str("Content-Length"), u64_to_dec_string(actual_len)));
            MediaResponse { status: 206, headers, body: data }
        },
        ServePlan::Unsatisfiable => {
            proof {
                reveal_strlit("bytes */");
            }
            let mut range_value = String::from_str("bytes */");
            push_dec_u64(&mut range_value, file_size);
            proof {
                assert(range_value@ =~= unsatisfiable_range_value(file_size));
            }
            headers.push((String::from_str("Content-Range"), range_value));
            MediaResponse { status: 416, headers, body: data }
        },
    }
}

} // verus!
