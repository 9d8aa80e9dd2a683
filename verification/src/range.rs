//! The range resolver: parses an HTTP `Range` request header against a known
//! resource length and produces a validated byte interval, signals that the
//! range is unsatisfiable, or reports the header as malformed so that the
//! caller falls back to full-content serving.
//!
//! Only the single-range subset of the HTTP range scheme is handled: a
//! comma-separated multi-range header does not split into exactly two parts
//! on `'-'` and is therefore treated as malformed, a deliberate documented
//! limitation.
use vstd::prelude::*;

use crate::text::{
    all_digits, dec_str, digits_val, find_char_at, find_char_from, lemma_dec_str_digits,
    lemma_digits_val_nonneg, lemma_find_char_first, lemma_find_char_none, parse_u64_range,
    prefix_check,
};

verus! {

/// A validated byte interval of a resource, inclusive on both ends.
/// Constructed only by the range resolver, which guarantees
/// `start <= end_inclusive < file_size` for the resource it was resolved
/// against.
#[derive(Clone, Copy, Debug, PartialEq, Eq, Structural)]
pub struct ByteRange {
    pub start: u64,
    pub end_inclusive: u64,
}

impl ByteRange {
    /// The interval lies inside a resource of `size` bytes.
    pub open spec fn valid_for(self, size: u64) -> bool {
        self.start <= self.end_inclusive < size
    }

    /// Number of bytes the interval covers.
    pub open spec fn spec_len(self) -> int {
        self.end_inclusive - self.start + 1
    }
}

/// Outcome of resolving a `Range` header against a resource length.
#[derive(Clone, Copy, Debug, PartialEq, Eq, Structural)]
pub enum RangeResolution {
    /// A well-formed, satisfiable range.
    Resolved(ByteRange),
    /// Syntactically well-formed, but the range starts past the resource's
    /// last byte or ends before it starts: answer with status 416.
    Unsatisfiable,
    /// Not a usable single-range header: the caller ignores it and serves
    /// the full content.
    Malformed,
}

/// The header starts with the literal prefix `bytes=`.
pub open spec fn has_bytes_prefix(h: Seq<char>) -> bool {
    h.len() >= 6 && h.subrange(0, 6) == "bytes="@
}

/// Resolution of the part of the header after `bytes=`, split on the single
/// `'-'`: a start that must parse as a decimal number, and an end that is
/// either empty (meaning the resource's last byte) or a decimal number,
/// clamped to the resource's last byte.
pub open spec fn spec_resolve_rest(rest: Seq<char>, size: u64) -> RangeResolution {
    match find_char_from(rest, '-', 0) {
        None => RangeResolution::Malformed,
        Some(d) => if find_char_from(rest, '-', d + 1) is Some {
            RangeResolution::Malformed
        } else {
            let start_part = rest.subrange(0, d);
            let end_part = rest.subrange(d + 1, rest.len() as int);
            if start_part.len() == 0 || !all_digits(start_part) || digits_val(start_part)
                > u64::MAX {
                RangeResolution::Malformed
            } else {
                let start = digits_val(start_part);
                if end_part.len() == 0 {
                    if start >= size {
                        RangeResolution::Unsatisfiable
                    } else {
                        RangeResolution::Resolved(
                            ByteRange { start: start as u64, end_inclusive: (size - 1) as u64 },
                        )
                    }
                } else if !all_digits(end_part) || digits_val(end_part) > u64::MAX {
                    RangeResolution::Malformed
                } else {
                    let end = digits_val(end_part);
                    if start > end || start >= size {
                        RangeResolution::Unsatisfiable
                    } else {
                        let clamped = if end > size - 1 {
                            size - 1
                        } else {
                            end
                        };
                        RangeResolution::Resolved(
                            ByteRange { start: start as u64, end_inclusive: clamped as u64 },
                        )
                    }
                }
            }
        },
    }
}

/// Resolution of a whole `Range` header value against a resource length.
pub open spec fn spec_resolve(h: Seq<char>, size: u64) -> RangeResolution {
    if !has_bytes_prefix(h) {
        RangeResolution::Malformed
    } else {
        spec_resolve_rest(h.subrange(6, h.len() as int), size)
    }
}

/// A file handed out with range-request support: the responder reads these
/// fields to open, seek and read the file and to write the response headers.
pub struct RangeFile {
    pub file_path: String,
    pub content_type: String,
    pub file_size: u64,
}

impl RangeFile {
    /// Package a file path, its content type, and its size as reported by a
    /// metadata lookup the caller already performed.
    pub fn new(file_path: String, content_type: String, file_size: u64) -> (r: RangeFile)
        ensures
            r.file_path@ == file_path@,
            r.content_type@ == content_type@,
            r.file_size == file_size,
    {
        RangeFile { file_path, content_type, file_size }
    }

    /// Parse a `Range` header value like `bytes=0-1023` against the length
    /// of the resource.
    pub fn parse_range_header(range_header: &str, file_size: u64) -> (r: RangeResolution)
        ensures
            r == spec_resolve(range_header@, file_size),
            r matches RangeResolution::Resolved(b) ==> b.valid_for(file_size),
    {
        proof {
            reveal_strlit("bytes=");
        }
        if !prefix_check(range_header, "bytes=") {
            return RangeResolution::Malformed;
        }
        let n = range_header.unicode_len();
        let rest = range_header.substring_char(6, n);
        let d = match find_char_at(rest, '-', 0) {
            None => {
                return RangeResolution::Malformed;
            },
            Some(d) => d,
        };
        let rest_len = rest.unicode_len();
        if let Some(_) = find_char_at(rest, '-', d + 1) {
            return RangeResolution::Malformed;
        }
        let start = match parse_u64_range(rest, 0, d) {
            None => {
                return RangeResolution::Malformed;
            },
            Some(v) => v,
        };
        proof {
            lemma_digits_val_nonneg(rest@.subrange(0, d as int));
        }
        if d + 1 == rest_len {
            if start >= file_size {
                RangeResolution::Unsatisfiable
            } else {
                RangeResolution::Resolved(
                    ByteRange { start, end_inclusive: file_size - 1 },
                )
            }
        } else {
            let end = match parse_u64_range(rest, d + 1, rest_len) {
                None => {
                    return RangeResolution::Malformed;
                },
                Some(v) => v,
            };
            if start > end || start >= file_size {
                RangeResolution::Unsatisfiable
            } else {
                let clamped = if end > file_size - 1 {
                    file_size - 1
                } else {
                    end
                };
                RangeResolution::Resolved(ByteRange { start, end_inclusive: clamped })
            }
        }
    }
}

/// Evaluates the resolver on a header assembled from a decimal start and a
/// tail that is either empty or a decimal number: the shape every
/// syntactically valid single-range header takes.
proof fn lemma_resolve_numeric_header(a: u64, tail: Seq<char>, size: u64)
    requires
        tail.len() == 0 || (all_digits(tail) && digits_val(tail) <= u64::MAX),
    ensures
        spec_resolve("bytes="@ + dec_str(a as nat) + seq!['-'] + tail, size) == (
        if tail.len() == 0 {
            if a >= size {
                RangeResolution::Unsatisfiable
            } else {
                RangeResolution::Resolved(ByteRange { start: a, end_inclusive: (size - 1) as u64 })
            }
        } else {
            let end = digits_val(tail);
            if a > end || a >= size {
                RangeResolution::Unsatisfiable
            } else {
                let clamped = if end > size - 1 {
                    (size - 1) as u64
                } else {
                    end as u64
                };
                RangeResolution::Resolved(ByteRange { start: a, end_inclusive: clamped })
            }
        }),
{
    reveal_strlit("bytes=");
    let h = "bytes="@ + dec_str(a as nat) + seq!['-'] + tail;
    let dec = dec_str(a as nat);
    lemma_dec_str_digits(a as nat);
    let dlen = dec.len() as int;
    assert(h.subrange(0, 6) =~= "bytes="@);
    let rest = h.subrange(6, h.len() as int);
    assert(rest =~= dec + seq!['-'] + tail);
    assert(rest[dlen] == '-');
    assert(forall|j: int| 0 <= j < dlen ==> #[trigger] rest[j] == dec[j]);
    lemma_find_char_first(rest, '-', 0, dlen);
    assert(forall|j: int|
        dlen + 1 <= j < rest.len() ==> #[trigger] rest[j] == tail[j - dlen - 1]);
    lemma_find_char_none(rest, '-', dlen + 1);
    let start_part = rest.subrange(0, dlen);
    assert(start_part =~= dec);
    let end_part = rest.subrange(dlen + 1, rest.len() as int);
    assert(end_part =~= tail);
    lemma_digits_val_nonneg(dec);
    if tail.len() > 0 {
        lemma_digits_val_nonneg(tail);
    }
}

/// Every well-formed two-sided header `bytes=a-b` whose interval lies inside
/// the resource resolves to exactly that interval, the end clamped to the
/// resource's last byte.
pub proof fn lemma_resolve_two_sided(a: u64, b: u64, size: u64)
    requires
        a <= b < size,
    ensures
        spec_resolve("bytes="@ + dec_str(a as nat) + seq!['-'] + dec_str(b as nat), size)
            == RangeResolution::Resolved(ByteRange { start: a, end_inclusive: b }),
{
    lemma_dec_str_digits(b as nat);
    lemma_resolve_numeric_header(a, dec_str(b as nat), size);
}

/// Every numeric header whose start lies at or past the resource's length
/// resolves as unsatisfiable, whether the end is given or open.
pub proof fn lemma_resolve_start_past_size(a: u64, tail: Seq<char>, size: u64)
    requires
        a >= size,
        tail.len() == 0 || (all_digits(tail) && digits_val(tail) <= u64::MAX),
    ensures
        spec_resolve("bytes="@ + dec_str(a as nat) + seq!['-'] + tail, size)
            == RangeResolution::Unsatisfiable,
{
    lemma_resolve_numeric_header(a, tail, size);
}

/// A resolved range always lies inside the resource.
pub proof fn lemma_resolved_valid(h: Seq<char>, size: u64)
    ensures
        spec_resolve(h, size) matches RangeResolution::Resolved(b) ==> b.valid_for(size),
{
    if has_bytes_prefix(h) {
        let rest = h.subrange(6, h.len() as int);
        match find_char_from(rest, '-', 0) {
            Some(d) => {
                if find_char_from(rest, '-', d + 1) is None {
                    let start_part = rest.subrange(0, d);
                    if all_digits(start_part) {
                        lemma_digits_val_nonneg(start_part);
                    }
                }
            },
            None => {},
        }
    }
}

} // verus!
