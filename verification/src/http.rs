//! What the HTTP surface decides about byte ranges.
//!
//! Players probe streams and segments with `Range: bytes=a-b`. A segment on
//! disk answers a range that starts within it with that part, cut at its end,
//! and refuses a range that starts at or after its end. The live stream can only
//! answer from its initialization header: a range the header covers gets that
//! part, a range beyond it is refused. A header that names no range in order is
//! passed over.

use crate::text::{
    chars_of, decimal, has_prefix, parse_unsigned, push_decimal, read_unsigned,
    slice_of, split_once, split_once_at, starts_with, string_of, trim, trimmed,
};
use vstd::prelude::*;

verus! {

/// How often the header slot of a starting stream is polled before the request
/// is given up.
pub const HEADER_POLLS: u32 = 150;

/// Milliseconds between two polls of the header slot.
pub const HEADER_POLL_MILLIS: u64 = 100;

/// The unit prefix of a byte range.
pub open spec fn bytes_unit() -> Seq<char> {
    "bytes="@
}

/// The first and last byte position that a `Range` header names.
///
/// The header counts without white space at its ends. It must start with
/// `bytes=`, and what follows must be two numbers with a `-` between them.
pub open spec fn spec_parse_range(header: Seq<char>) -> Option<(usize, usize)> {
    let h = trim(header);
    if starts_with(h, bytes_unit()) {
        match split_once(h.skip(bytes_unit().len() as int), '-') {
            Some((a, b)) => match (
                parse_unsigned(a, usize::MAX as nat),
                parse_unsigned(b, usize::MAX as nat),
            ) {
                (Some(start), Some(end)) => Some((start as usize, end as usize)),
                _ => None,
            },
            None => None,
        }
    } else {
        None
    }
}

/// The first and last byte position that a `Range` header names; see
/// [`spec_parse_range`].
pub fn parse_range(header: &str) -> (r: Option<(usize, usize)>)
    ensures
        r == spec_parse_range(header@),
{
    let h = trimmed(&chars_of(header));
    let unit = chars_of("bytes=");
    if !has_prefix(&h, &unit) {
        return None;
    }
    let spec = slice_of(&h, unit.len(), h.len());
    assert(spec@ =~= h@.skip(unit.len() as int));
    match split_once_at(&spec, '-') {
        Some((a, b)) => {
            let start = read_unsigned(&a, usize::MAX as u64);
            let end = read_unsigned(&b, usize::MAX as u64);
            match (start, end) {
                (Some(s), Some(e)) => Some((s as usize, e as usize)),
                _ => None,
            }
        },
        None => None,
    }
}

/// How a request for bytes is answered.
#[derive(Clone, Copy, Debug, PartialEq, Eq, Structural)]
pub enum RangeReply {
    /// The whole content, with status 200.
    Full,
    /// The bytes from `start` to `end`, both included, with status 206.
    Partial { start: usize, end: usize },
    /// Nothing, with status 416.
    Unsatisfiable,
}

/// The answer of a segment of `total` bytes to a range in order: the named part
/// when it lies within the segment; the part up to the last byte when the range
/// starts within the segment and reaches beyond it; a refusal when the range
/// starts at or after the end. Without a range in order it is the whole segment.
pub open spec fn spec_segment_reply(range: Option<Seq<char>>, total: usize) -> RangeReply {
    match range {
        Some(h) => match spec_parse_range(h) {
            Some((start, end)) => if start <= end {
                if end < total {
                    RangeReply::Partial { start, end }
                } else if start < total {
                    RangeReply::Partial { start, end: (total - 1) as usize }
                } else {
                    RangeReply::Unsatisfiable
                }
            } else {
                RangeReply::Full
            },
            None => RangeReply::Full,
        },
        None => RangeReply::Full,
    }
}

/// The answer of a live stream whose header has `total` bytes: the named part
/// of the header when the range lies within it, a refusal when the range is in
/// order but reaches beyond the header, and else the stream itself.
pub open spec fn spec_header_reply(range: Option<Seq<char>>, total: usize) -> RangeReply {
    match range {
        Some(h) => match spec_parse_range(h) {
            Some((start, end)) => if start <= end {
                if end < total {
                    RangeReply::Partial { start, end }
                } else {
                    RangeReply::Unsatisfiable
                }
            } else {
                RangeReply::Full
            },
            None => RangeReply::Full,
        },
        None => RangeReply::Full,
    }
}

/// The answer of a segment to a request; see [`spec_segment_reply`].
pub fn segment_reply(range: Option<&str>, total: usize) -> (r: RangeReply)
    ensures
        r == spec_segment_reply(
            match range {
                Some(h) => Some(h@),
                None => None,
            },
            total,
        ),
        r matches RangeReply::Partial { start, end } ==> start <= end < total,
{
    match range {
        Some(h) => match parse_range(h) {
            Some((start, end)) => if start <= end {
                if end < total {
                    RangeReply::Partial { start, end }
                } else if start < total {
                    RangeReply::Partial { start, end: total - 1 }
                } else {
                    RangeReply::Unsatisfiable
                }
            } else {
                RangeReply::Full
            },
            None => RangeReply::Full,
        },
        None => RangeReply::Full,
    }
}

/// The answer of a live stream to a request; see [`spec_header_reply`].
pub fn header_reply(range: Option<&str>, total: usize) -> (r: RangeReply)
    ensures
        r == spec_header_reply(
            match range {
                Some(h) => Some(h@),
                None => None,
            },
            total,
        ),
        r matches RangeReply::Partial { start, end } ==> start <= end < total,
{
    match range {
        Some(h) => match parse_range(h) {
            Some((start, end)) => if start <= end {
                if end < total {
                    RangeReply::Partial { start, end }
                } else {
                    RangeReply::Unsatisfiable
                }
            } else {
                RangeReply::Full
            },
            None => RangeReply::Full,
        },
        None => RangeReply::Full,
    }
}

/// The `Content-Range` value of a partial answer: `bytes start-end/total`.
pub open spec fn spec_content_range(start: usize, end: usize, total: usize) -> Seq<char> {
    "bytes "@ + decimal(start as nat) + seq!['-'] + decimal(end as nat) + seq!['/'] + decimal(
        total as nat,
    )
}

/// The `Content-Range` value of a refusal: `bytes */total`.
pub open spec fn spec_unsatisfied_range(total: usize) -> Seq<char> {
    "bytes */"@ + decimal(total as nat)
}

/// The `Content-Range` value of a partial answer.
pub fn content_range(start: usize, end: usize, total: usize) -> (r: String)
    ensures
        r@ == spec_content_range(start, end, total),
{
    let mut out = chars_of("bytes ");
    push_decimal(&mut out, start as u64);
    out.push('-');
    push_decimal(&mut out, end as u64);
    out.push('/');
    push_decimal(&mut out, total as u64);
    assert(out@ =~= spec_content_range(start, end, total));
    string_of(&out)
}

/// The `Content-Range` value of a refusal.
pub fn unsatisfied_range(total: usize) -> (r: String)
    ensures
        r@ == spec_unsatisfied_range(total),
{
    let mut out = chars_of("bytes */");
    push_decimal(&mut out, total as u64);
    string_of(&out)
}

} // verus!
