//! Compact range tasks: the headers that declare them, and the grid of chunks to which
//! their ranges are held.

use reqwest::header::{HeaderMap, HeaderValue};
use std::collections::HashMap;
use vstd::prelude::*;

use crate::error::{Error, Failure};
use crate::fields;
use crate::header_map;
use crate::range::{Range, RANGE_HEADER};
use crate::text;

verus! {

/// The X-Dragonfly-Content-Length header declares the total content length of
/// the task up front, so dfdaemon can skip the ranged stat request to the
/// origin. This also keeps requests whose Range header is covered by an
/// upstream request signature (e.g. AWS SigV4 with a signed Range header)
/// intact, because the stat request would rewrite the Range header and
/// invalidate the signature.
pub const DRAGONFLY_CONTENT_LENGTH_HEADER: &'static str = "X-Dragonfly-Content-Length";

/// The X-Dragonfly-Piece-Offset header declares that the client's ranged
/// requests are aligned to a chunk grid shifted by the given offset, e.g.
/// ranged reads of a SafeTensors payload that starts after the file header.
/// It is only a validation aid for compact range tasks: misaligned ranges are
/// rejected early so all clients produce identical, cache-shareable ranges.
/// It requires the X-Dragonfly-Content-Length header and a declared piece
/// length.
pub const DRAGONFLY_PIECE_OFFSET_HEADER: &'static str = "X-Dragonfly-Piece-Offset";

/// A compact range task downloads and stores only the requested byte range of
/// the source object, instead of allocating storage for the whole object.
#[derive(Debug, Clone, Copy, PartialEq, Eq, Structural)]
pub struct CompactRange {
    /// The requested byte range in source object coordinates.
    pub range: Range,
    /// The total content length of the source object declared by the
    /// X-Dragonfly-Content-Length header.
    pub total_content_length: u64,
}

/// The number that a header value declares: one that fits in 64 bits, with white space
/// round it or not.
pub open spec fn declared_number(value: Seq<char>) -> Option<u64> {
    text::parse_u64_of(text::trim_of(value))
}

/// The content length that `headers` declare.
pub open spec fn declared_content_length(headers: Map<Seq<char>, Seq<Seq<u8>>>) -> Option<u64> {
    let name = text::lower_of(DRAGONFLY_CONTENT_LENGTH_HEADER@);
    if headers.contains_key(name) {
        match header_map::visible_text(headers[name][0]) {
            Some(value) => declared_number(value),
            None => None,
        }
    } else {
        None
    }
}

/// The name of the X-Dragonfly-Content-Length header is a header name.
pub proof fn lemma_content_length_header_name()
    ensures
        header_map::name_of(DRAGONFLY_CONTENT_LENGTH_HEADER@) == Some(
            text::lower_of(DRAGONFLY_CONTENT_LENGTH_HEADER@),
        ),
{
    reveal_strlit("X-Dragonfly-Content-Length");
    header_map::lemma_name_of(DRAGONFLY_CONTENT_LENGTH_HEADER@);
}

/// Gets the content length declared by the X-Dragonfly-Content-Length header.
pub fn get_task_content_length(header: &HeaderMap<HeaderValue>) -> (r: Option<u64>)
    ensures
        r == declared_content_length(header_map::header_values(*header)),
{
    proof {
        lemma_content_length_header_name();
    }
    match header_map::get(header, DRAGONFLY_CONTENT_LENGTH_HEADER) {
        Some(value) => match value.to_str() {
            Ok(value) => text::parse_u64(text::trim(value)),
            Err(_) => None,
        },
        None => None,
    }
}

/// Whether `range` covers exactly one chunk of the grid that starts at `offset` with
/// chunks of `piece_length` bytes, in an object of `total` bytes. The trailing chunk is
/// the only chunk shorter than the piece length.
pub open spec fn is_chunk(range: Range, total: u64, offset: u64, piece_length: u64) -> bool {
    &&& piece_length > 0
    &&& range.start >= offset
    &&& (range.start - offset) % (piece_length as int) == 0
    &&& range.length == piece_length || (range.length < piece_length && range.start + range.length
        == total)
}

/// The message that tells that a range is no chunk of the grid.
pub open spec fn misaligned_message(range: Range, offset: u64, piece_length: u64) -> Seq<char> {
    "range ["@ + text::decimal_of(range.start as nat) + ", "@ + text::decimal_of(
        (range.start + range.length) as nat,
    ) + ") is not aligned to the chunk grid with offset "@ + text::decimal_of(offset as nat)
        + " and piece length "@ + text::decimal_of(piece_length as nat)
}

/// What a range task comes to whose Range header asks for `range`, whose declared
/// content length is `total` and whose X-Dragonfly-Piece-Offset header is
/// `piece_offset`.
pub open spec fn checked_range(
    range: Range,
    total: u64,
    piece_offset: Option<Seq<char>>,
    piece_length: Option<u64>,
) -> Result<CompactRange, Failure> {
    match piece_offset {
        None => Ok(CompactRange { range, total_content_length: total }),
        Some(value) => match (declared_number(value), piece_length) {
            (None, _) => Err(Failure::Validation("invalid piece offset "@ + value)),
            (Some(_), None) => Err(
                Failure::Validation(
                    "the X-Dragonfly-Piece-Offset header requires a declared piece length"@,
                ),
            ),
            (Some(offset), Some(piece_length)) => if is_chunk(range, total, offset, piece_length) {
                Ok(CompactRange { range, total_content_length: total })
            } else {
                Err(Failure::Validation(misaligned_message(range, offset, piece_length)))
            },
        },
    }
}

fn misaligned_text(range: Range, offset: u64, piece_length: u64) -> (r: String)
    requires
        range.start + range.length <= u64::MAX,
    ensures
        r@ == misaligned_message(range, offset, piece_length),
{
    let mut message = "range [".to_owned();
    text::push_decimal(&mut message, range.start);
    message.append(", ");
    text::push_decimal(&mut message, range.start + range.length);
    message.append(") is not aligned to the chunk grid with offset ");
    text::push_decimal(&mut message, offset);
    message.append(" and piece length ");
    text::push_decimal(&mut message, piece_length);
    message
}

/// Makes a compact range task of a resolved range, if the grid that the piece offset
/// declares admits it.
pub fn check_range(
    range: Range,
    total_content_length: u64,
    piece_offset: Option<&str>,
    piece_length: Option<u64>,
) -> (r: Result<CompactRange, Error>)
    requires
        piece_offset is Some ==> range.start + range.length <= u64::MAX,
    ensures
        crate::error::outcome(r) == checked_range(
            range,
            total_content_length,
            text::text_of(piece_offset),
            piece_length,
        ),
{
    if let Some(value) = piece_offset {
        let piece_offset = match text::parse_u64(text::trim(value)) {
            Some(piece_offset) => piece_offset,
            None => {
                let mut message = "invalid piece offset ".to_owned();
                message.append(value);
                return Err(Error::ValidationError(message));
            },
        };
        let piece_length = match piece_length {
            Some(piece_length) => piece_length,
            None => {
                return Err(
                    Error::ValidationError(
                        "the X-Dragonfly-Piece-Offset header requires a declared piece length".to_owned(),
                    ),
                );
            },
        };

        let aligned_start = range.start >= piece_offset && piece_length > 0 && (range.start
            - piece_offset) % piece_length == 0;
        // The trailing chunk is the only chunk shorter than the piece length.
        let aligned_length = range.length == piece_length || (range.start + range.length
            == total_content_length && range.length < piece_length);
        if !aligned_start || !aligned_length {
            return Err(Error::ValidationError(misaligned_text(range, piece_offset, piece_length)));
        }
    }
    Ok(CompactRange { range, total_content_length })
}

/// The number that a header declares whose value was looked up.
pub open spec fn declared_by(value: Option<Seq<char>>) -> Option<u64> {
    match value {
        Some(value) => declared_number(value),
        None => None,
    }
}

/// What a request comes to in whose header the content length, the Range and the piece
/// offset were looked up.
pub open spec fn compact_outcome(
    content_length: Option<Seq<char>>,
    range: Option<Seq<char>>,
    piece_offset: Option<Seq<char>>,
    piece_length: Option<u64>,
) -> Result<Option<CompactRange>, Failure> {
    match (declared_by(content_length), range) {
        (Some(total), Some(range)) => match crate::range::requested_range(range, total) {
            Ok(range) => match checked_range(range, total, piece_offset, piece_length) {
                Ok(compact) => Ok(Some(compact)),
                Err(failure) => Err(failure),
            },
            Err(failure) => Err(failure),
        },
        _ => Ok(None),
    }
}

/// Makes a compact range task of the content length, the Range and the piece offset that
/// were looked up in the header of a request.
pub fn compact_range_of(
    content_length: Option<&str>,
    range: Option<&str>,
    piece_offset: Option<&str>,
    piece_length: Option<u64>,
) -> (r: Result<Option<CompactRange>, Error>)
    ensures
        crate::error::outcome(r) == compact_outcome(
            text::text_of(content_length),
            text::text_of(range),
            text::text_of(piece_offset),
            piece_length,
        ),
{
    let total_content_length = match content_length {
        Some(value) => match text::parse_u64(text::trim(value)) {
            Some(total_content_length) => total_content_length,
            None => {
                return Ok(None);
            },
        },
        None => {
            return Ok(None);
        },
    };
    let range_header = match range {
        Some(range_header) => range_header,
        None => {
            return Ok(None);
        },
    };
    let range = match crate::range::parse_range_header(range_header, total_content_length) {
        Ok(range) => range,
        Err(e) => {
            return Err(e);
        },
    };
    proof {
        crate::range::law_requested_range_within(range_header@, total_content_length);
    }
    match check_range(range, total_content_length, piece_offset, piece_length) {
        Ok(compact_range) => Ok(Some(compact_range)),
        Err(e) => Err(e),
    }
}

/// Whether `outcome` is what a request with the header `fields` may come to: what it
/// comes to with the content length, the Range and the piece offset that lookups in
/// `fields` may give.
pub open spec fn may_come_to(
    fields: Map<Seq<char>, Seq<char>>,
    piece_length: Option<u64>,
    outcome: Result<Option<CompactRange>, Failure>,
) -> bool {
    exists|
        content_length: Option<Seq<char>>,
        range: Option<Seq<char>>,
        piece_offset: Option<Seq<char>>,
    |
        #![trigger compact_outcome(content_length, range, piece_offset, piece_length)]
        {
            &&& fields::may_find(fields, DRAGONFLY_CONTENT_LENGTH_HEADER@, content_length)
            &&& fields::may_find(fields, RANGE_HEADER@, range)
            &&& fields::may_find(fields, DRAGONFLY_PIECE_OFFSET_HEADER@, piece_offset)
            &&& outcome == compact_outcome(content_length, range, piece_offset, piece_length)
        }
}

/// Returns the compact range task parameters when the client declares the
/// total content length with the X-Dragonfly-Content-Length header and sends
/// a Range header. Such a request is served as a compact range task: the task
/// id is derived from the range, the task stores only the requested bytes and
/// the source receives the client's original Range header unchanged, which
/// keeps ranges covered by an upstream request signature (e.g. AWS SigV4)
/// valid.
///
/// When the X-Dragonfly-Piece-Offset header is present, the range is
/// additionally validated to cover exactly one chunk of the grid that starts
/// at the offset with the declared piece length, so all clients chunk the
/// object identically and share the same compact range tasks.
pub fn get_compact_range(header: &HashMap<String, String>, piece_length: Option<u64>) -> (r: Result<
    Option<CompactRange>,
    Error,
>)
    ensures
        may_come_to(header.deep_view(), piece_length, crate::error::outcome(r)),
{
    let content_length = fields::find_header(header, DRAGONFLY_CONTENT_LENGTH_HEADER);
    let range = fields::find_header(header, RANGE_HEADER);
    let piece_offset = fields::find_header(header, DRAGONFLY_PIECE_OFFSET_HEADER);
    compact_range_of(content_length, range, piece_offset, piece_length)
}

} // verus!
