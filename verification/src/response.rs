//! Responses to ranged requests.

use reqwest::header::{HeaderMap, HeaderValue};
use vstd::prelude::*;

use crate::error::{BackendError, Error, Failure};
use crate::header_map;
use crate::range::Range;
use crate::status::{status_text, StatusCode};
use crate::text;

verus! {

/// The name of the header that tells which range a response transfers.
pub const CONTENT_RANGE_HEADER: &'static str = "content-range";

/// The status code of a response that transfers a range.
pub const PARTIAL_CONTENT: u16 = 206;

/// The position of the last byte of a range.
pub open spec fn last_of(range: Range) -> int {
    range.start + range.length - 1
}

/// A range as a Range header writes it: "bytes=<start>-<end>".
pub open spec fn shown_range(range: Range) -> Seq<char> {
    "bytes="@ + text::decimal_of(range.start as nat) + "-"@ + text::decimal_of(
        last_of(range) as nat,
    )
}

/// The first and last byte that a Content-Range names, which is formatted as
/// "bytes <start>-<end>/<total>".
pub open spec fn content_range_bounds(value: Seq<char>) -> Option<(u64, u64)> {
    match text::strip_prefix_of(value, "bytes "@) {
        Some(rest) => match text::split_once_of(rest, '/') {
            Some((bytes_range, _)) => match text::split_once_of(bytes_range, '-') {
                Some((start, end)) => match (text::parse_u64_of(start), text::parse_u64_of(end)) {
                    (Some(start), Some(end)) => Some((start, end)),
                    _ => None,
                },
                None => None,
            },
            None => None,
        },
        None => None,
    }
}

/// The text of the Content-Range header among `headers`.
pub open spec fn content_range_text(headers: Map<Seq<char>, Seq<Seq<u8>>>) -> Option<Seq<char>> {
    if headers.contains_key(CONTENT_RANGE_HEADER@) {
        header_map::visible_text(headers[CONTENT_RANGE_HEADER@][0])
    } else {
        None
    }
}

/// What is wrong with a Content-Range as an answer to a request for `range`.
pub open spec fn content_range_fault(range: Range, content_range: Option<Seq<char>>) -> Option<
    Seq<char>,
> {
    match content_range {
        None => Some("missing Content-Range for range "@ + shown_range(range)),
        Some(value) => match content_range_bounds(value) {
            None => Some("invalid Content-Range "@ + value),
            Some((start, end)) => if start == range.start && end == last_of(range) {
                None
            } else {
                Some(
                    "Content-Range "@ + value + " mismatches requested range "@ + shown_range(
                        range,
                    ),
                )
            },
        },
    }
}

/// The message that tells that a ranged request was answered with another status than
/// that of partial content. The status is given as it is displayed.
pub open spec fn unexpected_status(range: Range, status: Seq<char>) -> Seq<char> {
    "expected 206 Partial Content for range "@ + shown_range(range) + ", got "@ + status
}

/// What is wrong with a response to a request for `range`. A response without success is
/// not looked at. One that is not of partial content holds the whole object, and is an
/// answer to a request that starts at the first byte.
pub open spec fn response_fault(
    range: Option<Range>,
    status: u16,
    headers: Map<Seq<char>, Seq<Seq<u8>>>,
) -> Option<Seq<char>> {
    match range {
        None => None,
        Some(range) => if !crate::status::is_success_code(status) {
            None
        } else if status == PARTIAL_CONTENT {
            content_range_fault(range, content_range_text(headers))
        } else if range.start == 0 {
            None
        } else {
            Some(unexpected_status(range, crate::status::status_text_of(status)))
        },
    }
}

/// Appends a range as a Range header writes it.
fn push_range(message: &mut String, range: Range)
    requires
        1 <= range.start + range.length <= u64::MAX,
    ensures
        final(message)@ == old(message)@ + shown_range(range),
{
    message.append("bytes=");
    text::push_decimal(message, range.start);
    message.append("-");
    text::push_decimal(message, range.start + range.length - 1);
    assert(message@ =~= old(message)@ + shown_range(range));
}

/// Tells that a ranged request was answered with another status than that of partial
/// content.
pub fn unexpected_status_message(range: Range, status: &str) -> (r: String)
    requires
        1 <= range.start + range.length <= u64::MAX,
    ensures
        r@ == unexpected_status(range, status@),
{
    let mut message = "expected 206 Partial Content for range ".to_owned();
    push_range(&mut message, range);
    message.append(", got ");
    message.append(status);
    message
}

/// Reads the first and last byte that a Content-Range names.
fn parse_content_range(value: &str) -> (r: Option<(u64, u64)>)
    ensures
        r == content_range_bounds(value@),
{
    let rest = match text::strip_prefix(value, "bytes ") {
        Some(rest) => rest,
        None => {
            return None;
        },
    };
    let bytes_range = match text::split_once(rest, '/') {
        Some((bytes_range, _)) => bytes_range,
        None => {
            return None;
        },
    };
    match text::split_once(bytes_range, '-') {
        Some((start, end)) => match (text::parse_u64(start), text::parse_u64(end)) {
            (Some(start), Some(end)) => Some((start, end)),
            _ => None,
        },
        None => None,
    }
}

/// Checks that a Content-Range tells of the requested range, and says what is wrong
/// where it does not.
pub fn check_content_range(range: Range, content_range: Option<&str>) -> (r: Option<String>)
    requires
        1 <= range.start + range.length <= u64::MAX,
    ensures
        match r {
            Some(message) => content_range_fault(range, text::text_of(content_range)) == Some(
                message@,
            ),
            None => content_range_fault(range, text::text_of(content_range)) is None,
        },
{
    let content_range = match content_range {
        Some(content_range) => content_range,
        None => {
            let mut message = "missing Content-Range for range ".to_owned();
            push_range(&mut message, range);
            return Some(message);
        },
    };
    let expected_end = range.start + range.length - 1;
    match parse_content_range(content_range) {
        Some((actual_start, actual_end)) => {
            if actual_start != range.start || actual_end != expected_end {
                let mut message = "Content-Range ".to_owned();
                message.append(content_range);
                message.append(" mismatches requested range ");
                push_range(&mut message, range);
                return Some(message);
            }
            None
        },
        None => {
            let mut message = "invalid Content-Range ".to_owned();
            message.append(content_range);
            Some(message)
        },
    }
}

/// The name of the Content-Range header is a header name, in lower case.
pub proof fn lemma_content_range_header_name()
    ensures
        header_map::name_of(CONTENT_RANGE_HEADER@) == Some(CONTENT_RANGE_HEADER@),
{
    reveal_strlit("content-range");
    header_map::lemma_name_of(CONTENT_RANGE_HEADER@);
    assert(text::lower_of(CONTENT_RANGE_HEADER@) =~= CONTENT_RANGE_HEADER@);
}

/// Validates that a ranged response satisfies the requested range, since the server may
/// ignore the Range header or transfer a range different from the requested one, which is
/// described by the Content-Range header, refer to RFC 9110 Section 15.3.7.
pub fn validate_ranged_response(
    range: Option<Range>,
    status_code: StatusCode,
    response_header: &HeaderMap<HeaderValue>,
) -> (r: Result<(), Error>)
    requires
        range matches Some(range) ==> crate::status::is_success_code(status_code@) ==> 1
            <= range.start + range.length <= u64::MAX,
    ensures
        crate::error::outcome(r) == (match response_fault(
            range,
            status_code@,
            header_map::header_values(*response_header),
        ) {
            None => Ok(()),
            Some(message) => Err(
                Failure::Backend(
                    message,
                    Some(status_code@),
                    Some(header_map::header_values(*response_header)),
                ),
            ),
        }),
{
    let range = match range {
        Some(range) => range,
        None => {
            return Ok(());
        },
    };
    if !status_code.is_success() {
        return Ok(());
    }
    let fault: Option<String> = if status_code.as_u16() != PARTIAL_CONTENT {
        if range.start == 0 {
            None
        } else {
            let status = status_text(status_code.as_u16());
            Some(unexpected_status_message(range, status.as_str()))
        }
    } else {
        proof {
            lemma_content_range_header_name();
        }
        let content_range = match header_map::get(response_header, CONTENT_RANGE_HEADER) {
            Some(content_range) => match content_range.to_str() {
                Ok(content_range) => Some(content_range),
                Err(_) => None,
            },
            None => None,
        };
        check_content_range(range, content_range)
    };
    match fault {
        None => Ok(()),
        Some(message) => Err(
            Error::BackendError(
                Box::new(
                    BackendError {
                        message,
                        status_code: Some(status_code),
                        header: Some(header_map::clone_map(response_header)),
                    },
                ),
            ),
        ),
    }
}

} // verus!
