//! What holds of responses to ranged requests.

use vstd::prelude::*;

use crate::error::{BackendError, Error, Failure};
use crate::range::Range;
use crate::text;

verus! {

/// Without a requested range every response is accepted, whatever its status and its
/// headers.
pub proof fn law_unranged_response(status: u16, headers: Map<Seq<char>, Seq<Seq<u8>>>)
    ensures
        crate::response::response_fault(None, status, headers) is None,
{
}

/// A response without success is accepted, whatever was requested: its status is not from
/// 200 to 299.
pub proof fn law_unsuccessful_response(
    range: Option<Range>,
    status: u16,
    headers: Map<Seq<char>, Seq<Seq<u8>>>,
)
    requires
        status < 200 || status > 299,
    ensures
        crate::response::response_fault(range, status, headers) is None,
{
}

/// A response with success whose status is not 206 is accepted if and only if the request
/// starts at the first byte. Its headers are not looked at.
pub proof fn law_whole_response(
    range: Range,
    status: u16,
    headers: Map<Seq<char>, Seq<Seq<u8>>>,
)
    requires
        200 <= status <= 299,
        status != 206,
    ensures
        range.start == 0 ==> crate::response::response_fault(Some(range), status, headers) is None,
        range.start > 0 ==> crate::response::response_fault(Some(range), status, headers) == Some(
            "expected 206 Partial Content for range "@ + range_named(range) + ", got "@
                + text::decimal_of(status as nat) + " "@ + crate::status::reason_of(status),
        ),
{
    if range.start > 0 {
        assert("expected 206 Partial Content for range "@ + range_named(range) + ", got "@ + (
        text::decimal_of(status as nat) + " "@ + crate::status::reason_of(status))
            =~= "expected 206 Partial Content for range "@ + range_named(range) + ", got "@
            + text::decimal_of(status as nat) + " "@ + crate::status::reason_of(status));
    }
}

/// A requested range as messages name it: the unit and the positions of its first and
/// last byte in base ten.
pub open spec fn range_named(range: Range) -> Seq<char> {
    "bytes="@ + text::decimal_of(range.start as nat) + "-"@ + text::decimal_of(
        (range.start + range.length - 1) as nat,
    )
}

/// Whether a Content-Range names the bytes from `first` to `last`: the unit, a space, two
/// numbers with a dash between them, a slash, and whatever follows.
pub open spec fn names_bytes(value: Seq<char>, first: nat, last: nat) -> bool {
    exists|a: Seq<char>, b: Seq<char>, total: Seq<char>| #[trigger]
        is_content_range(value, a, b, total, first, last)
}

/// Whether `value` is the Content-Range with the numbers `a` and `b`, which write `first`
/// and `last`, and with `total` behind the slash.
pub open spec fn is_content_range(
    value: Seq<char>,
    a: Seq<char>,
    b: Seq<char>,
    total: Seq<char>,
    first: nat,
    last: nat,
) -> bool {
    &&& text::writes_number(a, first)
    &&& text::writes_number(b, last)
    &&& value == "bytes "@ + ((a + seq!['-'] + b) + seq!['/'] + total)
}

/// A Content-Range is read as the bytes that it names, and as nothing if it names none.
pub proof fn law_content_range(value: Seq<char>, first: u64, last: u64)
    ensures
        crate::response::content_range_bounds(value) == Some((first, last)) <==> names_bytes(
            value,
            first as nat,
            last as nat,
        ),
{
    if crate::response::content_range_bounds(value) == Some((first, last)) {
        let rest = text::strip_prefix_of(value, "bytes "@)->0;
        text::law_strip_prefix(value, "bytes "@, rest);
        text::lemma_split_once_parts(rest, '/');
        let (bytes_range, total) = text::split_once_of(rest, '/')->0;
        text::lemma_split_once_parts(bytes_range, '-');
        let (a, b) = text::split_once_of(bytes_range, '-')->0;
        text::law_parse_number(a, first);
        text::law_parse_number(b, last);
        assert(bytes_range =~= a + seq!['-'] + b);
        assert(rest =~= bytes_range + seq!['/'] + total);
        assert(is_content_range(value, a, b, total, first as nat, last as nat));
    }
    if names_bytes(value, first as nat, last as nat) {
        let (a, b, total) = choose|a: Seq<char>, b: Seq<char>, total: Seq<char>| #[trigger]
            is_content_range(value, a, b, total, first as nat, last as nat);
        text::lemma_number_chars(a, first as nat);
        text::lemma_number_chars(b, last as nat);
        let bytes_range = a + seq!['-'] + b;
        let rest = bytes_range + seq!['/'] + total;
        text::law_strip_prefix(value, "bytes "@, rest);
        assert forall|i: int| 0 <= i < bytes_range.len() implies bytes_range[i] != '/' by {
            if i < a.len() {
                assert(bytes_range[i] == a[i]);
            } else if i > a.len() {
                assert(bytes_range[i] == b[i - a.len() - 1]);
            }
        }
        assert(rest =~= bytes_range.push('/') + total);
        text::lemma_split_once(bytes_range, '/', total);
        assert forall|i: int| 0 <= i < a.len() implies a[i] != '-' by {
            assert(text::is_digit(a[i]) || a[i] == '+');
        }
        assert(bytes_range =~= a.push('-') + b);
        text::lemma_split_once(a, '-', b);
        text::law_parse_number(a, first);
        text::law_parse_number(b, last);
    }
}

/// A response of status 206 is accepted if and only if the first value of its
/// Content-Range header is visible text that names exactly the requested bytes.
pub proof fn law_partial_response(range: Range, headers: Map<Seq<char>, Seq<Seq<u8>>>)
    requires
        1 <= range.start + range.length <= u64::MAX,
    ensures
        crate::response::response_fault(Some(range), 206, headers) is None <==> {
            &&& headers.contains_key("content-range"@)
            &&& match crate::header_map::visible_text(headers["content-range"@][0]) {
                Some(value) => names_bytes(
                    value,
                    range.start as nat,
                    (range.start + range.length - 1) as nat,
                ),
                None => false,
            }
        },
{
    if headers.contains_key("content-range"@) {
        if let Some(value) = crate::header_map::visible_text(headers["content-range"@][0]) {
            law_content_range(value, range.start, (range.start + range.length - 1) as u64);
        }
    }
}

/// What is said of a response of status 206 that is refused: that it has no Content-Range
/// in visible text, that its Content-Range names no bytes, or that it names others than
/// those requested.
pub proof fn law_partial_response_refused(
    range: Range,
    headers: Map<Seq<char>, Seq<Seq<u8>>>,
    first: u64,
    last: u64,
)
    requires
        1 <= range.start + range.length <= u64::MAX,
    ensures
        (!headers.contains_key("content-range"@) || crate::header_map::visible_text(
            headers["content-range"@][0],
        ) is None) ==> crate::response::response_fault(Some(range), 206, headers) == Some(
            "missing Content-Range for range "@ + range_named(range),
        ),
        headers.contains_key("content-range"@) ==> match crate::header_map::visible_text(
            headers["content-range"@][0],
        ) {
            Some(value) => {
                &&& (forall|a: u64, b: u64| !#[trigger] names_bytes(value, a as nat, b as nat))
                    ==> crate::response::response_fault(Some(range), 206, headers) == Some(
                    "invalid Content-Range "@ + value,
                )
                &&& names_bytes(value, first as nat, last as nat) && (first != range.start || last
                    != range.start + range.length - 1) ==> crate::response::response_fault(
                    Some(range),
                    206,
                    headers,
                ) == Some(
                    "Content-Range "@ + value + " mismatches requested range "@ + range_named(
                        range,
                    ),
                )
            },
            None => true,
        },
{
    if headers.contains_key("content-range"@) {
        if let Some(value) = crate::header_map::visible_text(headers["content-range"@][0]) {
            law_content_range(value, first, last);
            if let Some((a, b)) = crate::response::content_range_bounds(value) {
                law_content_range(value, a, b);
                assert(names_bytes(value, a as nat, b as nat));
            }
        }
    }
}

/// A Content-Range that was looked up is judged as the one among the headers of a
/// response of status 206 is.
pub proof fn law_looked_up_content_range(
    range: Range,
    headers: Map<Seq<char>, Seq<Seq<u8>>>,
    content_range: Option<Seq<char>>,
)
    requires
        content_range == (if headers.contains_key("content-range"@) {
            crate::header_map::visible_text(headers["content-range"@][0])
        } else {
            None
        }),
    ensures
        crate::response::content_range_fault(range, content_range)
            == crate::response::response_fault(Some(range), 206, headers),
{
}

/// A status text is put behind what a request expected.
pub proof fn law_unexpected_status(range: Range, status: Seq<char>)
    ensures
        crate::response::unexpected_status(range, status)
            == "expected 206 Partial Content for range "@ + range_named(range) + ", got "@ + status,
{
}

/// A result keeps its value, and an error its kind and what it tells.
pub proof fn law_outcome<T>(value: T, message: String, e: BackendError)
    ensures
        crate::error::outcome(Ok::<T, Error>(value)) == Ok::<T, Failure>(value),
        crate::error::outcome(Err::<T, Error>(Error::ParseError)) == Err::<T, Failure>(
            Failure::Parse,
        ),
        crate::error::outcome(Err::<T, Error>(Error::MaxSizeReached)) == Err::<T, Failure>(
            Failure::MaxSize,
        ),
        crate::error::outcome(Err::<T, Error>(Error::EmptyHTTPRangeError)) == Err::<T, Failure>(
            Failure::EmptyRange,
        ),
        crate::error::outcome(Err::<T, Error>(Error::ValidationError(message))) == Err::<
            T,
            Failure,
        >(Failure::Validation(message@)),
        match crate::error::outcome(Err::<T, Error>(Error::BackendError(Box::new(e)))) {
            Err(Failure::Backend(said, status, headers)) => {
                &&& said == e.message@
                &&& status is Some <==> e.status_code is Some
                &&& status is Some ==> status->0 == e.status_code->0@
                &&& headers is Some <==> e.header is Some
                &&& headers is Some ==> headers->0 == crate::header_map::header_values(e.header->0)
            },
            _ => false,
        },
{
}

} // verus!
