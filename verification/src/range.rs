//! Byte ranges and the Range header.

use http_range_header::{ParsedRanges, RangeUnsatisfiableError};
use reqwest::header::{HeaderMap, HeaderValue};
use vstd::prelude::*;

use crate::error::{Error, Failure};
use crate::header_map;
use crate::text;

verus! {

/// A run of bytes of an object.
#[derive(Debug, Clone, Copy, PartialEq, Eq, Structural)]
pub struct Range {
    /// The position of the first byte.
    pub start: u64,
    /// The number of bytes.
    pub length: u64,
}

/// The name of the header with which a client asks for ranges.
pub const RANGE_HEADER: &'static str = "range";

/// `http_range_header::ParsedRanges`: the ranges that a Range header writes, in order.
#[verifier::external_type_specification]
#[verifier::external_body]
pub struct ExParsedRanges(ParsedRanges);

/// `http_range_header::RangeUnsatisfiableError`: why a Range header cannot be served.
#[verifier::external_type_specification]
#[verifier::external_body]
pub struct ExRangeUnsatisfiableError(RangeUnsatisfiableError);

/// The ranges that `ranges` holds, in order. Each starts a number of bytes from the end
/// (`true`) or from the beginning (`false`) of the object. It goes to a last byte, or to
/// the end of the object.
pub uninterp spec fn written_ranges(ranges: ParsedRanges) -> Seq<(bool, u64, Option<u64>)>;

/// Whether a Range header can write the range. One that starts a number of bytes from the
/// end goes to the end, and the number is not zero.
pub open spec fn is_writable(range: (bool, u64, Option<u64>)) -> bool {
    range.0 ==> range.1 > 0 && range.2 is None
}

/// A range as a Range header writes it: "<first>-<last>", "<first>-" or "-<count>".
pub open spec fn range_text(range: (bool, u64, Option<u64>)) -> Seq<char> {
    let number = text::decimal_of(range.1 as nat);
    if range.0 {
        "-"@ + number
    } else {
        match range.2 {
            Some(last) => number + "-"@ + text::decimal_of(last as nat),
            None => number + "-"@,
        }
    }
}

/// Ranges as a Range header lists them, with commas between them. Before each range stands
/// its gap.
pub open spec fn list_text(
    ranges: Seq<(bool, u64, Option<u64>)>,
    gaps: Seq<Seq<char>>,
) -> Seq<char>
    decreases ranges.len(),
{
    if ranges.len() == 0 {
        Seq::empty()
    } else if ranges.len() == 1 {
        gaps[0] + range_text(ranges[0])
    } else {
        list_text(ranges.drop_last(), gaps.drop_last()) + ","@ + (gaps[ranges.len() - 1]
            + range_text(ranges.last()))
    }
}

/// Whether a range in a list may stand behind `gap`: behind nothing or one white space
/// character.
pub open spec fn is_gap(gap: Seq<char>) -> bool {
    gap.len() == 0 || gap.len() == 1 && text::is_white_space(gap[0])
}

/// Whether the Range header `value` asks for `ranges`, of which there is at least one,
/// with `gaps` before them. Before the first of them there is no gap.
pub open spec fn asks_for(
    value: Seq<char>,
    ranges: Seq<(bool, u64, Option<u64>)>,
    gaps: Seq<Seq<char>>,
) -> bool {
    &&& ranges.len() > 0
    &&& gaps.len() == ranges.len()
    &&& gaps[0].len() == 0
    &&& forall|i: int| 0 <= i < ranges.len() ==> is_writable(#[trigger] ranges[i])
    &&& forall|i: int| 0 <= i < gaps.len() ==> is_gap(#[trigger] gaps[i])
    &&& value == "bytes="@ + list_text(ranges, gaps)
}

/// The Range header that asks for one range.
pub open spec fn header_text(range: (bool, u64, Option<u64>)) -> Seq<char> {
    "bytes="@ + range_text(range)
}

/// `http_range_header::parse_range_header` takes a Range header if and only if it asks
/// for ranges, and gives these, in order. The unit is in lower case and stands at the
/// start. The numbers have no sign and no leading zeros, and fit in 64 bits. White space
/// stands nowhere but behind a comma, and there is one character of it at most.
#[verifier::external_body]
fn read_ranges(range_header_value: &str) -> (r: Result<ParsedRanges, RangeUnsatisfiableError>)
    ensures
        match r {
            Ok(ranges) => exists|gaps: Seq<Seq<char>>| #[trigger]
                asks_for(range_header_value@, written_ranges(ranges), gaps),
            Err(_) => forall|ranges: Seq<(bool, u64, Option<u64>)>, gaps: Seq<Seq<char>>|
                !#[trigger] asks_for(range_header_value@, ranges, gaps),
        },
{
    http_range_header::parse_range_header(range_header_value)
}

/// The ranges that a Range header asks for, if it asks for ranges. There are no two ways
/// to read it.
pub open spec fn ranges_of_header(value: Seq<char>) -> Option<Seq<(bool, u64, Option<u64>)>> {
    if exists|ranges: Seq<(bool, u64, Option<u64>)>, gaps: Seq<Seq<char>>|
        asks_for(value, ranges, gaps) {
        let (ranges, _gaps) = choose|
            ranges: Seq<(bool, u64, Option<u64>)>,
            gaps: Seq<Seq<char>>,
        |
            asks_for(value, ranges, gaps);
        Some(ranges)
    } else {
        None
    }
}

/// A written range has no comma and does not start with white space.
proof fn lemma_range_text(range: (bool, u64, Option<u64>))
    ensures
        range_text(range).len() > 0,
        !range_text(range).contains(','),
        !text::is_white_space(range_text(range)[0]),
{
    reveal_strlit("-");
    text::lemma_decimal_digits(range.1 as nat);
    let number = text::decimal_of(range.1 as nat);
    assert(text::is_digit(number[0]));
    if let Some(last) = range.2 {
        text::lemma_decimal_digits(last as nat);
    }
    let written = range_text(range);
    assert forall|i: int| 0 <= i < written.len() implies written[i] != ',' by {
        if range.0 {
            if i > 0 {
                assert(written[i] == number[i - 1]);
                assert(text::is_digit(number[i - 1]));
            }
        } else if i < number.len() {
            assert(written[i] == number[i]);
            assert(text::is_digit(number[i]));
        } else if i > number.len() {
            let last = text::decimal_of(range.2->0 as nat);
            assert(written[i] == last[i - number.len() - 1]);
            assert(text::is_digit(last[i - number.len() - 1]));
        }
    }
}

/// A number has one decimal form.
proof fn lemma_decimal_injective(a: u64, b: u64)
    requires
        text::decimal_of(a as nat) == text::decimal_of(b as nat),
    ensures
        a == b,
{
    text::lemma_decimal_value(a as nat);
    text::lemma_decimal_value(b as nat);
}

/// The parts of a written range before and behind its first dash.
proof fn lemma_range_text_parts(range: (bool, u64, Option<u64>))
    ensures
        text::split_once_of(range_text(range), '-') == Some(
            if range.0 {
                (Seq::empty(), text::decimal_of(range.1 as nat))
            } else {
                (
                    text::decimal_of(range.1 as nat),
                    match range.2 {
                        Some(last) => text::decimal_of(last as nat),
                        None => Seq::empty(),
                    },
                )
            },
        ),
{
    reveal_strlit("-");
    let number = text::decimal_of(range.1 as nat);
    let empty = Seq::<char>::empty();
    text::lemma_decimal_digits(range.1 as nat);
    if range.0 {
        text::lemma_split_once(empty, '-', number);
        assert(range_text(range) =~= empty.push('-') + number);
    } else {
        assert forall|i: int| 0 <= i < number.len() implies number[i] != '-' by {
            assert(text::is_digit(number[i]));
        }
        let last = match range.2 {
            Some(last) => text::decimal_of(last as nat),
            None => empty,
        };
        text::lemma_split_once(number, '-', last);
        assert(range_text(range) =~= number.push('-') + last);
    }
}

/// Two ranges that are written alike are the same.
proof fn lemma_range_text_injective(a: (bool, u64, Option<u64>), b: (bool, u64, Option<u64>))
    requires
        is_writable(a),
        is_writable(b),
        range_text(a) == range_text(b),
    ensures
        a == b,
{
    lemma_range_text_parts(a);
    lemma_range_text_parts(b);
    text::lemma_decimal_digits(a.1 as nat);
    text::lemma_decimal_digits(b.1 as nat);
    assert(a.0 == b.0);
    lemma_decimal_injective(a.1, b.1);
    if let Some(last) = a.2 {
        text::lemma_decimal_digits(last as nat);
    }
    if let Some(last) = b.2 {
        text::lemma_decimal_digits(last as nat);
    }
    assert(a.2 is Some <==> b.2 is Some);
    if a.2 is Some {
        lemma_decimal_injective(a.2->0, b.2->0);
    }
}

/// Two ranges that are written alike with the gaps before them are the same.
proof fn lemma_item_injective(
    a: (bool, u64, Option<u64>),
    gap_a: Seq<char>,
    b: (bool, u64, Option<u64>),
    gap_b: Seq<char>,
)
    requires
        is_writable(a),
        is_writable(b),
        is_gap(gap_a),
        is_gap(gap_b),
        gap_a + range_text(a) == gap_b + range_text(b),
    ensures
        a == b,
{
    lemma_range_text(a);
    lemma_range_text(b);
    let item_a = gap_a + range_text(a);
    let item_b = gap_b + range_text(b);
    if gap_a.len() != gap_b.len() {
        if gap_a.len() == 0 {
            assert(item_a[0] == range_text(a)[0]);
            assert(item_b[0] == gap_b[0]);
        } else {
            assert(item_b[0] == range_text(b)[0]);
            assert(item_a[0] == gap_a[0]);
        }
        assert(false);
    }
    assert(range_text(a) =~= item_a.skip(gap_a.len() as int));
    assert(range_text(b) =~= item_b.skip(gap_b.len() as int));
    lemma_range_text_injective(a, b);
}

/// No comma stands in a range with the gap before it.
proof fn lemma_item_has_no_comma(range: (bool, u64, Option<u64>), gap: Seq<char>)
    requires
        is_gap(gap),
    ensures
        !(gap + range_text(range)).contains(','),
{
    lemma_range_text(range);
    let item = gap + range_text(range);
    assert forall|i: int| 0 <= i < item.len() implies item[i] != ',' by {
        if i >= gap.len() {
            assert(item[i] == range_text(range)[i - gap.len()]);
        }
    }
}

/// Two lists that are written alike are the same.
proof fn lemma_list_injective(
    a: Seq<(bool, u64, Option<u64>)>,
    gaps_a: Seq<Seq<char>>,
    b: Seq<(bool, u64, Option<u64>)>,
    gaps_b: Seq<Seq<char>>,
)
    requires
        0 < a.len() == gaps_a.len(),
        0 < b.len() == gaps_b.len(),
        forall|i: int| 0 <= i < a.len() ==> is_writable(#[trigger] a[i]),
        forall|i: int| 0 <= i < b.len() ==> is_writable(#[trigger] b[i]),
        forall|i: int| 0 <= i < gaps_a.len() ==> is_gap(#[trigger] gaps_a[i]),
        forall|i: int| 0 <= i < gaps_b.len() ==> is_gap(#[trigger] gaps_b[i]),
        list_text(a, gaps_a) == list_text(b, gaps_b),
    ensures
        a == b,
    decreases a.len(),
{
    reveal_strlit(",");
    let item_a = gaps_a[a.len() - 1] + range_text(a.last());
    let item_b = gaps_b[b.len() - 1] + range_text(b.last());
    lemma_item_has_no_comma(a.last(), gaps_a[a.len() - 1]);
    lemma_item_has_no_comma(b.last(), gaps_b[b.len() - 1]);
    let head_a = list_text(a.drop_last(), gaps_a.drop_last());
    let head_b = list_text(b.drop_last(), gaps_b.drop_last());
    if a.len() == 1 && b.len() == 1 {
        lemma_item_injective(a[0], gaps_a[0], b[0], gaps_b[0]);
        assert(a =~= b);
    } else if a.len() == 1 {
        assert(item_a == head_b + ","@ + item_b);
        assert(item_a[head_b.len() as int] == ',');
        assert(false);
    } else if b.len() == 1 {
        assert(item_b == head_a + ","@ + item_a);
        assert(item_b[head_a.len() as int] == ',');
        assert(false);
    } else {
        let whole_a = head_a + ","@ + item_a;
        let whole_b = head_b + ","@ + item_b;
        assert(whole_a == whole_b);
        assert(whole_a[head_a.len() as int] == ',');
        assert(whole_b[head_b.len() as int] == ',');
        if head_a.len() < head_b.len() {
            assert(whole_a[head_b.len() as int] == item_a[head_b.len() - head_a.len() - 1]);
            assert(false);
        }
        if head_b.len() < head_a.len() {
            assert(whole_b[head_a.len() as int] == item_b[head_a.len() - head_b.len() - 1]);
            assert(false);
        }
        assert(head_a =~= whole_a.take(head_a.len() as int));
        assert(head_b =~= whole_b.take(head_b.len() as int));
        assert(item_a =~= whole_a.skip(head_a.len() as int + 1));
        assert(item_b =~= whole_b.skip(head_b.len() as int + 1));
        lemma_item_injective(a.last(), gaps_a[a.len() - 1], b.last(), gaps_b[b.len() - 1]);
        lemma_list_injective(
            a.drop_last(),
            gaps_a.drop_last(),
            b.drop_last(),
            gaps_b.drop_last(),
        );
        assert(a =~= a.drop_last().push(a.last()));
        assert(b =~= b.drop_last().push(b.last()));
    }
}

/// A Range header that asks for ranges is read as these.
pub proof fn law_ranges_of_header(
    value: Seq<char>,
    ranges: Seq<(bool, u64, Option<u64>)>,
    gaps: Seq<Seq<char>>,
)
    requires
        asks_for(value, ranges, gaps),
    ensures
        ranges_of_header(value) == Some(ranges),
{
    let (read, read_gaps) = choose|
        read: Seq<(bool, u64, Option<u64>)>,
        read_gaps: Seq<Seq<char>>,
    |
        asks_for(value, read, read_gaps);
    assert(asks_for(value, read, read_gaps));
    let list = list_text(ranges, gaps);
    let read_list = list_text(read, read_gaps);
    assert(list =~= value.skip("bytes="@.len() as int));
    assert(read_list =~= value.skip("bytes="@.len() as int));
    lemma_list_injective(ranges, gaps, read, read_gaps);
}

/// The position of the first byte of a written range, in an object of `size` bytes.
pub open spec fn first_byte(range: (bool, u64, Option<u64>), size: u64) -> int {
    if range.0 {
        size - range.1
    } else {
        range.1 as int
    }
}

/// The position of the last byte of a written range, in an object of `size` bytes. It
/// does not lie beyond the end of the object. In an object without bytes it is 0.
pub open spec fn last_byte(range: (bool, u64, Option<u64>), size: u64) -> int {
    let end = if size == 0 {
        0
    } else {
        size - 1
    };
    match range.2 {
        Some(last) => if last < end {
            last as int
        } else {
            end
        },
        None => end,
    }
}

/// Whether two written ranges have a byte in common.
pub open spec fn overlap(
    a: (bool, u64, Option<u64>),
    b: (bool, u64, Option<u64>),
    size: u64,
) -> bool {
    first_byte(a, size) <= last_byte(b, size) && first_byte(b, size) <= last_byte(a, size)
}

/// Whether an object of `size` bytes has the written ranges: each starts within the
/// object and before its own end, and no two of them overlap.
pub open spec fn satisfiable(ranges: Seq<(bool, u64, Option<u64>)>, size: u64) -> bool {
    &&& forall|i: int|
        #![trigger ranges[i]]
        0 <= i < ranges.len() ==> 0 <= first_byte(ranges[i], size) <= last_byte(ranges[i], size)
    &&& forall|i: int, j: int|
        #![trigger ranges[i], ranges[j]]
        0 <= i < j < ranges.len() ==> !overlap(ranges[i], ranges[j], size)
}

/// `ParsedRanges::validate` resolves the ranges against the size of the object to the
/// positions of their first and last bytes, and fails where the object does not have
/// them.
#[verifier::external_body]
fn validate(ranges: &ParsedRanges, size: u64) -> (r: Result<
    Vec<(u64, u64)>,
    RangeUnsatisfiableError,
>)
    ensures
        match r {
            Ok(bounds) => {
                &&& satisfiable(written_ranges(*ranges), size)
                &&& bounds@.len() == written_ranges(*ranges).len()
                &&& forall|i: int|
                    #![trigger bounds@[i]]
                    0 <= i < bounds@.len() ==> bounds@[i].0 == first_byte(
                        written_ranges(*ranges)[i],
                        size,
                    ) && bounds@[i].1 == last_byte(written_ranges(*ranges)[i], size)
            },
            Err(_) => !satisfiable(written_ranges(*ranges), size),
        },
{
    let bounds = ranges.validate(size)?;
    Ok(bounds.iter().map(|range| (*range.start(), *range.end())).collect())
}

/// The run of bytes that the first of the written ranges takes in an object of `size`
/// bytes.
pub open spec fn resolved_range(ranges: Seq<(bool, u64, Option<u64>)>, size: u64) -> Result<
    Range,
    Failure,
> {
    if !satisfiable(ranges, size) {
        Err(Failure::Parse)
    } else if ranges.len() == 0 {
        Err(Failure::EmptyRange)
    } else {
        Ok(
            Range {
                start: first_byte(ranges[0], size) as u64,
                length: (last_byte(ranges[0], size) - first_byte(ranges[0], size) + 1) as u64,
            },
        )
    }
}

/// Resolves parsed ranges against the content length. Of several ranges the first is
/// taken.
pub fn resolve_range(ranges: &ParsedRanges, content_length: u64) -> (r: Result<Range, Error>)
    ensures
        crate::error::outcome(r) == resolved_range(written_ranges(*ranges), content_length),
{
    let bounds = match validate(ranges, content_length) {
        Ok(bounds) => bounds,
        Err(_) => {
            return Err(Error::ParseError);
        },
    };

    // Not support multiple ranges.
    if bounds.len() == 0 {
        return Err(Error::EmptyHTTPRangeError);
    }
    let (start, end) = bounds[0];
    assert(written_ranges(*ranges).len() > 0);
    assert(first_byte(written_ranges(*ranges)[0], content_length) <= last_byte(
        written_ranges(*ranges)[0],
        content_length,
    ));
    Ok(Range { start, length: end - start + 1 })
}

/// The run of bytes that a Range header asks for in an object of `size` bytes.
pub open spec fn requested_range(value: Seq<char>, size: u64) -> Result<Range, Failure> {
    match ranges_of_header(value) {
        Some(ranges) => resolved_range(ranges, size),
        None => Err(Failure::Parse),
    }
}

/// A Range header in another unit than bytes, or without a unit, is rejected.
pub proof fn law_unit_required(value: Seq<char>, size: u64)
    requires
        !"bytes="@.is_prefix_of(value),
    ensures
        requested_range(value, size) == Err::<Range, Failure>(Failure::Parse),
{
    assert forall|ranges: Seq<(bool, u64, Option<u64>)>, gaps: Seq<Seq<char>>|
        !asks_for(value, ranges, gaps) by {
        if asks_for(value, ranges, gaps) {
            assert("bytes="@ =~= value.take("bytes="@.len() as int));
        }
    }
}

/// A Range header is rejected as malformed or as out of reach, never as empty: one that
/// is taken asks for at least one range.
pub proof fn law_rejected_range(value: Seq<char>, size: u64)
    ensures
        requested_range(value, size) matches Err(failure) ==> failure is Parse,
{
}

/// A requested range has at least one byte, and its bytes have positions. In an object
/// that has bytes it does not reach beyond them: a range that would is clamped.
pub proof fn law_requested_range_within(value: Seq<char>, size: u64)
    ensures
        requested_range(value, size) matches Ok(range) ==> {
            &&& range.length >= 1
            &&& range.start + range.length <= u64::MAX
            &&& size > 0 ==> range.start + range.length <= size
        },
{
    if let Some(ranges) = ranges_of_header(value) {
        if satisfiable(ranges, size) && ranges.len() > 0 {
            assert(first_byte(ranges[0], size) <= last_byte(ranges[0], size));
        }
    }
}

/// Parses a Range header string as per RFC 7233,
/// supported Range Header: "Range": "bytes=100-200", "Range": "bytes=-50",
/// "Range": "bytes=150-", "Range": "bytes=0-0,-1".
pub fn parse_range_header(range_header_value: &str, content_length: u64) -> (r: Result<
    Range,
    Error,
>)
    ensures
        crate::error::outcome(r) == requested_range(range_header_value@, content_length),
        !"bytes="@.is_prefix_of(range_header_value@) ==> crate::error::outcome(r) == Err::<
            Range,
            Failure,
        >(Failure::Parse),
{
    proof {
        if !"bytes="@.is_prefix_of(range_header_value@) {
            law_unit_required(range_header_value@, content_length);
        }
    }
    match read_ranges(range_header_value) {
        Ok(parsed_ranges) => {
            proof {
                let gaps = choose|gaps: Seq<Seq<char>>| #[trigger]
                    asks_for(range_header_value@, written_ranges(parsed_ranges), gaps);
                law_ranges_of_header(range_header_value@, written_ranges(parsed_ranges), gaps);
            }
            resolve_range(&parsed_ranges, content_length)
        },
        Err(_) => Err(Error::ParseError),
    }
}

/// The first and last byte that a Range header names in the absolute form
/// "bytes=<first>-<last>". The unit may be in any case, and white space may stand round
/// the unit and round the range.
pub open spec fn exact_bounds(value: Seq<char>) -> Option<(u64, u64)> {
    match text::split_once_of(value, '=') {
        Some((unit, spec)) => if text::same_ignoring_case(text::trim_of(unit), "bytes"@) {
            match text::split_once_of(text::trim_of(spec), '-') {
                Some((first, last)) => match (
                    text::parse_u64_of(first),
                    text::parse_u64_of(last),
                ) {
                    (Some(first), Some(last)) => Some((first, last)),
                    _ => None,
                },
                None => None,
            }
        } else {
            None
        },
        None => None,
    }
}

/// Whether a Range header names, in the absolute form, the `length` bytes from `start`
/// on, of which there is at least one.
pub open spec fn asks_exactly(value: Seq<char>, start: u64, length: u64) -> bool {
    match exact_bounds(value) {
        Some((first, last)) => length > 0 && first == start && last == start + length - 1,
        None => false,
    }
}

/// Returns whether a Range header value asks for exactly the bytes
/// [start, start + length), using the absolute single-range form
/// "bytes=<start>-<end>". Other range forms are never an exact match.
pub fn is_exact_range(range_header_value: &str, start: u64, length: u64) -> (r: bool)
    ensures
        r == asks_exactly(range_header_value@, start, length),
{
    if length == 0 {
        return false;
    }
    let (unit, spec) = match text::split_once(range_header_value, '=') {
        Some(parts) => parts,
        None => {
            return false;
        },
    };
    if !text::eq_ignore_ascii_case(text::trim(unit), "bytes") {
        return false;
    }
    let (first, last) = match text::split_once(text::trim(spec), '-') {
        Some(parts) => parts,
        None => {
            return false;
        },
    };
    let end = match start.checked_add(length - 1) {
        Some(end) => end,
        None => {
            return false;
        },
    };
    match (text::parse_u64(first), text::parse_u64(last)) {
        (Some(first), Some(last)) => first == start && last == end,
        _ => false,
    }
}

/// What the Range header among `headers` asks for in an object of `size` bytes. There may
/// be no such header, and its value may be no visible text.
pub open spec fn range_of_headers(headers: Map<Seq<char>, Seq<Seq<u8>>>, size: u64) -> Result<
    Option<Range>,
    Failure,
> {
    if !headers.contains_key(RANGE_HEADER@) {
        Ok(None)
    } else {
        match header_map::visible_text(headers[RANGE_HEADER@][0]) {
            Some(value) => match requested_range(value, size) {
                Ok(range) => Ok(Some(range)),
                Err(failure) => Err(failure),
            },
            None => Err(Failure::Parse),
        }
    }
}

/// Gets the range from http header.
pub fn get_range(header: &HeaderMap<HeaderValue>, content_length: u64) -> (r: Result<
    Option<Range>,
    Error,
>)
    ensures
        crate::error::outcome(r) == range_of_headers(
            header_map::header_values(*header),
            content_length,
        ),
{
    proof {
        lemma_range_header_name();
    }
    match header_map::get(header, RANGE_HEADER) {
        Some(range) => match range.to_str() {
            Ok(range) => match parse_range_header(range, content_length) {
                Ok(range) => Ok(Some(range)),
                Err(e) => Err(e),
            },
            Err(_) => Err(Error::ParseError),
        },
        None => Ok(None),
    }
}

/// The name of the Range header is a header name, in lower case.
pub proof fn lemma_range_header_name()
    ensures
        header_map::name_of(RANGE_HEADER@) == Some(RANGE_HEADER@),
{
    reveal_strlit("range");
    header_map::lemma_name_of(RANGE_HEADER@);
    assert(text::lower_of(RANGE_HEADER@) =~= RANGE_HEADER@);
}

} // verus!
