//! What holds of the library as a whole.

use reqwest::header::{HeaderMap, HeaderValue};
use vstd::prelude::*;

use crate::compact::CompactRange;
use crate::error::{Error, Failure};
use crate::range::Range;
use crate::text;

verus! {

/// Whether the range `range` holds the byte at `position`.
pub open spec fn holds(range: Range, position: int) -> bool {
    range.start <= position < range.start + range.length
}

/// A Range header that lists ranges asks for the bytes that the object has of the first
/// of them, and is rejected if the object does not have all of them.
pub proof fn law_range_list(
    value: Seq<char>,
    ranges: Seq<(bool, u64, Option<u64>)>,
    gaps: Seq<Seq<char>>,
    size: u64,
)
    requires
        crate::range::asks_for(value, ranges, gaps),
    ensures
        crate::range::requested_range(value, size) == crate::range::resolved_range(ranges, size),
        crate::range::requested_range(value, size) is Ok <==> crate::range::satisfiable(
            ranges,
            size,
        ),
{
    crate::range::law_ranges_of_header(value, ranges, gaps);
}

/// A Range header that asks for one range is read as this range.
pub proof fn lemma_one_range(range: (bool, u64, Option<u64>), size: u64)
    requires
        crate::range::is_writable(range),
    ensures
        crate::range::requested_range(crate::range::header_text(range), size)
            == crate::range::resolved_range(seq![range], size),
{
    let ranges = seq![range];
    let gaps = seq![Seq::<char>::empty()];
    assert(ranges[0] == range && gaps[0] == Seq::<char>::empty());
    assert(crate::range::list_text(ranges, gaps) =~= crate::range::range_text(range));
    law_range_list(crate::range::header_text(range), ranges, gaps, size);
}

/// An absolute range is resolved to the bytes that the object has of it: its end is
/// clamped to the end of the object, and it is rejected if it starts beyond that end or
/// beyond its own.
pub proof fn law_absolute_range(first: u64, last: u64, size: u64)
    requires
        size > 0,
    ensures
        crate::range::requested_range(
            crate::range::header_text((false, first, Some(last))),
            size,
        ) == (if first > last || first >= size {
            Err(Failure::Parse)
        } else if last >= size {
            Ok(Range { start: first, length: (size - first) as u64 })
        } else {
            Ok(Range { start: first, length: (last - first + 1) as u64 })
        }),
{
    let range = (false, first, Some(last));
    assert(seq![range][0] == range);
    lemma_one_range(range, size);
}

/// A range that is open at its end takes all bytes from its start on.
pub proof fn law_open_range(first: u64, size: u64)
    requires
        size > 0,
    ensures
        crate::range::requested_range(
            crate::range::header_text((false, first, None::<u64>)),
            size,
        ) == (if first >= size {
            Err(Failure::Parse)
        } else {
            Ok(Range { start: first, length: (size - first) as u64 })
        }),
{
    let range = (false, first, None::<u64>);
    assert(seq![range][0] == range);
    lemma_one_range(range, size);
}

/// A suffix range is resolved against the size of the object, and rejected if it is
/// longer than the object.
pub proof fn law_suffix_range(count: u64, size: u64)
    requires
        count > 0,
    ensures
        crate::range::requested_range(
            crate::range::header_text((true, count, None::<u64>)),
            size,
        ) == (if count > size {
            Err(Failure::Parse)
        } else {
            Ok(Range { start: (size - count) as u64, length: count })
        }),
{
    let range = (true, count, None::<u64>);
    assert(seq![range][0] == range);
    lemma_one_range(range, size);
}

proof fn lemma_range_text_bounds(first: u64, last: u64)
    ensures
        crate::range::exact_bounds(crate::range::header_text((false, first, Some(last))))
            == Some((first, last)),
{
    reveal_strlit("bytes=");
    reveal_strlit("bytes");
    reveal_strlit("-");
    let a = text::decimal_of(first as nat);
    let b = text::decimal_of(last as nat);
    let spec = a.push('-') + b;
    let value = crate::range::header_text((false, first, Some(last)));
    text::lemma_decimal_digits(first as nat);
    text::lemma_decimal_digits(last as nat);
    text::law_parse_decimal(first);
    text::law_parse_decimal(last);
    assert(value =~= "bytes"@.push('=') + spec);
    text::lemma_split_once("bytes"@, '=', spec);
    text::lemma_trimmed("bytes"@);
    assert(text::is_digit(a[0]) && text::is_digit(b[b.len() - 1]));
    assert(spec[0] == a[0] && spec.last() == b.last());
    text::lemma_trimmed(spec);
    assert forall|i: int| 0 <= i < a.len() implies a[i] != '-' by {
        assert(text::is_digit(a[i]));
    }
    text::lemma_split_once(a, '-', b);
}

/// A Range header in the absolute form is an exact match of the range that it names,
/// whatever the size of the object.
pub proof fn law_exact_range_written(range: Range)
    requires
        range.length > 0,
        range.start + (range.length - 1) <= u64::MAX,
    ensures
        crate::range::asks_exactly(
            crate::range::header_text(
                (false, range.start, Some((range.start + range.length - 1) as u64)),
            ),
            range.start,
            range.length,
        ),
{
    lemma_range_text_bounds(range.start, (range.start + range.length - 1) as u64);
}

/// A Range header in the absolute form is resolved to the range that it names, if the
/// object has that range.
pub proof fn law_written_range_resolved(range: Range, size: u64)
    requires
        range.length > 0,
        range.start + range.length <= size,
    ensures
        crate::range::requested_range(
            crate::range::header_text(
                (false, range.start, Some((range.start + range.length - 1) as u64)),
            ),
            size,
        ) == Ok::<Range, Failure>(range),
{
    law_absolute_range(range.start, (range.start + range.length - 1) as u64, size);
}

/// A Range header that lists several ranges has a comma.
proof fn lemma_list_has_comma(
    value: Seq<char>,
    ranges: Seq<(bool, u64, Option<u64>)>,
    gaps: Seq<Seq<char>>,
)
    requires
        crate::range::asks_for(value, ranges, gaps),
        ranges.len() > 1,
    ensures
        value.contains(','),
{
    reveal_strlit(",");
    let head = crate::range::list_text(ranges.drop_last(), gaps.drop_last());
    assert(value["bytes="@.len() as int + head.len()] == ',');
}

/// A Range header that is an exact match of a range, and is not rejected, is resolved to
/// the bytes that the object has of that range, however the header is written.
pub proof fn law_exact_range_resolved(value: Seq<char>, range: Range, size: u64)
    requires
        size > 0,
        crate::range::asks_exactly(value, range.start, range.length),
        crate::range::requested_range(value, size) is Ok,
    ensures
        crate::range::requested_range(value, size) == Ok::<Range, Failure>(
            Range {
                start: range.start,
                length: if range.start + range.length <= size {
                    range.length
                } else {
                    (size - range.start) as u64
                },
            },
        ),
        range.start < size,
{
    let (ranges, gaps) = choose|
        ranges: Seq<(bool, u64, Option<u64>)>,
        gaps: Seq<Seq<char>>,
    |
        crate::range::asks_for(value, ranges, gaps);
    assert(crate::range::asks_for(value, ranges, gaps));
    if ranges.len() > 1 {
        lemma_list_has_comma(value, ranges, gaps);
        law_range_list_not_exact(value, range);
    }
    let written = ranges[0];
    assert(gaps[0] + crate::range::range_text(written) =~= crate::range::range_text(written));
    assert(value == crate::range::header_text(written));
    law_relative_range_not_exact(written.1, range);
    assert(!written.0 && written.2 is Some);
    lemma_range_text_bounds(written.1, written.2->0);
    law_absolute_range(written.1, written.2->0, size);
}

/// A Range header is an exact match of one range at most.
pub proof fn law_exact_range_unique(value: Seq<char>, a: Range, b: Range)
    requires
        crate::range::asks_exactly(value, a.start, a.length),
        crate::range::asks_exactly(value, b.start, b.length),
    ensures
        a == b,
{
}

/// A suffix range and a range that is open at its end are no exact match of any range.
pub proof fn law_relative_range_not_exact(n: u64, range: Range)
    ensures
        !crate::range::asks_exactly(
            crate::range::header_text((true, n, None::<u64>)),
            range.start,
            range.length,
        ),
        !crate::range::asks_exactly(
            crate::range::header_text((false, n, None::<u64>)),
            range.start,
            range.length,
        ),
{
    reveal_strlit("bytes=");
    reveal_strlit("bytes");
    reveal_strlit("-");
    let d = text::decimal_of(n as nat);
    let empty = Seq::<char>::empty();
    text::lemma_decimal_digits(n as nat);
    assert(text::is_digit(d[0]) && text::is_digit(d[d.len() - 1]));
    text::lemma_trimmed("bytes"@);

    let suffix = empty.push('-') + d;
    assert(crate::range::header_text((true, n, None::<u64>)) =~= "bytes"@.push('=') + suffix);
    text::lemma_split_once("bytes"@, '=', suffix);
    assert(suffix[0] == '-' && suffix.last() == d.last());
    text::lemma_trimmed(suffix);
    text::lemma_split_once(empty, '-', d);
    assert(text::parse_u64_of(empty) is None);

    let open = d.push('-') + empty;
    assert(crate::range::header_text((false, n, None::<u64>)) =~= "bytes"@.push('=') + open);
    text::lemma_split_once("bytes"@, '=', open);
    assert(open[0] == d[0] && open.last() == '-');
    text::lemma_trimmed(open);
    assert forall|i: int| 0 <= i < d.len() implies d[i] != '-' by {
        assert(text::is_digit(d[i]));
    }
    text::lemma_split_once(d, '-', empty);
}

proof fn lemma_number_has_no_comma(s: Seq<char>)
    requires
        text::parse_u64_of(s) is Some,
    ensures
        !s.contains(','),
{
    let digits = if s.len() > 0 && s[0] == '+' {
        s.drop_first()
    } else {
        s
    };
    assert forall|i: int| 0 <= i < s.len() implies s[i] != ',' by {
        if digits.len() == s.len() {
            assert(text::is_digit(digits[i]));
        } else if i > 0 {
            assert(text::is_digit(digits[i - 1]));
            assert(digits[i - 1] == s[i]);
        }
    }
}

/// A Range header that lists several ranges is no exact match of any range.
pub proof fn law_range_list_not_exact(value: Seq<char>, range: Range)
    requires
        value.contains(','),
    ensures
        !crate::range::asks_exactly(value, range.start, range.length),
{
    if crate::range::exact_bounds(value) is Some {
        reveal_strlit("bytes");
        text::lemma_split_once_parts(value, '=');
        let (unit, spec) = text::split_once_of(value, '=')->0;
        let t = text::trim_of(spec);
        text::lemma_split_once_parts(t, '-');
        let (first, last) = text::split_once_of(t, '-')->0;
        lemma_number_has_no_comma(first);
        lemma_number_has_no_comma(last);
        let j = choose|j: int| 0 <= j < value.len() && value[j] == ',';
        if j < unit.len() {
            assert(unit[j] == ',');
            assert(unit.contains(','));
            text::lemma_trim_keeps(unit, ',');
            let u = text::trim_of(unit);
            let k = choose|k: int| 0 <= k < u.len() && u[k] == ',';
            assert(text::lower_of(u)[k] == ',');
            assert(text::lower_of(u).len() == text::lower_of("bytes"@).len());
            assert(text::lower_of("bytes"@)[k] == text::lower("bytes"@[k]));
            assert(false);
        } else if j > unit.len() {
            assert(spec[j - unit.len() - 1] == ',');
            assert(spec.contains(','));
            text::lemma_trim_keeps(spec, ',');
            let k = choose|k: int| 0 <= k < t.len() && t[k] == ',';
            if k < first.len() {
                assert(first[k] == ',');
            } else if k > first.len() {
                assert(last[k - first.len() - 1] == ',');
            }
            assert(false);
        }
    }
}

/// A range that the chunk grid admits, of an object that has it, is exactly one chunk:
/// it starts at a boundary of the grid and goes to the next, or to the end of the object
/// where that comes first.
pub proof fn law_chunk_of_grid(range: Range, total: u64, offset: u64, piece_length: u64)
    requires
        crate::compact::is_chunk(range, total, offset, piece_length),
        range.start + range.length <= total,
    ensures
        ({
            let k = (range.start - offset) / (piece_length as int);
            let next = offset + (k + 1) * piece_length;
            &&& k >= 0
            &&& range.start == offset + k * piece_length
            &&& range.start + range.length == (if next <= total {
                next
            } else {
                total as int
            })
        }),
{
    let p = piece_length as int;
    let d = range.start - offset;
    let k = d / p;
    vstd::arithmetic::div_mod::lemma_fundamental_div_mod(d, p);
    vstd::arithmetic::div_mod::lemma_div_pos_is_pos(d, p);
    assert((k + 1) * p == k * p + p) by (nonlinear_arith);
    assert(p * k == k * p) by (nonlinear_arith);
}

/// All clients chunk an object identically: of two ranges that one grid admits, of an
/// object that has them, either both are the same or they have no byte in common.
pub proof fn law_chunks_identical_or_disjoint(
    a: Range,
    b: Range,
    total: u64,
    offset: u64,
    piece_length: u64,
    position: int,
)
    requires
        crate::compact::is_chunk(a, total, offset, piece_length),
        crate::compact::is_chunk(b, total, offset, piece_length),
        a.start + a.length <= total,
        b.start + b.length <= total,
        holds(a, position),
        holds(b, position),
    ensures
        a == b,
{
    law_chunk_of_grid(a, total, offset, piece_length);
    law_chunk_of_grid(b, total, offset, piece_length);
    let p = piece_length as int;
    let i = (a.start - offset) / p;
    let j = (b.start - offset) / p;
    assert(i * p <= position - offset < (i + 1) * p);
    assert(j * p <= position - offset < (j + 1) * p);
    assert(i == j) by (nonlinear_arith)
        requires
            p > 0,
            i * p <= position - offset < (i + 1) * p,
            j * p <= position - offset < (j + 1) * p,
    ;
}

/// Every byte of the object from the offset on lies in a chunk that the grid admits.
pub proof fn law_chunks_cover(position: u64, total: u64, offset: u64, piece_length: u64) -> (range:
    Range)
    requires
        piece_length > 0,
        offset <= position < total,
    ensures
        crate::compact::is_chunk(range, total, offset, piece_length),
        range.start + range.length <= total,
        holds(range, position as int),
{
    let p = piece_length as int;
    let d = position - offset;
    let k = d / p;
    vstd::arithmetic::div_mod::lemma_fundamental_div_mod(d, p);
    vstd::arithmetic::div_mod::lemma_div_pos_is_pos(d, p);
    vstd::arithmetic::div_mod::lemma_mod_bound(d, p);
    assert(p * k >= 0) by (nonlinear_arith)
        requires
            p > 0,
            k >= 0,
    ;
    let start = offset + p * k;
    vstd::arithmetic::div_mod::lemma_mod_multiples_basic(k, p);
    assert(p * k == k * p) by (nonlinear_arith);
    let length = if start + p <= total {
        p
    } else {
        total - start
    };
    Range { start: start as u64, length: length as u64 }
}

/// Two requests for chunks of one object, with one declared content length, piece offset
/// and piece length, come to the same compact range task or to tasks without a byte in
/// common.
pub proof fn law_compact_ranges_shared(
    content_length: Option<Seq<char>>,
    ranges: (Option<Seq<char>>, Option<Seq<char>>),
    piece_offset: Seq<char>,
    piece_length: Option<u64>,
    a: CompactRange,
    b: CompactRange,
    position: int,
)
    requires
        crate::compact::compact_outcome(content_length, ranges.0, Some(piece_offset), piece_length)
            == Ok::<Option<CompactRange>, Failure>(Some(a)),
        crate::compact::compact_outcome(content_length, ranges.1, Some(piece_offset), piece_length)
            == Ok::<Option<CompactRange>, Failure>(Some(b)),
        holds(a.range, position),
        holds(b.range, position),
    ensures
        a == b,
{
    let total = crate::compact::declared_by(content_length)->0;
    crate::range::law_requested_range_within(ranges.0->0, total);
    crate::range::law_requested_range_within(ranges.1->0, total);
    let offset = crate::compact::declared_number(piece_offset)->0;
    if total > 0 {
        law_chunks_identical_or_disjoint(
            a.range,
            b.range,
            total,
            offset,
            piece_length->0,
            position,
        );
    } else {
        lemma_empty_object_range(ranges.0->0);
        lemma_empty_object_range(ranges.1->0);
    }
}

/// In an object without bytes a request that is not rejected comes to its first byte.
proof fn lemma_empty_object_range(value: Seq<char>)
    ensures
        crate::range::requested_range(value, 0) matches Ok(range) ==> range == (Range {
            start: 0,
            length: 1,
        }),
{
    if let Some(ranges) = crate::range::ranges_of_header(value) {
        if crate::range::satisfiable(ranges, 0) && ranges.len() > 0 {
            assert(0 <= crate::range::first_byte(ranges[0], 0) <= crate::range::last_byte(
                ranges[0],
                0,
            ));
        }
    }
}

/// Whether at most one key of `fields` is `name` without regard to case.
pub open spec fn one_of_name(fields: Map<Seq<char>, Seq<char>>, name: Seq<char>) -> bool {
    forall|a: Seq<char>, b: Seq<char>| #[trigger]
        fields.contains_key(a) && #[trigger] fields.contains_key(b) && text::same_ignoring_case(
            a,
            name,
        ) && text::same_ignoring_case(b, name) ==> a == b
}

/// A lookup in fields of which at most one has the name gives one value only.
pub proof fn law_lookup_determined(
    fields: Map<Seq<char>, Seq<char>>,
    name: Seq<char>,
    a: Option<Seq<char>>,
    b: Option<Seq<char>>,
)
    requires
        one_of_name(fields, name),
        crate::fields::may_find(fields, name, a),
        crate::fields::may_find(fields, name, b),
    ensures
        a == b,
{
}

/// A lookup does not depend on the case in which the name is written.
pub proof fn law_lookup_ignores_case(
    fields: Map<Seq<char>, Seq<char>>,
    name: Seq<char>,
    other: Seq<char>,
    value: Option<Seq<char>>,
)
    requires
        text::same_ignoring_case(name, other),
    ensures
        crate::fields::may_find(fields, name, value) == crate::fields::may_find(
            fields,
            other,
            value,
        ),
{
}

/// A request whose header holds each of the names at most once comes to one thing only.
pub proof fn law_compact_range_determined(
    fields: Map<Seq<char>, Seq<char>>,
    piece_length: Option<u64>,
    a: Result<Option<CompactRange>, Failure>,
    b: Result<Option<CompactRange>, Failure>,
)
    requires
        one_of_name(fields, crate::compact::DRAGONFLY_CONTENT_LENGTH_HEADER@),
        one_of_name(fields, crate::range::RANGE_HEADER@),
        one_of_name(fields, crate::compact::DRAGONFLY_PIECE_OFFSET_HEADER@),
        crate::compact::may_come_to(fields, piece_length, a),
        crate::compact::may_come_to(fields, piece_length, b),
    ensures
        a == b,
{
}

/// Without a declared content length, or without a Range header, there is no compact
/// range task. A content length that is no number declares none.
pub proof fn law_no_compact_range(
    fields: Map<Seq<char>, Seq<char>>,
    piece_length: Option<u64>,
    outcome: Result<Option<CompactRange>, Failure>,
)
    requires
        crate::compact::may_come_to(fields, piece_length, outcome),
        (forall|key: Seq<char>| #[trigger]
            fields.contains_key(key) && text::same_ignoring_case(
                key,
                crate::compact::DRAGONFLY_CONTENT_LENGTH_HEADER@,
            ) ==> crate::compact::declared_number(fields[key]) is None) || (forall|
            key: Seq<char>,
        | #[trigger]
            fields.contains_key(key) ==> !text::same_ignoring_case(
                key,
                crate::range::RANGE_HEADER@,
            )),
    ensures
        outcome == Ok::<Option<CompactRange>, Failure>(None),
{
}

/// A compact range task holds the declared content length and a range of at least one
/// byte, which does not reach beyond that length unless the length is zero. If the
/// header holds a piece offset, there is a declared piece length, and the range is a
/// chunk of the grid that the two declare.
pub proof fn law_compact_range_admitted(
    fields: Map<Seq<char>, Seq<char>>,
    piece_length: Option<u64>,
    compact: CompactRange,
)
    requires
        crate::compact::may_come_to(fields, piece_length, Ok(Some(compact))),
    ensures
        exists|key: Seq<char>| #[trigger]
            fields.contains_key(key) && text::same_ignoring_case(
                key,
                crate::compact::DRAGONFLY_CONTENT_LENGTH_HEADER@,
            ) && crate::compact::declared_number(fields[key]) == Some(
                compact.total_content_length,
            ),
        compact.range.length >= 1,
        compact.total_content_length > 0 ==> compact.range.start + compact.range.length
            <= compact.total_content_length,
        (exists|key: Seq<char>| #[trigger]
            fields.contains_key(key) && text::same_ignoring_case(
                key,
                crate::compact::DRAGONFLY_PIECE_OFFSET_HEADER@,
            )) ==> piece_length is Some && exists|key: Seq<char>| #[trigger]
            fields.contains_key(key) && text::same_ignoring_case(
                key,
                crate::compact::DRAGONFLY_PIECE_OFFSET_HEADER@,
            ) && crate::compact::declared_number(fields[key]) is Some && crate::compact::is_chunk(
                compact.range,
                compact.total_content_length,
                crate::compact::declared_number(fields[key])->0,
                piece_length->0,
            ),
{
    let outcome = Ok::<Option<CompactRange>, Failure>(Some(compact));
    let (content_length, range, piece_offset) = choose|
        content_length: Option<Seq<char>>,
        range: Option<Seq<char>>,
        piece_offset: Option<Seq<char>>,
    |
        #![trigger crate::compact::compact_outcome(content_length, range, piece_offset, piece_length)]
        {
            &&& crate::fields::may_find(
                fields,
                crate::compact::DRAGONFLY_CONTENT_LENGTH_HEADER@,
                content_length,
            )
            &&& crate::fields::may_find(fields, crate::range::RANGE_HEADER@, range)
            &&& crate::fields::may_find(
                fields,
                crate::compact::DRAGONFLY_PIECE_OFFSET_HEADER@,
                piece_offset,
            )
            &&& outcome == crate::compact::compact_outcome(
                content_length,
                range,
                piece_offset,
                piece_length,
            )
        };
    crate::range::law_requested_range_within(range->0, compact.total_content_length);
}

/// What a ranged response is accepted for. One without success is not looked at. One of
/// partial content is accepted if its Content-Range names exactly the requested bytes,
/// and any other if the request starts at the first byte.
pub proof fn law_response_accepted(
    range: Range,
    status: u16,
    headers: Map<Seq<char>, Seq<Seq<u8>>>,
)
    ensures
        crate::response::response_fault(Some(range), status, headers) is None <==> {
            ||| !crate::status::is_success_code(status)
            ||| status != crate::response::PARTIAL_CONTENT && range.start == 0
            ||| status == crate::response::PARTIAL_CONTENT && match crate::response::content_range_text(
                headers,
            ) {
                Some(value) => match crate::response::content_range_bounds(value) {
                    Some((start, end)) => start == range.start && end == range.start + range.length
                        - 1,
                    None => false,
                },
                None => false,
            }
        },
{
}

/// The Content-Range that a server writes for the requested bytes is accepted, whatever
/// total it tells.
pub proof fn law_written_content_range_accepted(
    range: Range,
    total: Seq<char>,
    headers: Map<Seq<char>, Seq<Seq<u8>>>,
)
    requires
        range.length > 0,
        range.start + range.length <= u64::MAX,
        crate::response::content_range_text(headers) == Some(
            "bytes "@ + text::decimal_of(range.start as nat) + "-"@ + text::decimal_of(
                (range.start + range.length - 1) as nat,
            ) + "/"@ + total,
        ),
    ensures
        crate::response::response_fault(Some(range), crate::response::PARTIAL_CONTENT, headers)
            is None,
{
    reveal_strlit("bytes ");
    reveal_strlit("-");
    reveal_strlit("/");
    let last = (range.start + range.length - 1) as u64;
    let a = text::decimal_of(range.start as nat);
    let b = text::decimal_of(last as nat);
    let value = crate::response::content_range_text(headers)->0;
    text::lemma_decimal_digits(range.start as nat);
    text::lemma_decimal_digits(last as nat);
    text::law_parse_decimal(range.start);
    text::law_parse_decimal(last);
    let bytes_range = a.push('-') + b;
    let rest = bytes_range.push('/') + total;
    assert(value =~= "bytes "@ + rest);
    assert("bytes "@.is_prefix_of(value));
    assert(value.skip("bytes "@.len() as int) =~= rest);
    assert forall|i: int| 0 <= i < bytes_range.len() implies bytes_range[i] != '/' by {
        if i < a.len() {
            assert(text::is_digit(a[i]));
        } else if i > a.len() {
            assert(text::is_digit(b[i - a.len() - 1]));
        }
    }
    text::lemma_split_once(bytes_range, '/', total);
    assert forall|i: int| 0 <= i < a.len() implies a[i] != '-' by {
        assert(text::is_digit(a[i]));
    }
    text::lemma_split_once(a, '-', b);
}

/// A header line that writes a key and a value is read as these, if they have no white
/// space round them and the key holds no colon.
pub proof fn law_header_line(key: Seq<char>, value: Seq<char>)
    requires
        !key.contains(':'),
        text::trim_of(key) == key,
        text::trim_of(value) == value,
    ensures
        crate::convert::field_of_line(key + ": "@ + value) == Some((key, value)),
{
    reveal_strlit(": ");
    let spaced = seq![' '] + value;
    assert(key + ": "@ + value =~= key.push(':') + spaced);
    text::lemma_split_once(key, ':', spaced);
    assert(spaced.drop_first() =~= value);
}

proof fn lemma_visible_value(bytes: Seq<u8>)
    requires
        crate::header_map::visible_text(bytes) is Some,
    ensures
        crate::header_map::value_of(crate::header_map::visible_text(bytes)->0) == Some(bytes),
{
    let s = crate::header_map::visible_text(bytes)->0;
    assert forall|i: int| 0 <= i < s.len() implies '\0' <= #[trigger] s[i] <= '\u{7f}' by {
        assert(crate::header_map::is_visible(bytes[i]));
    }
    vstd::utf8::is_ascii_chars_encode_utf8(s);
    assert(vstd::utf8::encode_utf8(s) =~= bytes);
    assert forall|i: int| 0 <= i < bytes.len() implies crate::header_map::is_value_byte(
        #[trigger] bytes[i],
    ) by {
        assert(crate::header_map::is_visible(bytes[i]));
    }
}

/// Headers come back unchanged from a hash map: if each name has one value, which is
/// visible text, the fields that are read from the headers are headers again, and a
/// header map that holds them holds the same as before.
pub proof fn law_headers_round_trip(
    headers: Map<Seq<char>, Seq<Seq<u8>>>,
    back: Map<Seq<char>, Seq<Seq<u8>>>,
)
    requires
        forall|name: Seq<char>| #[trigger]
            headers.contains_key(name) ==> crate::header_map::name_of(name) == Some(name)
                && headers[name].len() == 1 && crate::header_map::visible_text(headers[name][0])
                is Some,
        crate::convert::holds_fields(back, crate::convert::visible_fields(headers)),
    ensures
        crate::convert::all_headers(crate::convert::visible_fields(headers)),
        back == headers,
{
    let fields = crate::convert::visible_fields(headers);
    assert forall|name: Seq<char>| #[trigger] headers.contains_key(name) implies {
        &&& fields.contains_key(name)
        &&& crate::header_map::value_of(fields[name]) == Some(headers[name][0])
    } by {
        assert(headers[name].last() == headers[name][0]);
        lemma_visible_value(headers[name][0]);
    }
    assert forall|name: Seq<char>| #[trigger] back.contains_key(name) implies headers.contains_key(
        name,
    ) && back[name] == headers[name] by {
        let key = choose|key: Seq<char>| #[trigger]
            fields.contains_key(key) && crate::header_map::name_of(key) == Some(name)
                && crate::header_map::value_of(fields[key]) is Some && back[name]
                == seq![crate::header_map::value_of(fields[key])->0];
        assert(headers.contains_key(key));
        assert(key == name);
        assert(back[name] =~= headers[name]);
    }
    assert forall|name: Seq<char>| #[trigger] headers.contains_key(name) implies back.contains_key(
        name,
    ) by {
        assert(fields.contains_key(name));
    }
    assert(back =~= headers);
}

/// Whether every value of `fields` is visible text: visible ASCII characters, spaces and
/// tabs.
pub open spec fn visible_values(fields: Map<Seq<char>, Seq<char>>) -> bool {
    forall|key: Seq<char>, i: int|
        #![trigger fields[key][i]]
        fields.contains_key(key) && 0 <= i < fields[key].len() ==> ' ' <= fields[key][i] <= '~'
            || fields[key][i] == '\t'
}

/// Whether no two keys of `fields` are the same without regard to case.
pub open spec fn distinct_names(fields: Map<Seq<char>, Seq<char>>) -> bool {
    forall|k: Seq<char>, l: Seq<char>| #[trigger]
        fields.contains_key(k) && #[trigger] fields.contains_key(l) && text::lower_of(k)
            == text::lower_of(l) ==> k == l
}

/// The text of a header value that is visible text is the text that wrote it.
proof fn lemma_visible_text_back(s: Seq<char>)
    requires
        forall|i: int| 0 <= i < s.len() ==> ' ' <= #[trigger] s[i] <= '~' || s[i] == '\t',
    ensures
        crate::header_map::value_of(s) matches Some(bytes)
            ==> crate::header_map::visible_text(bytes) == Some(s),
{
    assert(vstd::utf8::is_ascii_chars(s));
    vstd::utf8::is_ascii_chars_encode_utf8(s);
    let bytes = vstd::utf8::encode_utf8(s);
    assert forall|i: int| 0 <= i < bytes.len() implies crate::header_map::is_visible(
        #[trigger] bytes[i],
    ) by {
        assert(bytes[i] == s[i] as u8);
    }
    assert(bytes.map_values(|b: u8| b as char) =~= s);
}

/// Fields come back from a header map with their keys in lower case and their values
/// unchanged, if their keys differ without regard to case and their values are visible
/// text.
pub proof fn law_fields_come_back(
    fields: Map<Seq<char>, Seq<char>>,
    headers: Map<Seq<char>, Seq<Seq<u8>>>,
)
    requires
        distinct_names(fields),
        visible_values(fields),
        crate::convert::holds_fields(headers, fields),
    ensures
        ({
            let back = crate::convert::visible_fields(headers);
            &&& forall|key: Seq<char>| #[trigger]
                fields.contains_key(key) ==> back.contains_key(text::lower_of(key))
                    && back[text::lower_of(key)] == fields[key]
            &&& forall|name: Seq<char>| #[trigger]
                back.contains_key(name) ==> exists|key: Seq<char>| #[trigger]
                    fields.contains_key(key) && text::lower_of(key) == name
        }),
{
    let back = crate::convert::visible_fields(headers);
    assert forall|name: Seq<char>| #[trigger] headers.contains_key(name) implies exists|
        key: Seq<char>,
    | #[trigger]
        fields.contains_key(key) && text::lower_of(key) == name && back.contains_key(name)
            && back[name] == fields[key] by {
        let key = choose|key: Seq<char>| #[trigger]
            fields.contains_key(key) && crate::header_map::name_of(key) == Some(name)
                && crate::header_map::value_of(fields[key]) is Some && headers[name]
                == seq![crate::header_map::value_of(fields[key])->0];
        crate::header_map::lemma_name_is_lower(key);
        lemma_visible_text_back(fields[key]);
        assert(headers[name].last() == crate::header_map::value_of(fields[key])->0);
        assert(fields.contains_key(key) && text::lower_of(key) == name);
    }
    assert forall|key: Seq<char>| #[trigger] fields.contains_key(key) implies back.contains_key(
        text::lower_of(key),
    ) && back[text::lower_of(key)] == fields[key] by {
        crate::header_map::lemma_name_is_lower(key);
        assert(headers.contains_key(text::lower_of(key)));
    }
}

/// Fields whose keys are in lower case, and whose values are visible text, come back
/// unchanged from a header map.
pub proof fn law_fields_round_trip(
    fields: Map<Seq<char>, Seq<char>>,
    headers: Map<Seq<char>, Seq<Seq<u8>>>,
)
    requires
        forall|key: Seq<char>| #[trigger] fields.contains_key(key) ==> text::lower_of(key) == key,
        visible_values(fields),
        crate::convert::holds_fields(headers, fields),
    ensures
        crate::convert::visible_fields(headers) == fields,
{
    law_fields_come_back(fields, headers);
    let back = crate::convert::visible_fields(headers);
    assert forall|name: Seq<char>| #[trigger] back.contains_key(name) implies fields.contains_key(
        name,
    ) by {
        let key = choose|key: Seq<char>| #[trigger]
            fields.contains_key(key) && text::lower_of(key) == name;
        assert(key == name);
    }
    assert(back =~= fields);
}

/// Fields whose keys differ without regard to case are held by one header map only.
pub proof fn law_headers_determined(
    fields: Map<Seq<char>, Seq<char>>,
    a: Map<Seq<char>, Seq<Seq<u8>>>,
    b: Map<Seq<char>, Seq<Seq<u8>>>,
)
    requires
        distinct_names(fields),
        crate::convert::holds_fields(a, fields),
        crate::convert::holds_fields(b, fields),
    ensures
        a == b,
{
    assert forall|k: Seq<char>| #[trigger] fields.contains_key(k) implies crate::header_map::name_of(
        k,
    ) == Some(text::lower_of(k)) by {
        crate::header_map::lemma_name_is_lower(k);
    }
    assert forall|name: Seq<char>| #[trigger] a.contains_key(name) == b.contains_key(name) by {
    }
    assert forall|name: Seq<char>| #[trigger] a.contains_key(name) implies a[name] == b[name] by {
        assert(b.contains_key(name));
    }
    assert(a =~= b);
}

/// Fields that a header map has room for are converted if and only if all of them are
/// headers, and otherwise rejected as malformed.
pub proof fn law_conversion_decided(
    fields: Map<Seq<char>, Seq<char>>,
    r: Result<HeaderMap<HeaderValue>, Error>,
)
    requires
        fields.dom().len() <= crate::header_map::MAX_NAMES,
        crate::convert::converts_fields(fields, r),
    ensures
        r is Ok <==> crate::convert::all_headers(fields),
        r matches Err(e) ==> e is ParseError,
{
}

/// Header lines write no more fields than there are lines.
proof fn lemma_fields_of_lines_len(lines: Seq<String>)
    ensures
        crate::convert::fields_of_lines(lines).dom().finite(),
        crate::convert::fields_of_lines(lines).dom().len() <= lines.len(),
    decreases lines.len(),
{
    if lines.len() > 0 {
        lemma_fields_of_lines_len(lines.drop_last());
    }
}

/// Header lines are converted to a header map in one step as in two, by way of a hash map.
/// As long as there is room for the lines, either way fails if and only if the other does.
/// If the keys of the lines differ without regard to case, both ways give the same
/// headers.
pub proof fn law_lines_in_two_steps(
    lines: Seq<String>,
    fields: Map<Seq<char>, Seq<char>>,
    at_once: Result<HeaderMap<HeaderValue>, Error>,
    in_two: Result<HeaderMap<HeaderValue>, Error>,
)
    requires
        lines.len() <= crate::header_map::MAX_NAMES,
        crate::convert::converts_fields(crate::convert::fields_of_lines(lines), at_once),
        fields == crate::convert::fields_of_lines(lines),
        crate::convert::converts_fields(fields, in_two),
    ensures
        at_once is Ok <==> in_two is Ok,
        at_once is Ok && distinct_names(fields) ==> crate::header_map::header_values(at_once->Ok_0)
            == crate::header_map::header_values(in_two->Ok_0),
{
    lemma_fields_of_lines_len(lines);
    law_conversion_decided(fields, at_once);
    law_conversion_decided(fields, in_two);
    if at_once is Ok && distinct_names(fields) {
        law_headers_determined(
            fields,
            crate::header_map::header_values(at_once->Ok_0),
            crate::header_map::header_values(in_two->Ok_0),
        );
    }
}

/// A lookup in the fields read from headers finds the text of the header of that name,
/// if that header occurs once.
proof fn lemma_lookup_in_headers(
    headers: Map<Seq<char>, Seq<Seq<u8>>>,
    name: Seq<char>,
    found: Option<Seq<char>>,
)
    requires
        forall|other: Seq<char>| #[trigger]
            headers.contains_key(other) ==> text::lower_of(other) == other,
        headers.contains_key(text::lower_of(name)) ==> headers[text::lower_of(name)].len() == 1,
        crate::fields::may_find(crate::convert::visible_fields(headers), name, found),
    ensures
        found == (if headers.contains_key(text::lower_of(name)) {
            crate::header_map::visible_text(headers[text::lower_of(name)][0])
        } else {
            None
        }),
{
    let fields = crate::convert::visible_fields(headers);
    let lower = text::lower_of(name);
    text::lemma_same_ignoring_case_lower(name);
    if headers.contains_key(lower) {
        assert(headers[lower].last() == headers[lower][0]);
        assert(headers[lower].drop_last() =~= Seq::empty());
        assert(crate::convert::last_visible(headers[lower].drop_last()) is None);
    }
    if let Some(value) = found {
        let key = choose|key: Seq<char>| #[trigger]
            fields.contains_key(key) && text::same_ignoring_case(key, name) && fields[key]
                == value;
        assert(headers.contains_key(key));
        assert(key == lower);
    } else {
        assert(!fields.contains_key(lower));
    }
}

/// The content length that headers declare is the one that a lookup finds in the fields
/// read from them, if the header that declares it occurs once.
pub proof fn law_content_length_agrees(
    headers: Map<Seq<char>, Seq<Seq<u8>>>,
    found: Option<Seq<char>>,
)
    requires
        forall|name: Seq<char>| #[trigger]
            headers.contains_key(name) ==> text::lower_of(name) == name,
        headers.contains_key(text::lower_of(crate::compact::DRAGONFLY_CONTENT_LENGTH_HEADER@))
            ==> headers[text::lower_of(
            crate::compact::DRAGONFLY_CONTENT_LENGTH_HEADER@,
        )].len() == 1,
        crate::fields::may_find(
            crate::convert::visible_fields(headers),
            crate::compact::DRAGONFLY_CONTENT_LENGTH_HEADER@,
            found,
        ),
    ensures
        crate::compact::declared_by(found) == crate::compact::declared_content_length(headers),
{
    lemma_lookup_in_headers(headers, crate::compact::DRAGONFLY_CONTENT_LENGTH_HEADER@, found);
}

/// The range that headers ask for is the one that the Range header asks for which a
/// lookup finds in the fields read from them, if that header occurs once and is visible
/// text.
pub proof fn law_range_agrees(
    headers: Map<Seq<char>, Seq<Seq<u8>>>,
    found: Option<Seq<char>>,
    size: u64,
)
    requires
        forall|name: Seq<char>| #[trigger]
            headers.contains_key(name) ==> text::lower_of(name) == name,
        headers.contains_key(crate::range::RANGE_HEADER@)
            ==> headers[crate::range::RANGE_HEADER@].len() == 1 && crate::header_map::visible_text(
            headers[crate::range::RANGE_HEADER@][0],
        ) is Some,
        crate::fields::may_find(
            crate::convert::visible_fields(headers),
            crate::range::RANGE_HEADER@,
            found,
        ),
    ensures
        crate::range::range_of_headers(headers, size) == (match found {
            Some(value) => match crate::range::requested_range(value, size) {
                Ok(range) => Ok::<Option<Range>, Failure>(Some(range)),
                Err(failure) => Err(failure),
            },
            None => Ok(None),
        }),
{
    reveal_strlit("range");
    assert(text::lower_of(crate::range::RANGE_HEADER@) =~= crate::range::RANGE_HEADER@);
    lemma_lookup_in_headers(headers, crate::range::RANGE_HEADER@, found);
}

} // verus!
