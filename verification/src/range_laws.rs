//! What holds of byte ranges and of the headers that ask for them.

use vstd::prelude::*;

use crate::error::Failure;
use crate::laws;
use crate::range::Range;
use crate::text;

verus! {

/// A Range header that asks for one range is its unit and the positions in base ten, the
/// first before the dash and the last behind it, or the count of a suffix behind it.
pub proof fn law_header_text(first: u64, last: u64)
    ensures
        crate::range::header_text((false, first, Some(last))) == "bytes="@ + text::decimal_of(
            first as nat,
        ) + "-"@ + text::decimal_of(last as nat),
        crate::range::header_text((false, first, None::<u64>)) == "bytes="@ + text::decimal_of(
            first as nat,
        ) + "-"@,
        crate::range::header_text((true, first, None::<u64>)) == "bytes=-"@ + text::decimal_of(
            first as nat,
        ),
{
    reveal_strlit("bytes=");
    reveal_strlit("bytes=-");
    reveal_strlit("-");
    assert(crate::range::header_text((false, first, Some(last))) =~= "bytes="@ + text::decimal_of(
        first as nat,
    ) + "-"@ + text::decimal_of(last as nat));
    assert(crate::range::header_text((false, first, None::<u64>)) =~= "bytes="@ + text::decimal_of(
        first as nat,
    ) + "-"@);
    assert(crate::range::header_text((true, first, None::<u64>)) =~= "bytes=-"@ + text::decimal_of(
        first as nat,
    ));
}

/// Of several listed ranges the first counts. A Range header that is not rejected asks
/// for the bytes from the first to the last byte of the first range in it, and so for the
/// same bytes as if it listed that range alone.
pub proof fn law_first_range_taken(
    value: Seq<char>,
    ranges: Seq<(bool, u64, Option<u64>)>,
    gaps: Seq<Seq<char>>,
    size: u64,
)
    requires
        crate::range::asks_for(value, ranges, gaps),
        crate::range::requested_range(value, size) is Ok,
    ensures
        crate::range::requested_range(value, size) == crate::range::requested_range(
            crate::range::header_text(ranges[0]),
            size,
        ),
        ({
            let range = crate::range::requested_range(value, size)->Ok_0;
            &&& range.start == crate::range::first_byte(ranges[0], size)
            &&& range.start + range.length - 1 == crate::range::last_byte(ranges[0], size)
        }),
{
    laws::law_range_list(value, ranges, gaps, size);
    laws::lemma_one_range(ranges[0], size);
    let one = seq![ranges[0]];
    assert(one[0] == ranges[0]);
    assert(0 <= crate::range::first_byte(ranges[0], size) <= crate::range::last_byte(
        ranges[0],
        size,
    ));
}

/// A Range header is taken if and only if each range in it would be taken alone, and no
/// byte lies in two of them.
pub proof fn law_list_taken(
    value: Seq<char>,
    ranges: Seq<(bool, u64, Option<u64>)>,
    gaps: Seq<Seq<char>>,
    size: u64,
)
    requires
        crate::range::asks_for(value, ranges, gaps),
    ensures
        crate::range::requested_range(value, size) is Ok <==> {
            &&& forall|i: int|
                #![trigger ranges[i]]
                0 <= i < ranges.len() ==> crate::range::requested_range(
                    crate::range::header_text(ranges[i]),
                    size,
                ) is Ok
            &&& forall|i: int, j: int, position: int|
                #![trigger lies_in(ranges[i], size, position), lies_in(ranges[j], size, position)]
                0 <= i < j < ranges.len() ==> !(lies_in(ranges[i], size, position) && lies_in(
                    ranges[j],
                    size,
                    position,
                ))
        },
        crate::range::requested_range(value, size) is Err ==> crate::range::requested_range(
            value,
            size,
        ) == Err::<Range, Failure>(Failure::Parse),
{
    laws::law_range_list(value, ranges, gaps, size);
    assert forall|i: int|
        #![trigger ranges[i]]
        0 <= i < ranges.len() implies (crate::range::requested_range(
        crate::range::header_text(ranges[i]),
        size,
    ) is Ok <==> 0 <= crate::range::first_byte(ranges[i], size) <= crate::range::last_byte(
        ranges[i],
        size,
    )) by {
        laws::lemma_one_range(ranges[i], size);
        assert(seq![ranges[i]][0] == ranges[i]);
    }
    assert forall|i: int, position: int|
        #![trigger lies_in(ranges[i], size, position)]
        0 <= i < ranges.len() && lies_in(ranges[i], size, position) implies {
        crate::range::first_byte(ranges[i], size) <= position <= crate::range::last_byte(
            ranges[i],
            size,
        )
    } by {
        laws::lemma_one_range(ranges[i], size);
        assert(seq![ranges[i]][0] == ranges[i]);
    }
    if crate::range::requested_range(value, size) is Ok {
        assert forall|i: int, j: int, position: int|
            #![trigger lies_in(ranges[i], size, position), lies_in(ranges[j], size, position)]
            0 <= i < j < ranges.len() implies !(lies_in(ranges[i], size, position) && lies_in(
            ranges[j],
            size,
            position,
        )) by {
            assert(!crate::range::overlap(ranges[i], ranges[j], size));
        }
    } else if (forall|i: int|
        #![trigger ranges[i]]
        0 <= i < ranges.len() ==> crate::range::requested_range(
            crate::range::header_text(ranges[i]),
            size,
        ) is Ok) && (forall|i: int, j: int, position: int|
        #![trigger lies_in(ranges[i], size, position), lies_in(ranges[j], size, position)]
        0 <= i < j < ranges.len() ==> !(lies_in(ranges[i], size, position) && lies_in(
            ranges[j],
            size,
            position,
        ))) {
        let (i, j) = choose|i: int, j: int|
            #![trigger ranges[i], ranges[j]]
            0 <= i < j < ranges.len() && crate::range::overlap(ranges[i], ranges[j], size);
        let a = crate::range::first_byte(ranges[i], size);
        let b = crate::range::first_byte(ranges[j], size);
        let position = if a < b {
            b
        } else {
            a
        };
        laws::lemma_one_range(ranges[i], size);
        laws::lemma_one_range(ranges[j], size);
        assert(seq![ranges[i]][0] == ranges[i]);
        assert(seq![ranges[j]][0] == ranges[j]);
        assert(lies_in(ranges[i], size, position));
        assert(lies_in(ranges[j], size, position));
        assert(false);
    }
}

/// Whether the byte at `position` is among those for which a Range header asks that lists
/// `range` alone.
pub open spec fn lies_in(range: (bool, u64, Option<u64>), size: u64, position: int) -> bool {
    match crate::range::requested_range(crate::range::header_text(range), size) {
        Ok(range) => range.start <= position < range.start + range.length,
        Err(_) => false,
    }
}

/// A Range header that does not ask for ranges is rejected as malformed.
pub proof fn law_malformed_range(value: Seq<char>, size: u64)
    requires
        forall|ranges: Seq<(bool, u64, Option<u64>)>, gaps: Seq<Seq<char>>|
            !#[trigger] crate::range::asks_for(value, ranges, gaps),
    ensures
        crate::range::requested_range(value, size) == Err::<Range, Failure>(Failure::Parse),
{
}

/// In an object without bytes a range that starts at the first byte is resolved to that
/// byte, and any other is rejected.
pub proof fn law_range_of_empty_object(first: u64, last: Option<u64>)
    ensures
        crate::range::requested_range(crate::range::header_text((false, first, last)), 0) == (
        if first == 0 {
            Ok(Range { start: 0, length: 1 })
        } else {
            Err(Failure::Parse)
        }),
{
    let range = (false, first, last);
    assert(seq![range][0] == range);
    laws::lemma_one_range(range, 0);
}

/// Ranges that were parsed are resolved to the bytes from the first to the last byte of
/// the first of them. They are rejected as malformed if the object does not have them,
/// and as empty if there is none.
pub proof fn law_resolved_range(ranges: Seq<(bool, u64, Option<u64>)>, size: u64)
    ensures
        ranges.len() == 0 ==> crate::range::resolved_range(ranges, size) == Err::<Range, Failure>(
            Failure::EmptyRange,
        ),
        !crate::range::satisfiable(ranges, size) ==> crate::range::resolved_range(ranges, size)
            == Err::<Range, Failure>(Failure::Parse),
        ranges.len() > 0 && crate::range::satisfiable(ranges, size)
            ==> crate::range::resolved_range(ranges, size) is Ok,
        crate::range::resolved_range(ranges, size) matches Ok(range) ==> {
            &&& range.start == crate::range::first_byte(ranges[0], size)
            &&& range.start + range.length - 1 == crate::range::last_byte(ranges[0], size)
        },
{
    if ranges.len() > 0 && crate::range::satisfiable(ranges, size) {
        assert(0 <= crate::range::first_byte(ranges[0], size) <= crate::range::last_byte(
            ranges[0],
            size,
        ));
    }
}

/// A request without a Range header asks for no range. One with a Range header asks for
/// what the first of its values asks for, and is rejected as malformed if that value is
/// no visible text.
pub proof fn law_range_of_headers(headers: Map<Seq<char>, Seq<Seq<u8>>>, size: u64)
    ensures
        !headers.contains_key("range"@) ==> crate::range::range_of_headers(headers, size) == Ok::<
            Option<Range>,
            Failure,
        >(None),
        headers.contains_key("range"@) ==> crate::range::range_of_headers(headers, size) == (
        match crate::header_map::visible_text(headers["range"@][0]) {
            Some(value) => match crate::range::requested_range(value, size) {
                Ok(range) => Ok::<Option<Range>, Failure>(Some(range)),
                Err(failure) => Err(failure),
            },
            None => Err(Failure::Parse),
        }),
{
}

/// Whether `value` names the bytes from `first` to `last` in the absolute form: the unit
/// in any case, an equals sign, and two numbers with a dash between them, with white
/// space round the unit and round the numbers or not.
pub open spec fn names_exactly(value: Seq<char>, first: nat, last: nat) -> bool {
    exists|
        spaces: (Seq<char>, Seq<char>, Seq<char>, Seq<char>),
        words: (Seq<char>, Seq<char>, Seq<char>),
    | #[trigger]
        is_exact_text(value, spaces, words, first, last)
}

/// Whether `value` is made of the unit `words.0` and the numbers `words.1` and `words.2`,
/// with `spaces` round the unit and round the numbers.
pub open spec fn is_exact_text(
    value: Seq<char>,
    spaces: (Seq<char>, Seq<char>, Seq<char>, Seq<char>),
    words: (Seq<char>, Seq<char>, Seq<char>),
    first: nat,
    last: nat,
) -> bool {
    &&& text::all_white_space(spaces.0)
    &&& text::all_white_space(spaces.1)
    &&& text::all_white_space(spaces.2)
    &&& text::all_white_space(spaces.3)
    &&& text::same_ignoring_case(words.0, "bytes"@)
    &&& text::writes_number(words.1, first)
    &&& text::writes_number(words.2, last)
    &&& value == spaces.0 + words.0 + spaces.1 + seq!['='] + (spaces.2 + (words.1 + seq!['-']
        + words.2) + spaces.3)
}

/// The unit has no equals sign and no white space.
proof fn lemma_unit_chars(unit: Seq<char>)
    requires
        text::same_ignoring_case(unit, "bytes"@),
    ensures
        unit.len() == 5,
        forall|i: int| 0 <= i < unit.len() ==> #[trigger] unit[i] != '=' && !text::is_white_space(
            unit[i],
        ),
{
    reveal_strlit("bytes");
    text::law_same_ignoring_case(unit, "bytes"@);
    assert forall|i: int| 0 <= i < unit.len() implies #[trigger] unit[i] != '='
        && !text::is_white_space(unit[i]) by {
        let c = "bytes"@[i];
        assert(c == 'b' || c == 'y' || c == 't' || c == 'e' || c == 's');
    }
}

/// A Range header is an exact match of `length` bytes from `start` on, of which there is
/// at least one, if and only if it names the first and the last of them in the absolute
/// form.
pub proof fn law_exact_range(value: Seq<char>, start: u64, length: u64)
    ensures
        crate::range::asks_exactly(value, start, length) <==> {
            &&& length > 0
            &&& start + (length - 1) <= u64::MAX
            &&& names_exactly(value, start as nat, (start + (length - 1)) as nat)
        },
{
    let end = start + (length - 1);
    if crate::range::asks_exactly(value, start, length) {
        text::lemma_split_once_parts(value, '=');
        let (unit, spec) = text::split_once_of(value, '=')->0;
        let (w0, w1) = text::law_trim_parts(unit);
        let (w2, w3) = text::law_trim_parts(spec);
        let body = text::trim_of(spec);
        text::lemma_split_once_parts(body, '-');
        let (first, last) = text::split_once_of(body, '-')->0;
        text::law_parse_number(first, start);
        text::law_parse_number(last, end as u64);
        let spaces = (w0, w1, w2, w3);
        let words = (text::trim_of(unit), first, last);
        assert(body =~= first + seq!['-'] + last);
        assert(value =~= unit + seq!['='] + spec);
        assert(is_exact_text(value, spaces, words, start as nat, end as nat));
    }
    if length > 0 && end <= u64::MAX && names_exactly(value, start as nat, end as nat) {
        let (spaces, words) = choose|
            spaces: (Seq<char>, Seq<char>, Seq<char>, Seq<char>),
            words: (Seq<char>, Seq<char>, Seq<char>),
        | #[trigger]
            is_exact_text(value, spaces, words, start as nat, end as nat);
        lemma_unit_chars(words.0);
        text::lemma_number_chars(words.1, start as nat);
        text::lemma_number_chars(words.2, end as nat);
        let unit = spaces.0 + words.0 + spaces.1;
        let body = words.1 + seq!['-'] + words.2;
        let spec = spaces.2 + body + spaces.3;
        assert forall|i: int| 0 <= i < unit.len() implies unit[i] != '=' by {
            if i < spaces.0.len() {
                assert(unit[i] == spaces.0[i]);
                assert(text::is_white_space(spaces.0[i]));
            } else if i < spaces.0.len() + words.0.len() {
                assert(unit[i] == words.0[i - spaces.0.len()]);
            } else {
                assert(unit[i] == spaces.1[i - spaces.0.len() - words.0.len()]);
                assert(text::is_white_space(spaces.1[i - spaces.0.len() - words.0.len()]));
            }
        }
        assert(value =~= unit.push('=') + spec);
        text::lemma_split_once(unit, '=', spec);
        assert(!text::is_white_space(words.0[0]) && !text::is_white_space(words.0[4]));
        text::law_trim(spaces.0, words.0, spaces.1);
        assert(body[0] == words.1[0]);
        assert(body[body.len() - 1] == words.2[words.2.len() - 1]);
        text::law_trim(spaces.2, body, spaces.3);
        assert forall|i: int| 0 <= i < words.1.len() implies words.1[i] != '-' by {
            assert(text::is_digit(words.1[i]) || words.1[i] == '+');
        }
        assert(body =~= words.1.push('-') + words.2);
        text::lemma_split_once(words.1, '-', words.2);
        text::law_parse_number(words.1, start);
        text::law_parse_number(words.2, end as u64);
    }
}

} // verus!
