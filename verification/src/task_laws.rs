//! What holds of compact range tasks and of the headers that declare them.

use vstd::prelude::*;

use crate::compact::CompactRange;
use crate::error::Failure;
use crate::laws;
use crate::range::Range;
use crate::text;

verus! {

/// Whether `value` writes the number `n`, with white space round it or not.
pub open spec fn writes_spaced_number(value: Seq<char>, n: nat) -> bool {
    exists|lead: Seq<char>, number: Seq<char>, trail: Seq<char>| #[trigger]
        is_spaced_number(value, lead, number, trail, n)
}

/// Whether `value` is `number`, which writes `n`, with the white space `lead` and `trail`
/// round it.
pub open spec fn is_spaced_number(
    value: Seq<char>,
    lead: Seq<char>,
    number: Seq<char>,
    trail: Seq<char>,
    n: nat,
) -> bool {
    &&& text::all_white_space(lead)
    &&& text::all_white_space(trail)
    &&& text::writes_number(number, n)
    &&& value == lead + number + trail
}

/// A header value declares a number that fits in 64 bits if and only if it writes that
/// number, with white space round it or not.
pub proof fn law_declared_number(value: Seq<char>, n: u64)
    ensures
        crate::compact::declared_number(value) == Some(n) <==> writes_spaced_number(
            value,
            n as nat,
        ),
{
    if crate::compact::declared_number(value) == Some(n) {
        let (lead, trail) = text::law_trim_parts(value);
        text::law_parse_number(text::trim_of(value), n);
        assert(is_spaced_number(value, lead, text::trim_of(value), trail, n as nat));
    }
    if writes_spaced_number(value, n as nat) {
        let (lead, number, trail) = choose|
            lead: Seq<char>,
            number: Seq<char>,
            trail: Seq<char>,
        | #[trigger]
            is_spaced_number(value, lead, number, trail, n as nat);
        text::lemma_number_chars(number, n as nat);
        text::law_trim(lead, number, trail);
        text::law_parse_number(number, n);
    }
}

/// A header value that writes a number in base ten declares that number, whatever white
/// space stands round it.
pub proof fn law_declared_decimal(lead: Seq<char>, n: u64, trail: Seq<char>)
    requires
        text::all_white_space(lead),
        text::all_white_space(trail),
    ensures
        crate::compact::declared_number(lead + text::decimal_of(n as nat) + trail) == Some(n),
        crate::compact::declared_number(text::decimal_of(n as nat)) == Some(n),
{
    let number = text::decimal_of(n as nat);
    let none = Seq::<char>::empty();
    text::lemma_decimal_writes(n as nat);
    assert(is_spaced_number(lead + number + trail, lead, number, trail, n as nat));
    law_declared_number(lead + number + trail, n);
    assert(number =~= none + number + none);
    assert(is_spaced_number(number, none, number, none, n as nat));
    law_declared_number(number, n);
}

/// Headers declare the content length that the first value of the
/// X-Dragonfly-Content-Length header writes. They declare none if there is no such
/// header, or if that value is no visible text or writes no number that fits in 64 bits.
pub proof fn law_declared_content_length(headers: Map<Seq<char>, Seq<Seq<u8>>>, n: u64)
    ensures
        crate::compact::declared_content_length(headers) == Some(n) <==> {
            &&& headers.contains_key("x-dragonfly-content-length"@)
            &&& match crate::header_map::visible_text(headers["x-dragonfly-content-length"@][0]) {
                Some(value) => writes_spaced_number(value, n as nat),
                None => false,
            }
        },
{
    reveal_strlit("X-Dragonfly-Content-Length");
    reveal_strlit("x-dragonfly-content-length");
    assert(text::lower_of(crate::compact::DRAGONFLY_CONTENT_LENGTH_HEADER@)
        =~= "x-dragonfly-content-length"@);
    if headers.contains_key("x-dragonfly-content-length"@) {
        if let Some(value) = crate::header_map::visible_text(
            headers["x-dragonfly-content-length"@][0],
        ) {
            law_declared_number(value, n);
        }
    }
}

/// The position at which the chunk `k` of a grid starts.
pub open spec fn boundary(offset: int, piece_length: int, k: int) -> int {
    offset + k * piece_length
}

/// Whether `range` is one chunk of the grid from `offset` on: it starts at a boundary and
/// has the length of a piece, or goes to the end of the object and is shorter than a
/// piece.
pub open spec fn on_grid(range: Range, total: u64, offset: u64, piece_length: u64) -> bool {
    &&& piece_length > 0
    &&& exists|k: int|
        k >= 0 && range.start == #[trigger] boundary(offset as int, piece_length as int, k)
    &&& range.length <= piece_length
    &&& range.length < piece_length ==> range.start + range.length == total
}

/// The grid admits exactly the ranges that are one chunk of it.
pub proof fn law_chunk(range: Range, total: u64, offset: u64, piece_length: u64)
    ensures
        crate::compact::is_chunk(range, total, offset, piece_length) <==> on_grid(
            range,
            total,
            offset,
            piece_length,
        ),
{
    let p = piece_length as int;
    let d = range.start - offset;
    if crate::compact::is_chunk(range, total, offset, piece_length) {
        let k = d / p;
        vstd::arithmetic::div_mod::lemma_fundamental_div_mod(d, p);
        vstd::arithmetic::div_mod::lemma_div_pos_is_pos(d, p);
        assert(p * k == k * p) by (nonlinear_arith);
        assert(range.start == boundary(offset as int, p, k));
    }
    if on_grid(range, total, offset, piece_length) {
        let k = choose|k: int|
            k >= 0 && range.start == #[trigger] boundary(offset as int, p, k);
        assert(k * p >= 0) by (nonlinear_arith)
            requires
                k >= 0,
                p > 0,
        ;
        vstd::arithmetic::div_mod::lemma_mod_multiples_basic(k, p);
    }
}

/// What is said of a range that is no chunk of the grid: the position of its first byte
/// and the one behind its last, the offset and the piece length, in base ten.
pub open spec fn grid_message(range: Range, offset: u64, piece_length: u64) -> Seq<char> {
    "range ["@ + text::decimal_of(range.start as nat) + ", "@ + text::decimal_of(
        (range.start + range.length) as nat,
    ) + ") is not aligned to the chunk grid with offset "@ + text::decimal_of(offset as nat)
        + " and piece length "@ + text::decimal_of(piece_length as nat)
}

/// A range task keeps the range that was asked for and the declared content length, if it
/// comes to anything.
pub proof fn law_checked_range_kept(
    range: Range,
    total: u64,
    piece_offset: Option<Seq<char>>,
    piece_length: Option<u64>,
)
    ensures
        crate::compact::checked_range(range, total, piece_offset, piece_length) matches Ok(compact)
            ==> compact.range == range && compact.total_content_length == total,
{
}

/// Without a piece offset every range makes a task, whatever the piece length.
pub proof fn law_checked_range_without_offset(range: Range, total: u64, piece_length: Option<u64>)
    ensures
        crate::compact::checked_range(range, total, None, piece_length) == Ok::<
            CompactRange,
            Failure,
        >(CompactRange { range, total_content_length: total }),
{
}

/// A piece offset has to write a number, and needs a piece length. With both, a range
/// makes a task if and only if it is one chunk of the grid. Otherwise it is rejected, with
/// a message that tells why.
pub proof fn law_checked_range_on_grid(
    range: Range,
    total: u64,
    value: Seq<char>,
    offset: u64,
    piece_length: u64,
)
    ensures
        (forall|n: u64| !#[trigger] writes_spaced_number(value, n as nat))
            ==> crate::compact::checked_range(range, total, Some(value), Some(piece_length)) == Err::<
            CompactRange,
            Failure,
        >(Failure::Validation("invalid piece offset "@ + value)) && crate::compact::checked_range(
            range,
            total,
            Some(value),
            None,
        ) == Err::<CompactRange, Failure>(Failure::Validation("invalid piece offset "@ + value)),
        writes_spaced_number(value, offset as nat) ==> crate::compact::checked_range(
            range,
            total,
            Some(value),
            None,
        ) == Err::<CompactRange, Failure>(
            Failure::Validation(
                "the X-Dragonfly-Piece-Offset header requires a declared piece length"@,
            ),
        ),
        writes_spaced_number(value, offset as nat) ==> crate::compact::checked_range(
            range,
            total,
            Some(value),
            Some(piece_length),
        ) == (if on_grid(range, total, offset, piece_length) {
            Ok(CompactRange { range, total_content_length: total })
        } else {
            Err(
                Failure::Validation(grid_message(range, offset, piece_length)),
            )
        }),
{
    law_declared_number(value, offset);
    law_chunk(range, total, offset, piece_length);
    if let Some(n) = crate::compact::declared_number(value) {
        law_declared_number(value, n);
        assert(writes_spaced_number(value, n as nat));
    }
}

/// Whether no field has the name `name`, without regard to case.
pub open spec fn lacks(fields: Map<Seq<char>, Seq<char>>, name: Seq<char>) -> bool {
    forall|key: Seq<char>| #[trigger]
        fields.contains_key(key) ==> !text::same_ignoring_case(key, name)
}

/// Whether `key` is the one field that has the name `name`, without regard to case.
pub open spec fn is_only(
    fields: Map<Seq<char>, Seq<char>>,
    name: Seq<char>,
    key: Seq<char>,
) -> bool {
    &&& fields.contains_key(key)
    &&& text::same_ignoring_case(key, name)
    &&& laws::one_of_name(fields, name)
}

/// A lookup gives the value of the one field of that name, and nothing if there is none.
pub proof fn law_lookup(
    fields: Map<Seq<char>, Seq<char>>,
    name: Seq<char>,
    key: Seq<char>,
    found: Option<Seq<char>>,
)
    ensures
        is_only(fields, name, key) ==> (crate::fields::may_find(fields, name, found) <==> found
            == Some(fields[key])),
        lacks(fields, name) ==> (crate::fields::may_find(fields, name, found) <==> found
            == None::<Seq<char>>),
        crate::fields::may_find(fields, name, found) && found is Some ==> exists|other: Seq<char>|
            #[trigger] fields.contains_key(other) && text::same_ignoring_case(other, name)
                && found == Some(fields[other]),
{
}

/// The range of a compact range task is the one that a Range field asks for in an object
/// of the content length that the task holds, and a content length field declares that
/// length.
pub proof fn law_task_is_requested(
    fields: Map<Seq<char>, Seq<char>>,
    piece_length: Option<u64>,
    compact: CompactRange,
)
    requires
        crate::compact::may_come_to(fields, piece_length, Ok(Some(compact))),
    ensures
        exists|key: Seq<char>| #[trigger]
            fields.contains_key(key) && text::same_ignoring_case(key, "range"@)
                && crate::range::requested_range(fields[key], compact.total_content_length) == Ok::<
                Range,
                Failure,
            >(compact.range),
        exists|key: Seq<char>| #[trigger]
            fields.contains_key(key) && text::same_ignoring_case(
                key,
                "X-Dragonfly-Content-Length"@,
            ) && writes_spaced_number(fields[key], compact.total_content_length as nat),
{
    let outcome = Ok::<Option<CompactRange>, Failure>(Some(compact));
    let (content_length, range, piece_offset) = law_looked_up(fields, piece_length, outcome);
    let total = crate::compact::declared_by(content_length)->0;
    law_declared_number(content_length->0, total);
    let key = choose|key: Seq<char>| #[trigger]
        fields.contains_key(key) && text::same_ignoring_case(key, "range"@) && fields[key]
            == range->0;
    assert(fields.contains_key(key));
    let key = choose|key: Seq<char>| #[trigger]
        fields.contains_key(key) && text::same_ignoring_case(key, "X-Dragonfly-Content-Length"@)
            && fields[key] == content_length->0;
    assert(fields.contains_key(key));
}

/// What a request comes to is what the values come to that lookups of the three names may
/// give.
pub proof fn law_looked_up(
    fields: Map<Seq<char>, Seq<char>>,
    piece_length: Option<u64>,
    outcome: Result<Option<CompactRange>, Failure>,
) -> (found: (Option<Seq<char>>, Option<Seq<char>>, Option<Seq<char>>))
    requires
        crate::compact::may_come_to(fields, piece_length, outcome),
    ensures
        crate::fields::may_find(fields, "X-Dragonfly-Content-Length"@, found.0),
        crate::fields::may_find(fields, "range"@, found.1),
        crate::fields::may_find(fields, "X-Dragonfly-Piece-Offset"@, found.2),
        outcome == crate::compact::compact_outcome(found.0, found.1, found.2, piece_length),
{
    choose|
        content_length: Option<Seq<char>>,
        range: Option<Seq<char>>,
        piece_offset: Option<Seq<char>>,
    |
        #![trigger crate::compact::compact_outcome(content_length, range, piece_offset, piece_length)]
        {
            &&& crate::fields::may_find(
                fields,
                crate::compact::DRAGONFLY_CONTENT_LENGTH_HEADER@,
                content_length,
            )
            &&& crate::fields::may_find(fields, crate::range::RANGE_HEADER@, range)
            &&& crate::fields::may_find(
                fields,
                crate::compact::DRAGONFLY_PIECE_OFFSET_HEADER@,
                piece_offset,
            )
            &&& outcome == crate::compact::compact_outcome(
                content_length,
                range,
                piece_offset,
                piece_length,
            )
        }
}

/// Without a piece offset field the piece length does not change what a request comes to.
pub proof fn law_piece_length_alone(
    fields: Map<Seq<char>, Seq<char>>,
    a: Option<u64>,
    b: Option<u64>,
    outcome: Result<Option<CompactRange>, Failure>,
)
    requires
        lacks(fields, "X-Dragonfly-Piece-Offset"@),
        crate::compact::may_come_to(fields, a, outcome),
    ensures
        crate::compact::may_come_to(fields, b, outcome),
{
    let (content_length, range, piece_offset) = law_looked_up(fields, a, outcome);
    assert(outcome == crate::compact::compact_outcome(content_length, range, piece_offset, b));
}

/// A request makes no task, and is not rejected either, if no content length is declared
/// or if it has no Range field.
pub proof fn law_no_task(
    fields: Map<Seq<char>, Seq<char>>,
    piece_length: Option<u64>,
    outcome: Result<Option<CompactRange>, Failure>,
)
    requires
        crate::compact::may_come_to(fields, piece_length, outcome),
        lacks(fields, "range"@) || forall|key: Seq<char>, n: u64|
            #![trigger writes_spaced_number(fields[key], n as nat)]
            fields.contains_key(key) && text::same_ignoring_case(
                key,
                "X-Dragonfly-Content-Length"@,
            ) ==> !writes_spaced_number(fields[key], n as nat),
    ensures
        outcome == Ok::<Option<CompactRange>, Failure>(None),
{
    let (content_length, range, piece_offset) = law_looked_up(fields, piece_length, outcome);
    if let Some(n) = crate::compact::declared_by(content_length) {
        law_declared_number(content_length->0, n);
        let key = choose|key: Seq<char>| #[trigger]
            fields.contains_key(key) && text::same_ignoring_case(
                key,
                "X-Dragonfly-Content-Length"@,
            ) && fields[key] == content_length->0;
        assert(fields.contains_key(key));
        assert(writes_spaced_number(fields[key], n as nat));
    }
}

/// A request that declares its content length and has a Range field but no piece offset
/// makes a task of the range for which it asks. It is rejected if and only if the Range
/// field is, and for the same reason.
pub proof fn law_task_without_offset(
    fields: Map<Seq<char>, Seq<char>>,
    keys: (Seq<char>, Seq<char>),
    total: u64,
    piece_length: Option<u64>,
    outcome: Result<Option<CompactRange>, Failure>,
)
    requires
        crate::compact::may_come_to(fields, piece_length, outcome),
        is_only(fields, "X-Dragonfly-Content-Length"@, keys.0),
        is_only(fields, "range"@, keys.1),
        lacks(fields, "X-Dragonfly-Piece-Offset"@),
        writes_spaced_number(fields[keys.0], total as nat),
    ensures
        outcome == (match crate::range::requested_range(fields[keys.1], total) {
            Ok(range) => Ok::<Option<CompactRange>, Failure>(
                Some(CompactRange { range, total_content_length: total }),
            ),
            Err(failure) => Err(failure),
        }),
{
    let (content_length, range, piece_offset) = law_looked_up(fields, piece_length, outcome);
    law_lookup(fields, "X-Dragonfly-Content-Length"@, keys.0, content_length);
    law_lookup(fields, "range"@, keys.1, range);
    law_declared_number(fields[keys.0], total);
}

/// A request that declares its content length and has a Range field and a piece offset
/// makes a task of the range for which it asks, if that range is one chunk of the grid
/// that the piece offset and the piece length declare. It is rejected for its Range field
/// before anything else, then for its piece offset, and then for a missing piece length.
pub proof fn law_task_with_offset(
    fields: Map<Seq<char>, Seq<char>>,
    keys: (Seq<char>, Seq<char>, Seq<char>),
    total: u64,
    piece_length: Option<u64>,
    outcome: Result<Option<CompactRange>, Failure>,
)
    requires
        crate::compact::may_come_to(fields, piece_length, outcome),
        is_only(fields, "X-Dragonfly-Content-Length"@, keys.0),
        is_only(fields, "range"@, keys.1),
        is_only(fields, "X-Dragonfly-Piece-Offset"@, keys.2),
        writes_spaced_number(fields[keys.0], total as nat),
    ensures
        crate::range::requested_range(fields[keys.1], total) matches Err(failure) ==> outcome == Err::<
            Option<CompactRange>,
            Failure,
        >(failure),
        crate::range::requested_range(fields[keys.1], total) matches Ok(range) ==> {
            &&& (forall|n: u64| !#[trigger] writes_spaced_number(fields[keys.2], n as nat))
                ==> outcome == Err::<Option<CompactRange>, Failure>(
                Failure::Validation("invalid piece offset "@ + fields[keys.2]),
            )
            &&& forall|offset: u64| #[trigger]
                writes_spaced_number(fields[keys.2], offset as nat) ==> match piece_length {
                    None => outcome == Err::<Option<CompactRange>, Failure>(
                        Failure::Validation(
                            "the X-Dragonfly-Piece-Offset header requires a declared piece length"@,
                        ),
                    ),
                    Some(piece_length) => if on_grid(range, total, offset, piece_length) {
                        outcome == Ok::<Option<CompactRange>, Failure>(
                            Some(CompactRange { range, total_content_length: total }),
                        )
                    } else {
                        outcome == Err::<Option<CompactRange>, Failure>(
                            Failure::Validation(grid_message(range, offset, piece_length)),
                        )
                    },
                }
        },
{
    let (content_length, range, piece_offset) = law_looked_up(fields, piece_length, outcome);
    law_lookup(fields, "X-Dragonfly-Content-Length"@, keys.0, content_length);
    law_lookup(fields, "range"@, keys.1, range);
    law_lookup(fields, "X-Dragonfly-Piece-Offset"@, keys.2, piece_offset);
    law_declared_number(fields[keys.0], total);
    if let Ok(range) = crate::range::requested_range(fields[keys.1], total) {
        let value = fields[keys.2];
        if let Some(n) = crate::compact::declared_number(value) {
            law_declared_number(value, n);
            assert(writes_spaced_number(value, n as nat));
        }
        assert forall|offset: u64| #[trigger]
            writes_spaced_number(value, offset as nat) implies match piece_length {
            None => outcome == Err::<Option<CompactRange>, Failure>(
                Failure::Validation(
                    "the X-Dragonfly-Piece-Offset header requires a declared piece length"@,
                ),
            ),
            Some(piece_length) => if on_grid(range, total, offset, piece_length) {
                outcome == Ok::<Option<CompactRange>, Failure>(
                    Some(CompactRange { range, total_content_length: total }),
                )
            } else {
                outcome == Err::<Option<CompactRange>, Failure>(
                            Failure::Validation(grid_message(range, offset, piece_length)),
                        )
            },
        } by {
            law_declared_number(value, offset);
            if let Some(piece_length) = piece_length {
                law_chunk(range, total, offset, piece_length);
            }
        }
    }
}

/// Values that were looked up come to nothing without a content length that is a number,
/// or without a Range. Otherwise the Range is resolved against the content length, and
/// what it asks for is held to the grid.
pub proof fn law_looked_up_values(
    content_length: Seq<char>,
    range: Option<Seq<char>>,
    piece_offset: Option<Seq<char>>,
    piece_length: Option<u64>,
    total: u64,
)
    ensures
        crate::compact::compact_outcome(None, range, piece_offset, piece_length) == Ok::<
            Option<CompactRange>,
            Failure,
        >(None),
        crate::compact::compact_outcome(Some(content_length), None, piece_offset, piece_length)
            == Ok::<Option<CompactRange>, Failure>(None),
        (forall|n: u64| !#[trigger] writes_spaced_number(content_length, n as nat))
            ==> crate::compact::compact_outcome(
            Some(content_length),
            range,
            piece_offset,
            piece_length,
        ) == Ok::<Option<CompactRange>, Failure>(None),
        range is Some && writes_spaced_number(content_length, total as nat)
            ==> crate::compact::compact_outcome(
            Some(content_length),
            range,
            piece_offset,
            piece_length,
        ) == (match crate::range::requested_range(range->0, total) {
            Ok(range) => match crate::compact::checked_range(
                range,
                total,
                piece_offset,
                piece_length,
            ) {
                Ok(compact) => Ok::<Option<CompactRange>, Failure>(Some(compact)),
                Err(failure) => Err(failure),
            },
            Err(failure) => Err(failure),
        }),
{
    law_declared_number(content_length, total);
    if let Some(n) = crate::compact::declared_number(content_length) {
        law_declared_number(content_length, n);
        assert(writes_spaced_number(content_length, n as nat));
    }
}

} // verus!
