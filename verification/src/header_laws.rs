//! What holds of the conversions between the forms in which headers come.

use reqwest::header::{HeaderMap, HeaderValue};
use vstd::prelude::*;

use crate::error::Error;
use crate::laws;
use crate::text;

verus! {

/// A header line writes the field whose key stands before its first colon and whose value
/// is all that stands behind it, without the white space round them. A line without a
/// colon writes no field.
pub proof fn law_field_of_line(
    line: Seq<char>,
    key: Seq<char>,
    value: Seq<char>,
    spaces: (Seq<char>, Seq<char>, Seq<char>, Seq<char>),
)
    requires
        text::all_white_space(spaces.0),
        text::all_white_space(spaces.1),
        text::all_white_space(spaces.2),
        text::all_white_space(spaces.3),
        text::is_trimmed(key),
        text::is_trimmed(value),
        !key.contains(':'),
    ensures
        crate::convert::field_of_line(
            spaces.0 + key + spaces.1 + seq![':'] + (spaces.2 + value + spaces.3),
        ) == Some((key, value)),
        crate::convert::field_of_line(line) is None <==> !line.contains(':'),
{
    let before = spaces.0 + key + spaces.1;
    let after = spaces.2 + value + spaces.3;
    assert forall|i: int| 0 <= i < before.len() implies before[i] != ':' by {
        if i < spaces.0.len() {
            assert(before[i] == spaces.0[i]);
            assert(text::is_white_space(spaces.0[i]));
        } else if i < spaces.0.len() + key.len() {
            assert(before[i] == key[i - spaces.0.len()]);
        } else {
            assert(before[i] == spaces.1[i - spaces.0.len() - key.len()]);
            assert(text::is_white_space(spaces.1[i - spaces.0.len() - key.len()]));
        }
    }
    assert(before + seq![':'] + after =~= before.push(':') + after);
    text::lemma_split_once(before, ':', after);
    text::law_trim(spaces.0, key, spaces.1);
    text::law_trim(spaces.2, value, spaces.3);
    text::lemma_split_once_parts(line, ':');
    if let Some((a, b)) = text::split_once_of(line, ':') {
        assert(line[a.len() as int] == ':');
    }
}

/// Whether a line writes a field with the key `key`.
pub open spec fn writes_key(line: Seq<char>, key: Seq<char>) -> bool {
    match crate::convert::field_of_line(line) {
        Some((written, _)) => written == key,
        None => false,
    }
}

/// Whether the line `i` is the last of `lines` that writes a field with the key `key`.
pub open spec fn writes_last(lines: Seq<String>, i: int, key: Seq<char>) -> bool {
    &&& 0 <= i < lines.len()
    &&& writes_key(lines[i]@, key)
    &&& forall|j: int|
        #![trigger lines[j]]
        i < j < lines.len() ==> !writes_key(lines[j]@, key)
}

/// Header lines write the fields of the lines: under each key the value of the last line
/// with that key, and no key that no line has.
pub proof fn law_fields_of_lines(lines: Seq<String>)
    ensures
        forall|i: int, key: Seq<char>| #[trigger]
            writes_last(lines, i, key) ==> {
                &&& crate::convert::fields_of_lines(lines).contains_key(key)
                &&& crate::convert::field_of_line(lines[i]@) == Some(
                    (key, crate::convert::fields_of_lines(lines)[key]),
                )
            },
        forall|key: Seq<char>| #[trigger]
            crate::convert::fields_of_lines(lines).contains_key(key) ==> exists|i: int| #[trigger]
                writes_last(lines, i, key),
    decreases lines.len(),
{
    if lines.len() > 0 {
        let front = lines.drop_last();
        let at = lines.len() - 1;
        law_fields_of_lines(front);
        let fields = crate::convert::fields_of_lines(lines);
        assert forall|i: int, key: Seq<char>| #[trigger] writes_last(lines, i, key) implies {
            &&& fields.contains_key(key)
            &&& crate::convert::field_of_line(lines[i]@) == Some((key, fields[key]))
        } by {
            if i < at {
                assert(front[i] == lines[i]);
                assert forall|j: int|
                    #![trigger front[j]]
                    i < j < front.len() implies !writes_key(front[j]@, key) by {
                    assert(front[j] == lines[j]);
                }
                assert(writes_last(front, i, key));
                assert(lines[at] == lines.last());
            }
        }
        assert forall|key: Seq<char>| #[trigger] fields.contains_key(key) implies exists|i: int|
            #[trigger] writes_last(lines, i, key) by {
            if writes_key(lines.last()@, key) {
                assert(writes_last(lines, at, key));
            } else {
                let i = choose|i: int| #[trigger] writes_last(front, i, key);
                assert(front[i] == lines[i]);
                assert forall|j: int|
                    #![trigger lines[j]]
                    i < j < lines.len() implies !writes_key(lines[j]@, key) by {
                    if j < at {
                        assert(front[j] == lines[j]);
                    }
                }
                assert(writes_last(lines, i, key));
            }
        }
    }
}

/// One header line that writes a key and a value writes these and nothing else.
pub proof fn law_one_line(line: String, key: Seq<char>, value: Seq<char>)
    requires
        line@ == key + ": "@ + value,
        !key.contains(':'),
        text::is_trimmed(key),
        text::is_trimmed(value),
    ensures
        crate::convert::fields_of_lines(seq![line]) == Map::<Seq<char>, Seq<char>>::empty().insert(
            key,
            value,
        ),
{
    let lines = seq![line];
    let none = Seq::<char>::empty();
    reveal_strlit(": ");
    assert(line@ =~= none + key + none + seq![':'] + (seq![' '] + value + none));
    law_field_of_line(line@, key, value, (none, none, seq![' '], none));
    law_fields_of_lines(lines);
    let fields = crate::convert::fields_of_lines(lines);
    assert(lines[0] == line);
    assert(writes_last(lines, 0, key));
    assert forall|other: Seq<char>| #[trigger] fields.contains_key(other) implies other == key by {
        let i = choose|i: int| #[trigger] writes_last(lines, i, other);
        assert(lines[i] == line);
    }
    assert(fields =~= Map::<Seq<char>, Seq<char>>::empty().insert(key, value));
}

/// Of several values the last that is visible text counts, and there is none if no value
/// is.
pub proof fn law_last_visible(values: Seq<Seq<u8>>, i: int)
    ensures
        (forall|j: int|
            #![trigger values[j]]
            0 <= j < values.len() ==> crate::header_map::visible_text(values[j]) is None)
            ==> crate::convert::last_visible(values) is None,
        0 <= i < values.len() && crate::header_map::visible_text(values[i]) is Some && (forall|
            j: int,
        |
            #![trigger values[j]]
            i < j < values.len() ==> crate::header_map::visible_text(values[j]) is None)
            ==> crate::convert::last_visible(values) == crate::header_map::visible_text(values[i]),
    decreases values.len(),
{
    if values.len() > 0 {
        let front = values.drop_last();
        law_last_visible(front, i);
        assert(values[values.len() - 1] == values.last());
        assert forall|j: int| 0 <= j < front.len() implies #[trigger] front[j] == values[j] by {
        }
    }
}

/// The fields that headers can be read as hold under each name the text of the last value
/// that is visible, and no name of which no value is.
pub proof fn law_visible_fields(
    headers: Map<Seq<char>, Seq<Seq<u8>>>,
    name: Seq<char>,
    i: int,
)
    ensures
        ({
            let fields = crate::convert::visible_fields(headers);
            &&& !headers.contains_key(name) ==> !fields.contains_key(name)
            &&& headers.contains_key(name) && (forall|j: int|
                #![trigger headers[name][j]]
                0 <= j < headers[name].len() ==> crate::header_map::visible_text(headers[name][j])
                    is None) ==> !fields.contains_key(name)
            &&& headers.contains_key(name) && 0 <= i < headers[name].len()
                && crate::header_map::visible_text(headers[name][i]) is Some && (forall|j: int|
                #![trigger headers[name][j]]
                i < j < headers[name].len() ==> crate::header_map::visible_text(headers[name][j])
                    is None) ==> fields.contains_key(name) && Some(fields[name])
                == crate::header_map::visible_text(headers[name][i])
        }),
{
    if headers.contains_key(name) {
        law_last_visible(headers[name], i);
    }
}

/// Fields whose keys differ without regard to case are held under their keys in lower
/// case, each with the UTF-8 bytes of its value and nothing else, and no other name is
/// held.
pub proof fn law_fields_held(
    fields: Map<Seq<char>, Seq<char>>,
    headers: Map<Seq<char>, Seq<Seq<u8>>>,
)
    requires
        laws::distinct_names(fields),
        crate::convert::holds_fields(headers, fields),
    ensures
        forall|key: Seq<char>| #[trigger]
            fields.contains_key(key) ==> headers.contains_key(text::lower_of(key))
                && headers[text::lower_of(key)] == seq![vstd::utf8::encode_utf8(fields[key])],
        forall|name: Seq<char>| #[trigger]
            headers.contains_key(name) ==> exists|key: Seq<char>| #[trigger]
                fields.contains_key(key) && text::lower_of(key) == name,
{
    assert forall|key: Seq<char>| #[trigger] fields.contains_key(key) implies {
        crate::header_map::name_of(key) == Some(text::lower_of(key))
    } by {
        crate::header_map::lemma_name_is_lower(key);
    }
    assert forall|key: Seq<char>| #[trigger] fields.contains_key(key) implies headers.contains_key(
        text::lower_of(key),
    ) && headers[text::lower_of(key)] == seq![vstd::utf8::encode_utf8(fields[key])] by {
        assert(headers.contains_key(text::lower_of(key)));
    }
    assert forall|name: Seq<char>| #[trigger] headers.contains_key(name) implies exists|
        key: Seq<char>,
    | #[trigger]
        fields.contains_key(key) && text::lower_of(key) == name by {
        let key = choose|key: Seq<char>| #[trigger]
            fields.contains_key(key) && crate::header_map::name_of(key) == Some(name)
                && crate::header_map::value_of(fields[key]) is Some && headers[name]
                == seq![crate::header_map::value_of(fields[key])->0];
        assert(fields.contains_key(key));
    }
}

/// Whatever the case of their keys, every header that fields are converted to has one
/// value, the UTF-8 bytes of the value of a field with that name.
pub proof fn law_held_values(
    fields: Map<Seq<char>, Seq<char>>,
    headers: Map<Seq<char>, Seq<Seq<u8>>>,
    name: Seq<char>,
)
    requires
        crate::convert::holds_fields(headers, fields),
    ensures
        headers.contains_key(name) ==> exists|key: Seq<char>| #[trigger]
            fields.contains_key(key) && text::lower_of(key) == name && headers[name]
                == seq![vstd::utf8::encode_utf8(fields[key])],
        (exists|key: Seq<char>| #[trigger]
            fields.contains_key(key) && text::lower_of(key) == name) ==> headers.contains_key(name),
{
    if headers.contains_key(name) {
        let key = choose|key: Seq<char>| #[trigger]
            fields.contains_key(key) && crate::header_map::name_of(key) == Some(name)
                && crate::header_map::value_of(fields[key]) is Some && headers[name]
                == seq![crate::header_map::value_of(fields[key])->0];
        crate::header_map::lemma_name_is_lower(key);
        assert(fields.contains_key(key));
    }
    if exists|key: Seq<char>| #[trigger]
        fields.contains_key(key) && text::lower_of(key) == name {
        let key = choose|key: Seq<char>| #[trigger]
            fields.contains_key(key) && text::lower_of(key) == name;
        crate::header_map::lemma_name_is_lower(key);
    }
}

/// Fields that a header map has room for are converted to a header map that holds them if
/// each key is a header name and each value a header value, and are otherwise rejected as
/// malformed.
pub proof fn law_conversion(
    fields: Map<Seq<char>, Seq<char>>,
    r: Result<HeaderMap<HeaderValue>, Error>,
)
    requires
        fields.dom().len() <= crate::header_map::MAX_NAMES,
        crate::convert::converts_fields(fields, r),
    ensures
        r is Ok <==> forall|key: Seq<char>| #[trigger]
            fields.contains_key(key) ==> crate::header_map::name_of(key) is Some
                && crate::header_map::value_of(fields[key]) is Some,
        r matches Err(e) ==> e is ParseError,
        r matches Ok(map) ==> crate::convert::holds_fields(
            crate::header_map::header_values(map),
            fields,
        ),
{
}

/// Fields are converted only if each key is a header name and each value a header value.
/// They are rejected as malformed only if one is not, and as too many only if there are
/// more than a header map holds.
pub proof fn law_conversion_of_many(
    fields: Map<Seq<char>, Seq<char>>,
    r: Result<HeaderMap<HeaderValue>, Error>,
)
    requires
        crate::convert::converts_fields(fields, r),
    ensures
        r matches Ok(map) ==> crate::convert::holds_fields(
            crate::header_map::header_values(map),
            fields,
        ) && forall|key: Seq<char>| #[trigger]
            fields.contains_key(key) ==> crate::header_map::name_of(key) is Some
                && crate::header_map::value_of(fields[key]) is Some,
        r matches Err(e) ==> match e {
            Error::ParseError => exists|key: Seq<char>| #[trigger]
                fields.contains_key(key) && (crate::header_map::name_of(key) is None
                    || crate::header_map::value_of(fields[key]) is None),
            Error::MaxSizeReached => fields.dom().len() > 24576,
            _ => false,
        },
{
}

/// More fields than a header map holds are not converted, if their keys differ without
/// regard to case.
pub proof fn law_too_many_fields(
    fields: Map<Seq<char>, Seq<char>>,
    r: Result<HeaderMap<HeaderValue>, Error>,
)
    requires
        laws::distinct_names(fields),
        fields.dom().finite(),
        fields.dom().len() > 24576,
        crate::convert::converts_fields(fields, r),
    ensures
        r is Err,
{
    if let Ok(map) = r {
        let headers = crate::header_map::header_values(map);
        let lower = |key: Seq<char>| text::lower_of(key);
        lemma_held_names(fields, headers);
        lemma_lower_injective(fields);
        vstd::set_lib::lemma_map_size(fields.dom(), headers.dom(), lower);
    }
}

/// The names that are held are the keys of the fields in lower case.
proof fn lemma_held_names(
    fields: Map<Seq<char>, Seq<char>>,
    headers: Map<Seq<char>, Seq<Seq<u8>>>,
)
    requires
        crate::convert::holds_fields(headers, fields),
    ensures
        fields.dom().map(|key: Seq<char>| text::lower_of(key)) == headers.dom(),
{
    let lower = |key: Seq<char>| text::lower_of(key);
    let names = fields.dom().map(lower);
    assert forall|name: Seq<char>| #[trigger] names.contains(name) implies headers.dom().contains(
        name,
    ) by {
        lemma_held_name(fields, headers, name);
    }
    assert forall|name: Seq<char>| #[trigger] headers.dom().contains(name) implies names.contains(
        name,
    ) by {
        lemma_held_name(fields, headers, name);
    }
    assert(names =~= headers.dom());
}

proof fn lemma_held_name(
    fields: Map<Seq<char>, Seq<char>>,
    headers: Map<Seq<char>, Seq<Seq<u8>>>,
    name: Seq<char>,
)
    requires
        crate::convert::holds_fields(headers, fields),
    ensures
        fields.dom().map(|key: Seq<char>| text::lower_of(key)).contains(name)
            <==> headers.dom().contains(name),
{
    let lower = |key: Seq<char>| text::lower_of(key);
    law_held_values(fields, headers, name);
    if headers.contains_key(name) {
        let key = choose|key: Seq<char>| #[trigger]
            fields.contains_key(key) && text::lower_of(key) == name;
        assert(fields.dom().contains(key) && lower(key) == name);
    }
    if fields.dom().map(lower).contains(name) {
        let key = choose|key: Seq<char>| fields.dom().contains(key) && name == lower(key);
        assert(fields.contains_key(key));
    }
}

proof fn lemma_lower_injective(fields: Map<Seq<char>, Seq<char>>)
    requires
        laws::distinct_names(fields),
    ensures
        vstd::relations::injective_on(|key: Seq<char>| text::lower_of(key), fields.dom()),
{
    let lower = |key: Seq<char>| text::lower_of(key);
    assert forall|k: Seq<char>, l: Seq<char>|
        fields.dom().contains(k) && fields.dom().contains(l) && #[trigger] lower(k)
            == #[trigger] lower(l) implies k == l by {
        assert(fields.contains_key(k) && fields.contains_key(l));
    }
}

} // verus!
