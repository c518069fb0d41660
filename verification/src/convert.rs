//! Conversions between the forms in which headers come: lines of text, a string hash
//! map, and a header map.

use reqwest::header::{HeaderMap, HeaderName, HeaderValue};
use std::collections::HashMap;
use vstd::prelude::*;

use crate::error::Error;
use crate::fields;
use crate::header_map;
use crate::text;

verus! {

/// The text of the last of `values` that is visible.
pub open spec fn last_visible(values: Seq<Seq<u8>>) -> Option<Seq<char>>
    decreases values.len(),
{
    if values.len() == 0 {
        None
    } else {
        match header_map::visible_text(values.last()) {
            Some(s) => Some(s),
            None => last_visible(values.drop_last()),
        }
    }
}

/// The fields that `headers` can be read as: each name with the last of its values that
/// is visible. A name without such a value is left out.
pub open spec fn visible_fields(headers: Map<Seq<char>, Seq<Seq<u8>>>) -> Map<
    Seq<char>,
    Seq<char>,
> {
    Map::new(
        |name: Seq<char>| headers.contains_key(name) && last_visible(headers[name]) is Some,
        |name: Seq<char>| last_visible(headers[name])->0,
    )
}

/// What `fields` holds under `key`.
pub open spec fn field_of(fields: Map<Seq<char>, Seq<char>>, key: Seq<char>) -> Option<Seq<char>> {
    if fields.contains_key(key) {
        Some(fields[key])
    } else {
        None
    }
}

/// Converts a headermap to a hashmap.
///
/// Values that are not visible text are skipped, and of several values of one name the
/// last stays.
pub fn headermap_to_hashmap(header: &HeaderMap<HeaderValue>) -> (r: HashMap<String, String>)
    ensures
        r.deep_view() == visible_fields(header_map::header_values(*header)),
{
    let entries = header_map::entries(header);
    let mut hashmap: HashMap<String, String> = HashMap::with_capacity(entries.len());
    proof {
        reveal(vstd::std_specs::hash::hash_map_deep_view_impl);
        assert(hashmap.deep_view() =~= Map::<Seq<char>, Seq<char>>::empty());
        assert(entries@.take(0) =~= Seq::empty());
    }
    let mut i: usize = 0;
    while i < entries.len()
        invariant
            i <= entries.len(),
            forall|name: Seq<char>| #[trigger]
                field_of(hashmap.deep_view(), name) == last_visible(
                    header_map::listed_under(entries@.take(i as int), name),
                ),
        decreases entries.len() - i,
    {
        let (name, value) = entries[i];
        let ghost before = hashmap.deep_view();
        if let Ok(value) = value.to_str() {
            fields::insert_field(&mut hashmap, name.to_owned(), value.to_owned());
        }
        proof {
            let seen = entries@.take(i as int);
            let now = entries@.take(i + 1);
            assert(now.drop_last() =~= seen);
            assert forall|key: Seq<char>| #[trigger]
                field_of(hashmap.deep_view(), key) == last_visible(
                    header_map::listed_under(now, key),
                ) by {
                let earlier = header_map::listed_under(seen, key);
                assert(field_of(before, key) == last_visible(earlier));
                if name@ == key {
                    let later = header_map::listed_under(now, key);
                    assert(later.drop_last() =~= earlier);
                }
            }
        }
        i = i + 1;
    }
    proof {
        let headers = header_map::header_values(*header);
        assert(entries@.take(entries.len() as int) =~= entries@);
        assert forall|name: Seq<char>| #[trigger]
            hashmap.deep_view().contains_key(name) == visible_fields(headers).contains_key(name)
                && (hashmap.deep_view().contains_key(name) ==> hashmap.deep_view()[name]
                == visible_fields(headers)[name]) by {
            assert(field_of(hashmap.deep_view(), name) == last_visible(
                header_map::listed_under(entries@, name),
            ));
            assert(header_map::listed_under(entries@, name) == header_map::values_under(
                headers,
                name,
            ));
        }
        assert(hashmap.deep_view() =~= visible_fields(headers));
    }
    hashmap
}

/// Whether a field is a header: its key is a header name and its value a header value.
pub open spec fn is_header(key: Seq<char>, value: Seq<char>) -> bool {
    header_map::name_of(key) is Some && header_map::value_of(value) is Some
}

/// Whether every field is a header.
pub open spec fn all_headers(fields: Map<Seq<char>, Seq<char>>) -> bool {
    forall|key: Seq<char>| #[trigger] fields.contains_key(key) ==> is_header(key, fields[key])
}

/// Whether `headers` holds the names of `fields` and nothing else, each with one value:
/// that of a field whose key is that name. Of keys that differ in case alone, which one
/// gives the value is left open.
pub open spec fn holds_fields(
    headers: Map<Seq<char>, Seq<Seq<u8>>>,
    fields: Map<Seq<char>, Seq<char>>,
) -> bool {
    &&& forall|key: Seq<char>| #[trigger]
        fields.contains_key(key) ==> header_map::name_of(key) is Some && headers.contains_key(
            header_map::name_of(key)->0,
        )
    &&& forall|name: Seq<char>| #[trigger]
        headers.contains_key(name) ==> exists|key: Seq<char>| #[trigger]
            fields.contains_key(key) && header_map::name_of(key) == Some(name)
                && header_map::value_of(fields[key]) is Some && headers[name]
                == seq![header_map::value_of(fields[key])->0]
}

/// Whether `r` is what `fields` may be converted to. Fields all of which are headers
/// give a header map that holds them, and other fields an error. A header map holds no
/// more than `MAX_NAMES` names, and so more fields than that may be refused as too many.
pub open spec fn converts_fields(
    fields: Map<Seq<char>, Seq<char>>,
    r: Result<HeaderMap<HeaderValue>, Error>,
) -> bool {
    match r {
        Ok(map) => {
            &&& all_headers(fields)
            &&& holds_fields(header_map::header_values(map), fields)
            &&& header_map::header_values(map).dom().len() <= header_map::MAX_NAMES
        },
        Err(Error::ParseError) => !all_headers(fields),
        Err(Error::MaxSizeReached) => fields.dom().len() > header_map::MAX_NAMES,
        Err(_) => false,
    }
}

/// A list of the fields has as many entries as there are fields.
proof fn lemma_lists_fields_len(
    entries: Seq<(&String, &String)>,
    fields: Map<Seq<char>, Seq<char>>,
)
    requires
        fields::lists_fields(entries, fields),
    ensures
        fields.dom().finite(),
        fields.dom().len() == entries.len(),
{
    let keys = Seq::new(entries.len(), |i: int| entries[i].0@);
    assert forall|i: int, j: int| 0 <= i < keys.len() && 0 <= j < keys.len() && i != j implies keys[i]
        != keys[j] by {
        let first = if i < j { i } else { j };
        let second = if i < j { j } else { i };
        assert(entries[first].0@ != entries[second].0@);
    }
    keys.unique_seq_to_set();
    assert forall|key: Seq<char>| #[trigger]
        keys.to_set().contains(key) == fields.dom().contains(key) by {
        if fields.contains_key(key) {
            let i = choose|i: int|
                #![trigger entries[i]]
                0 <= i < entries.len() && entries[i].0@ == key;
            assert(keys[i] == key);
        }
        if keys.contains(key) {
            let i = choose|i: int| 0 <= i < keys.len() && keys[i] == key;
            assert(entries[i].0@ == key);
        }
    }
    assert(keys.to_set() =~= fields.dom());
    vstd::seq_lib::seq_to_set_is_finite(keys);
}

/// Reads the header that a field writes.
fn read_header(key: &str, value: &str) -> (r: Result<(HeaderName, HeaderValue), Error>)
    ensures
        match r {
            Ok((name, bytes)) => {
                &&& header_map::name_of(key@) == Some(header_map::name_chars(name))
                &&& header_map::value_of(value@) == Some(header_map::value_bytes(bytes))
            },
            Err(Error::ParseError) => !is_header(key@, value@),
            Err(_) => false,
        },
{
    let name = match HeaderName::from_bytes(key.as_bytes()) {
        Ok(name) => name,
        Err(_) => {
            return Err(Error::ParseError);
        },
    };
    match HeaderValue::from_bytes(value.as_bytes()) {
        Ok(value) => Ok((name, value)),
        Err(_) => Err(Error::ParseError),
    }
}

/// Puts the header that a field writes in place of all values of its name. An insertion
/// that the map refuses for the way its names crowd is tried once more.
fn put_header(map: &mut HeaderMap<HeaderValue>, key: &str, value: &str) -> (r: Result<(), Error>)
    ensures
        match r {
            Ok(()) => {
                &&& is_header(key@, value@)
                &&& header_map::header_values(*final(map)) == header_map::header_values(
                    *old(map),
                ).insert(
                    header_map::name_of(key@)->0,
                    seq![header_map::value_of(value@)->0],
                )
                &&& header_map::header_values(*old(map)).dom().len() < header_map::MAX_NAMES
            },
            Err(Error::ParseError) => {
                &&& !is_header(key@, value@)
                &&& header_map::header_values(*final(map)) == header_map::header_values(*old(map))
            },
            Err(Error::MaxSizeReached) => {
                &&& is_header(key@, value@)
                &&& header_map::header_values(*old(map)).dom().len() >= header_map::MAX_NAMES
                &&& header_map::header_values(*final(map)) == header_map::header_values(*old(map))
            },
            Err(_) => false,
        },
{
    let (name, bytes) = match read_header(key, value) {
        Ok(header) => header,
        Err(e) => {
            return Err(e);
        },
    };
    if header_map::insert(map, name, bytes).is_ok() {
        return Ok(());
    }
    let (name, bytes) = match read_header(key, value) {
        Ok(header) => header,
        Err(e) => {
            return Err(e);
        },
    };
    match header_map::insert(map, name, bytes) {
        Ok(_) => Ok(()),
        Err(_) => Err(Error::MaxSizeReached),
    }
}

/// Converts a hashmap to a headermap.
pub fn hashmap_to_headermap(header: &HashMap<String, String>) -> (r: Result<
    HeaderMap<HeaderValue>,
    Error,
>)
    ensures
        converts_fields(header.deep_view(), r),
{
    let ghost fields = header.deep_view();
    let mut headermap = header_map::new_map();
    let entries = fields::iter_fields(header);
    proof {
        lemma_lists_fields_len(
            vstd::std_specs::iter::IteratorSpec::remaining(&entries),
            fields,
        );
    }
    for entry in it: entries
        invariant
            fields == header.deep_view(),
            fields::lists_fields(it.seq(), fields),
            fields.dom().len() == it.seq().len(),
            header_map::header_values(headermap).dom().finite(),
            header_map::header_values(headermap).dom().len() <= it.index(),
            header_map::header_values(headermap).dom().len() <= header_map::MAX_NAMES,
            forall|i: int|
                #![trigger it.seq()[i]]
                0 <= i < it.index() ==> is_header(it.seq()[i].0@, it.seq()[i].1@)
                    && header_map::header_values(headermap).contains_key(
                    header_map::name_of(it.seq()[i].0@)->0,
                ),
            forall|name: Seq<char>| #[trigger]
                header_map::header_values(headermap).contains_key(name) ==> exists|key: Seq<char>|
                    #[trigger] fields.contains_key(key) && header_map::name_of(key) == Some(name)
                        && header_map::value_of(fields[key]) is Some
                        && header_map::header_values(headermap)[name]
                        == seq![header_map::value_of(fields[key])->0],
    {
        let (k, v) = entry;
        let ghost before = header_map::header_values(headermap);
        assert(fields.contains_key(k@));
        if let Err(e) = put_header(&mut headermap, k.as_str(), v.as_str()) {
            return Err(e);
        }
        proof {
            let now = header_map::header_values(headermap);
            assert forall|name: Seq<char>| #[trigger] now.contains_key(name) implies exists|
                key: Seq<char>,
            | #[trigger]
                fields.contains_key(key) && header_map::name_of(key) == Some(name)
                    && header_map::value_of(fields[key]) is Some && now[name]
                    == seq![header_map::value_of(fields[key])->0] by {
                if header_map::name_of(k@) == Some(name) {
                    assert(fields.contains_key(k@));
                } else {
                    assert(before.contains_key(name));
                }
            }
        }
    }
    Ok(headermap)
}

/// The field that a header line writes: what stands before its first colon and what
/// stands behind it, both without surrounding white space.
pub open spec fn field_of_line(line: Seq<char>) -> Option<(Seq<char>, Seq<char>)> {
    match text::split_once_of(line, ':') {
        Some((key, value)) => Some((text::trim_of(key), text::trim_of(value))),
        None => None,
    }
}

/// The fields that header lines write. Lines without a colon are skipped, and of
/// several lines with one key the last counts.
pub open spec fn fields_of_lines(lines: Seq<String>) -> Map<Seq<char>, Seq<char>>
    decreases lines.len(),
{
    if lines.len() == 0 {
        Map::empty()
    } else {
        let earlier = fields_of_lines(lines.drop_last());
        match field_of_line(lines.last()@) {
            Some((key, value)) => earlier.insert(key, value),
            None => earlier,
        }
    }
}

/// Converts a vector of header string to a hashmap.
pub fn header_vec_to_hashmap(raw_header: Vec<String>) -> (r: Result<
    HashMap<String, String>,
    Error,
>)
    ensures
        r matches Ok(header) && header.deep_view() == fields_of_lines(raw_header@),
{
    let mut header: HashMap<String, String> = HashMap::with_capacity(raw_header.len());
    proof {
        reveal(vstd::std_specs::hash::hash_map_deep_view_impl);
        assert(header.deep_view() =~= Map::<Seq<char>, Seq<char>>::empty());
        assert(raw_header@.take(0) =~= Seq::empty());
    }
    let mut i: usize = 0;
    while i < raw_header.len()
        invariant
            i <= raw_header.len(),
            header.deep_view() == fields_of_lines(raw_header@.take(i as int)),
        decreases raw_header.len() - i,
    {
        assert(raw_header@.take(i + 1).drop_last() =~= raw_header@.take(i as int));
        if let Some((k, v)) = text::split_once(raw_header[i].as_str(), ':') {
            fields::insert_field(&mut header, text::trim(k).to_owned(), text::trim(v).to_owned());
        }
        i = i + 1;
    }
    assert(raw_header@.take(raw_header.len() as int) =~= raw_header@);
    Ok(header)
}

/// Converts a vector of header string to a reqwest headermap.
pub fn header_vec_to_headermap(raw_header: Vec<String>) -> (r: Result<
    HeaderMap<HeaderValue>,
    Error,
>)
    ensures
        converts_fields(fields_of_lines(raw_header@), r),
{
    match header_vec_to_hashmap(raw_header) {
        Ok(header) => hashmap_to_headermap(&header),
        Err(e) => Err(e),
    }
}

} // verus!
