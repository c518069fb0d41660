//! The header multimap of `reqwest`, and what this library relies on in it.
//!
//! A `HeaderMap` is taken as a map from each header name, in lower case, to the
//! values stored under it, in the order in which they were added.

use reqwest::header::{
    HeaderMap, HeaderName, HeaderValue, InvalidHeaderName, InvalidHeaderValue, MaxSizeReached,
    ToStrError,
};
use vstd::prelude::*;

use crate::text;

verus! {

/// `reqwest::header::HeaderMap`: a multimap from header names to values.
#[verifier::external_type_specification]
#[verifier::external_body]
#[verifier::reject_recursive_types(T)]
pub struct ExHeaderMap<T>(HeaderMap<T>);

/// `reqwest::header::HeaderName`: the characters of a header name, in lower case.
#[verifier::external_type_specification]
#[verifier::external_body]
pub struct ExHeaderName(HeaderName);

/// `reqwest::header::HeaderValue`: the bytes of a header value.
#[verifier::external_type_specification]
#[verifier::external_body]
pub struct ExHeaderValue(HeaderValue);

/// `reqwest::header::InvalidHeaderName`: the error of `HeaderName::from_bytes`.
#[verifier::external_type_specification]
#[verifier::external_body]
pub struct ExInvalidHeaderName(InvalidHeaderName);

/// `reqwest::header::InvalidHeaderValue`: the error of `HeaderValue::from_bytes`.
#[verifier::external_type_specification]
#[verifier::external_body]
pub struct ExInvalidHeaderValue(InvalidHeaderValue);

/// `reqwest::header::ToStrError`: the error of `HeaderValue::to_str`.
#[verifier::external_type_specification]
#[verifier::external_body]
pub struct ExToStrError(ToStrError);

/// `reqwest::header::MaxSizeReached`: the error of `HeaderMap::try_insert`.
#[verifier::external_type_specification]
#[verifier::external_body]
pub struct ExMaxSizeReached(MaxSizeReached);

/// What a header map holds: the values of each name, in the order in which they were
/// added.
pub uninterp spec fn header_values(map: HeaderMap<HeaderValue>) -> Map<Seq<char>, Seq<Seq<u8>>>;

/// The number of names from which on a header map refuses an insertion.
pub uninterp spec fn names_limit(map: HeaderMap<HeaderValue>) -> nat;

/// The characters that a header name holds.
pub uninterp spec fn name_chars(name: HeaderName) -> Seq<char>;

/// The bytes that a header value holds.
pub uninterp spec fn value_bytes(value: HeaderValue) -> Seq<u8>;

/// The longest header name, in bytes.
pub const MAX_NAME_LEN: usize = 65535;

/// The greatest number of names that a header map holds.
pub const MAX_NAMES: usize = 24576;

/// Whether `b` may occur in a header name: a letter, a digit, or one of
/// ``!#$%&'*+-.^_`|~``.
pub open spec fn is_name_byte(b: u8) -> bool {
    let c = b as char;
    ||| 'a' <= c <= 'z'
    ||| 'A' <= c <= 'Z'
    ||| '0' <= c <= '9'
    ||| c == '!'
    ||| '#' <= c <= '\''
    ||| c == '*'
    ||| c == '+'
    ||| c == '-'
    ||| c == '.'
    ||| '^' <= c <= '`'
    ||| c == '|'
    ||| c == '~'
}

/// The header name that `bytes` write: one or more name bytes, taken in lower case.
pub open spec fn name_of_bytes(bytes: Seq<u8>) -> Option<Seq<char>> {
    if 1 <= bytes.len() <= MAX_NAME_LEN && forall|i: int|
        0 <= i < bytes.len() ==> is_name_byte(#[trigger] bytes[i]) {
        Some(bytes.map_values(|b: u8| text::lower(b as char)))
    } else {
        None
    }
}

/// The header name that the text `s` writes.
pub open spec fn name_of(s: Seq<char>) -> Option<Seq<char>> {
    name_of_bytes(vstd::utf8::encode_utf8(s))
}

/// Whether `b` may occur in a header value: anything but the control characters, of
/// which a tab is admitted.
pub open spec fn is_value_byte(b: u8) -> bool {
    (b >= 32 && b != 127) || b == 9
}

/// The header value that the text `s` writes: its UTF-8 bytes, if all may occur in a
/// value.
pub open spec fn value_of(s: Seq<char>) -> Option<Seq<u8>> {
    let bytes = vstd::utf8::encode_utf8(s);
    if forall|i: int| 0 <= i < bytes.len() ==> is_value_byte(#[trigger] bytes[i]) {
        Some(bytes)
    } else {
        None
    }
}

/// Whether `b` is a visible ASCII character, a space or a tab.
pub open spec fn is_visible(b: u8) -> bool {
    32 <= b < 127 || b == 9
}

/// The text of a header value, if each of its bytes is visible.
pub open spec fn visible_text(bytes: Seq<u8>) -> Option<Seq<char>> {
    if forall|i: int| 0 <= i < bytes.len() ==> is_visible(#[trigger] bytes[i]) {
        Some(bytes.map_values(|b: u8| b as char))
    } else {
        None
    }
}

/// The values that `headers` holds under `name`.
pub open spec fn values_under(headers: Map<Seq<char>, Seq<Seq<u8>>>, name: Seq<char>) -> Seq<
    Seq<u8>,
> {
    if headers.contains_key(name) {
        headers[name]
    } else {
        Seq::empty()
    }
}

/// The values that `entries` holds under `name`, in their order.
pub open spec fn listed_under(entries: Seq<(&str, &HeaderValue)>, name: Seq<char>) -> Seq<Seq<u8>>
    decreases entries.len(),
{
    if entries.len() == 0 {
        Seq::empty()
    } else if entries.last().0@ == name {
        listed_under(entries.drop_last(), name).push(value_bytes(*entries.last().1))
    } else {
        listed_under(entries.drop_last(), name)
    }
}

/// `HeaderName::from_bytes` succeeds on what may be a header name, and then holds it in
/// lower case.
pub assume_specification[ HeaderName::from_bytes ](src: &[u8]) -> (r: Result<
    HeaderName,
    InvalidHeaderName,
>)
    ensures
        match r {
            Ok(name) => name_of_bytes(src@) == Some(name_chars(name)),
            Err(_) => name_of_bytes(src@) is None,
        },
;

/// `HeaderValue::from_bytes` succeeds on bytes all of which may occur in a header
/// value, and then holds them.
pub assume_specification[ HeaderValue::from_bytes ](src: &[u8]) -> (r: Result<
    HeaderValue,
    InvalidHeaderValue,
>)
    ensures
        match r {
            Ok(value) => value_bytes(value) == src@ && forall|i: int|
                0 <= i < src@.len() ==> is_value_byte(#[trigger] src@[i]),
            Err(_) => exists|i: int| 0 <= i < src@.len() && !is_value_byte(#[trigger] src@[i]),
        },
;

/// `HeaderValue::to_str` gives the text of a value whose bytes are all visible ASCII
/// characters, spaces or tabs, and fails on any other.
pub assume_specification[ HeaderValue::to_str ](value: &HeaderValue) -> (r: Result<
    &str,
    ToStrError,
>)
    ensures
        match r {
            Ok(s) => visible_text(value_bytes(*value)) == Some(s@),
            Err(_) => visible_text(value_bytes(*value)) is None,
        },
;

/// `HeaderMap::new` makes a map that holds nothing.
#[verifier::external_body]
pub(crate) fn new_map() -> (r: HeaderMap<HeaderValue>)
    ensures
        header_values(r).dom() == Set::<Seq<char>>::empty(),
{
    HeaderMap::new()
}

/// `HeaderMap::try_insert` puts `value` in place of all values of `name`, and gives back
/// the first of those. It refuses, and leaves what the map holds, if and only if the map
/// already holds as many names as its limit. The limit is never above `MAX_NAMES`. It is
/// below that while the names crowd in few slots of the table, but a refusal ends this:
/// from then on, until the next insertion, the limit is `MAX_NAMES`.
#[verifier::external_body]
pub(crate) fn insert(
    map: &mut HeaderMap<HeaderValue>,
    name: HeaderName,
    value: HeaderValue,
) -> (r: Result<Option<HeaderValue>, MaxSizeReached>)
    ensures
        match r {
            Ok(previous) => {
                &&& header_values(*final(map)) == header_values(*old(map)).insert(
                    name_chars(name),
                    seq![value_bytes(value)],
                )
                &&& header_values(*old(map)).dom().len() < names_limit(*old(map)) <= MAX_NAMES
                &&& match previous {
                    Some(v) => header_values(*old(map)).contains_key(name_chars(name))
                        && value_bytes(v) == header_values(*old(map))[name_chars(name)][0],
                    None => !header_values(*old(map)).contains_key(name_chars(name)),
                }
            },
            Err(_) => {
                &&& header_values(*final(map)) == header_values(*old(map))
                &&& header_values(*old(map)).dom().len() >= names_limit(*old(map))
                &&& names_limit(*final(map)) == MAX_NAMES
            },
        },
{
    map.try_insert(name, value)
}

/// `HeaderMap::get` gives the first value of the header `name`, whatever the case in
/// which it is written, and nothing if the map has no such header.
#[verifier::external_body]
pub(crate) fn get<'a>(map: &'a HeaderMap<HeaderValue>, name: &str) -> (r: Option<&'a HeaderValue>)
    requires
        name_of(name@) is Some,
    ensures
        match r {
            Some(value) => header_values(*map).contains_key(name_of(name@)->0) && value_bytes(
                *value,
            ) == header_values(*map)[name_of(name@)->0][0],
            None => !header_values(*map).contains_key(name_of(name@)->0),
        },
{
    map.get(name)
}

/// `HeaderMap::iter` visits each value of each name once, the values of one name in
/// their order. In which order it takes the names is left open.
#[verifier::external_body]
pub(crate) fn entries(map: &HeaderMap<HeaderValue>) -> (r: Vec<(&str, &HeaderValue)>)
    ensures
        forall|name: Seq<char>| #[trigger]
            listed_under(r@, name) == values_under(header_values(*map), name),
        forall|name: Seq<char>| #[trigger]
            header_values(*map).contains_key(name) ==> listed_under(r@, name).len() > 0,
{
    map.iter().map(|(name, value)| (name.as_str(), value)).collect()
}

/// `HeaderMap::clone` holds what the map holds.
#[verifier::external_body]
pub(crate) fn clone_map(map: &HeaderMap<HeaderValue>) -> (r: HeaderMap<HeaderValue>)
    ensures
        header_values(r) == header_values(*map),
{
    map.clone()
}

/// A text of name bytes is a header name, which is held in lower case.
pub proof fn lemma_name_of(s: Seq<char>)
    requires
        1 <= s.len() <= MAX_NAME_LEN,
        vstd::utf8::is_ascii_chars(s),
        forall|i: int| 0 <= i < s.len() ==> is_name_byte(#[trigger] s[i] as u8),
    ensures
        name_of(s) == Some(text::lower_of(s)),
{
    vstd::utf8::is_ascii_chars_encode_utf8(s);
    let bytes = vstd::utf8::encode_utf8(s);
    assert forall|i: int| 0 <= i < bytes.len() implies is_name_byte(#[trigger] bytes[i]) by {
        assert(bytes[i] == s[i] as u8);
    }
    assert(bytes.map_values(|b: u8| text::lower(b as char)) =~= text::lower_of(s));
}

/// A header name is written in ASCII, and held in lower case.
pub proof fn lemma_name_is_lower(s: Seq<char>)
    requires
        name_of(s) is Some,
    ensures
        vstd::utf8::is_ascii_chars(s),
        name_of(s) == Some(text::lower_of(s)),
{
    let bytes = vstd::utf8::encode_utf8(s);
    let chars = bytes.map_values(|b: u8| b as char);
    assert forall|i: int| 0 <= i < chars.len() implies '\0' <= #[trigger] chars[i] <= '\u{7f}' by {
        assert(is_name_byte(bytes[i]));
    }
    vstd::utf8::is_ascii_chars_encode_utf8(chars);
    assert(vstd::utf8::encode_utf8(chars) =~= bytes);
    vstd::utf8::encode_utf8_decode_utf8(chars);
    vstd::utf8::encode_utf8_decode_utf8(s);
    assert(bytes.map_values(|b: u8| text::lower(b as char)) =~= text::lower_of(s));
}

} // verus!
