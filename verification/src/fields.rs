//! Header fields in a string hash map, keyed by names in whatever case they were
//! written.
//!
//! `vstd` states what a `HashMap` does only for key types whose equality and hash it
//! models, and `String` is not among them. The two operations that this library needs
//! on a `HashMap<String, String>` are therefore stated here, over the map's
//! `deep_view()`: the map from the characters of each key to those of its value.

use std::collections::hash_map::Iter;
use std::collections::HashMap;
use vstd::prelude::*;

use crate::text;

verus! {

/// Whether `entries` holds each field of `fields` exactly once, in some order.
pub open spec fn lists_fields(
    entries: Seq<(&String, &String)>,
    fields: Map<Seq<char>, Seq<char>>,
) -> bool {
    &&& forall|i: int|
        #![trigger entries[i]]
        0 <= i < entries.len() ==> fields.contains_key(entries[i].0@)
            && fields[entries[i].0@] == entries[i].1@
    &&& forall|key: Seq<char>| #[trigger]
        fields.contains_key(key) ==> exists|i: int|
            #![trigger entries[i]]
            0 <= i < entries.len() && entries[i].0@ == key
    &&& forall|i: int, j: int|
        #![trigger entries[i], entries[j]]
        0 <= i < j < entries.len() ==> entries[i].0@ != entries[j].0@
}

/// `HashMap::insert`: afterwards `key` has the value `value`, and every other key what
/// it had.
#[verifier::external_body]
pub(crate) fn insert_field(map: &mut HashMap<String, String>, key: String, value: String)
    ensures
        final(map).deep_view() == old(map).deep_view().insert(key@, value@),
{
    map.insert(key, value);
}

/// `HashMap::iter`: visits each field exactly once, in an order that is left open.
#[verifier::external_body]
pub(crate) fn iter_fields(map: &HashMap<String, String>) -> (iter: Iter<'_, String, String>)
    ensures
        lists_fields(vstd::std_specs::iter::IteratorSpec::remaining(&iter), map.deep_view()),
        vstd::std_specs::iter::IteratorSpec::decrease(&iter) is Some,
        vstd::std_specs::iter::IteratorSpec::initial_value_relation(&iter, &iter),
{
    map.iter()
}

/// Whether `value` is what a lookup of `name` in `fields`, without regard to case, may
/// give: the value of some field of that name, or nothing if there is none.
pub open spec fn may_find(
    fields: Map<Seq<char>, Seq<char>>,
    name: Seq<char>,
    value: Option<Seq<char>>,
) -> bool {
    match value {
        Some(value) => exists|key: Seq<char>| #[trigger]
            fields.contains_key(key) && text::same_ignoring_case(key, name) && fields[key] == value,
        None => forall|key: Seq<char>| #[trigger]
            fields.contains_key(key) ==> !text::same_ignoring_case(key, name),
    }
}

/// Finds a header value by case-insensitive name in a string header map.
pub fn find_header<'a>(header: &'a HashMap<String, String>, name: &str) -> (r: Option<&'a str>)
    ensures
        may_find(header.deep_view(), name@, text::text_of(r)),
{
    let entries = iter_fields(header);
    for entry in it: entries
        invariant
            lists_fields(it.seq(), header.deep_view()),
            forall|i: int|
                0 <= i < it.index() ==> !text::same_ignoring_case((#[trigger] it.seq()[i]).0@, name@),
    {
        let (key, value) = entry;
        if text::eq_ignore_ascii_case(key.as_str(), name) {
            return Some(value.as_str());
        }
    }
    None
}

} // verus!
