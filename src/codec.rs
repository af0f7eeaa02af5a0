use vstd::prelude::*;
use std::collections::BTreeMap;
use crate::error::FtagError;
use crate::tagset::{tag_set, distinct_tags, union_tags};

verus! {

/// The entries of the JSON object that `text` is, in key order, where it is
/// one whose every value is an array of strings; `None` where it is not.
pub uninterp spec fn json_string_lists(text: Seq<char>) -> Option<Seq<(Seq<char>, Seq<Seq<char>>)>>;

/// The JSON text of an object whose one field `key` holds `items` as an array
/// of strings.
pub uninterp spec fn json_object_text(key: Seq<char>, items: Seq<Seq<char>>) -> Seq<char>;

/// The texts of a list of strings.
pub open spec fn strings_view(v: Seq<String>) -> Seq<Seq<char>> {
    v.map_values(|s: String| s@)
}

/// The texts of a list of named string lists.
pub open spec fn lists_view(v: Seq<(String, Vec<String>)>) -> Seq<(Seq<char>, Seq<Seq<char>>)> {
    v.map_values(|e: (String, Vec<String>)| (e.0@, strings_view(e.1@)))
}

/// The field under which a stored record keeps its tags.
pub open spec fn tags_field() -> Seq<char> {
    seq!['T', 'a', 'g', 's']
}

/// The value of the first entry named `key`, looking from index `i` on.
pub open spec fn field_from(
    entries: Seq<(Seq<char>, Seq<Seq<char>>)>,
    key: Seq<char>,
    i: int,
) -> Option<Seq<Seq<char>>>
    decreases entries.len() - i,
{
    if i < 0 || i >= entries.len() {
        None
    } else if entries[i].0 == key {
        Some(entries[i].1)
    } else {
        field_from(entries, key, i + 1)
    }
}

/// The tag set that a record's JSON text holds, if it is well formed.
pub open spec fn stored_tags(text: Seq<char>) -> Option<Set<Seq<char>>> {
    match json_string_lists(text) {
        Some(entries) => entries_tags(entries),
        None => None,
    }
}

/// The tag set that parsed record entries hold, if they have a tags field.
pub open spec fn entries_tags(entries: Seq<(Seq<char>, Seq<Seq<char>>)>) -> Option<Set<Seq<char>>> {
    match field_from(entries, tags_field(), 0) {
        Some(items) => Some(items.to_set()),
        None => None,
    }
}

/// The stored text for a tag list.
pub open spec fn tags_text(tags: Seq<String>) -> Seq<char> {
    json_object_text(tags_field(), strings_view(tags))
}

/// Relies on serde_json::from_str into a `BTreeMap<String, Vec<String>>`:
/// it accepts exactly the JSON objects whose values are arrays of strings,
/// and the map hands its entries out in key order.
#[verifier::external_body]
fn parse_string_lists(text: &str) -> (r: Result<Vec<(String, Vec<String>)>, String>)
    ensures
        match r {
            Ok(v) => json_string_lists(text@) == Some(lists_view(v@)),
            Err(_) => json_string_lists(text@) is None,
        },
{
    serde_json::from_str::<BTreeMap<String, Vec<String>>>(text)
        .map(|m| m.into_iter().collect())
        .map_err(|e| e.to_string())
}

/// Relies on serde_json::to_string on a one-entry `BTreeMap` from a string
/// key to a list of strings: the JSON object text with the field `key`
/// holding `items`. Its documentation names the only failures, a `Serialize`
/// impl that fails and a map key that is not a string; neither can occur
/// here. The text reads back through `serde_json::from_str` as that one entry.
#[verifier::external_body]
fn object_text(key: &String, items: &Vec<String>) -> (r: String)
    ensures
        r@ == json_object_text(key@, strings_view(items@)),
        json_string_lists(r@) == Some(seq![(key@, strings_view(items@))]),
{
    serde_json::to_string(&BTreeMap::from([(key, items)])).unwrap()
}

fn tags_field_name() -> (r: String)
    ensures
        r@ == tags_field(),
{
    proof {
        reveal_strlit("Tags");
    }
    String::from_str("Tags")
}

proof fn lemma_tag_set_is_view_set(v: Seq<String>)
    ensures
        tag_set(v) == strings_view(v).to_set(),
{
    assert forall|t: Seq<char>| tag_set(v).contains(t) implies strings_view(v).to_set().contains(t) by {
        let k = choose|k: int| 0 <= k < v.len() && v[k]@ == t;
        assert(strings_view(v)[k] == t);
    }
    assert forall|t: Seq<char>| strings_view(v).to_set().contains(t) implies tag_set(v).contains(t) by {
        let k = choose|k: int| 0 <= k < strings_view(v).len() && strings_view(v)[k] == t;
        assert(v[k]@ == t);
    }
    assert(tag_set(v) =~= strings_view(v).to_set());
}

/// The tags held by parsed record entries, each tag once: the value of the
/// tags field, or a `JsonError` where there is none.
pub fn tags_from_entries(entries: &Vec<(String, Vec<String>)>) -> (r: Result<Vec<String>, FtagError>)
    ensures
        match r {
            Ok(tags) => entries_tags(lists_view(entries@)) == Some(tag_set(tags@)) && distinct_tags(tags@),
            Err(e) => entries_tags(lists_view(entries@)) is None && e is JsonError,
        },
{
    let key = tags_field_name();
    let ghost ev = lists_view(entries@);
    let mut i: usize = 0;
    while i < entries.len()
        invariant
            i <= entries.len(),
            ev == lists_view(entries@),
            key@ == tags_field(),
            field_from(ev, tags_field(), 0) == field_from(ev, tags_field(), i as int),
        decreases entries.len() - i,
    {
        if entries[i].0 == key {
            let empty: Vec<String> = Vec::new();
            let tags = union_tags(&empty, &entries[i].1);
            proof {
                assert(ev[i as int] == (entries@[i as int].0@, strings_view(entries@[i as int].1@)));
                assert(tag_set(empty@) =~= Set::empty());
                lemma_tag_set_is_view_set(entries@[i as int].1@);
                assert(tag_set(tags@) =~= tag_set(entries@[i as int].1@));
            }
            return Ok(tags);
        }
        proof {
            assert(ev[i as int].0 == entries@[i as int].0@);
        }
        i += 1;
    }
    proof {
        reveal_strlit("missing field `Tags`");
    }
    Err(FtagError::JsonError(String::from_str("missing field `Tags`")))
}

/// Reads the tags out of a record's stored JSON text, each tag once.
pub fn decode_tags(text: &str) -> (r: Result<Vec<String>, FtagError>)
    ensures
        match r {
            Ok(tags) => stored_tags(text@) == Some(tag_set(tags@)) && distinct_tags(tags@),
            Err(e) => stored_tags(text@) is None && e is JsonError,
        },
{
    match parse_string_lists(text) {
        Ok(entries) => tags_from_entries(&entries),
        Err(msg) => Err(FtagError::JsonError(msg)),
    }
}

/// The stored JSON text for a tag list; it reads back as the list's tag set.
pub fn encode_tags(tags: &Vec<String>) -> (r: String)
    ensures
        r@ == tags_text(tags@),
        stored_tags(r@) == Some(tag_set(tags@)),
{
    let key = tags_field_name();
    let text = object_text(&key, tags);
    proof {
        let entries = seq![(key@, strings_view(tags@))];
        assert(field_from(entries, tags_field(), 0) == Some(strings_view(tags@)));
        lemma_tag_set_is_view_set(tags@);
    }
    text
}

} // verus!
