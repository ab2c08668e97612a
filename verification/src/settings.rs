//! The settings file: a JSON object that remembers the server address.

use vstd::prelude::*;
use crate::text::text_eq;

verus! {

/// The entries of a JSON object, each value reduced to its text if it is a
/// JSON string.
pub type JsonEntries = Seq<(Seq<char>, Option<Seq<char>>)>;

/// What `serde_json::from_str` reads from a text as a JSON object with
/// string keys (`None` when the text is no such object), each value reduced
/// to its text if it is a JSON string.
pub uninterp spec fn spec_json_object_entries(text: Seq<char>) -> Option<JsonEntries>;

/// The text `serde_json::to_string` writes for an object with the single
/// entry `key: value`.
pub uninterp spec fn spec_json_single_entry_text(key: Seq<char>, value: Seq<char>) -> Seq<char>;

/// The plain view of parsed entries.
pub open spec fn entries_view(entries: Seq<(String, Option<String>)>) -> JsonEntries {
    entries.map_values(
        |e: (String, Option<String>)|
            (
                e.0@,
                match e.1 {
                    Some(t) => Some(t@),
                    None => None,
                },
            ),
    )
}

/// Calls `serde_json::from_str` for a map of strings to JSON values and
/// hands out its entries, keeping the text of string values.
///
/// Trusted: the result is the named reading of the text.
#[verifier::external_body]
fn parse_json_object(text: &str) -> (res: Option<Vec<(String, Option<String>)>>)
    ensures
        match res {
            Some(v) => spec_json_object_entries(text@) == Some(entries_view(v@)),
            None => spec_json_object_entries(text@) is None,
        },
{
    match serde_json::from_str::<serde_json::Map<String, serde_json::Value>>(text) {
        Ok(map) => Some(
            map.into_iter().map(
                |(k, v)|
                    match v {
                        serde_json::Value::String(s) => (k, Some(s)),
                        _ => (k, None),
                    },
            ).collect(),
        ),
        Err(_) => None,
    }
}

/// Calls `serde_json::to_string` on a map with the single entry
/// `key: value`.
///
/// Trusted: serializing a map of string keys to string values does not
/// fail (`to_string` fails only for non-string keys or failing `Serialize`
/// impls), the text is the named one, and reading it back with
/// `serde_json::from_str` gives the one entry with the same key and text.
#[verifier::external_body]
fn json_single_entry(key: &str, value: &str) -> (res: String)
    ensures
        res@ == spec_json_single_entry_text(key@, value@),
        spec_json_object_entries(res@) == Some(seq![(key@, Some(value@))]),
{
    serde_json::to_string(&std::collections::BTreeMap::from([(key, value)])).unwrap_or_default()
}

/// The text of the first entry named `key`, if that entry holds a string.
pub open spec fn field_text(entries: JsonEntries, key: Seq<char>) -> Option<Seq<char>>
    decreases entries.len(),
{
    if entries.len() == 0 {
        None
    } else if entries[0].0 == key {
        entries[0].1
    } else {
        field_text(entries.drop_first(), key)
    }
}

/// The key under which the server address is stored.
pub open spec fn server_url_key() -> Seq<char> {
    "server_url"@
}

/// The server address a settings text holds, if any.
pub open spec fn settings_server_url(text: Seq<char>) -> Option<Seq<char>> {
    match spec_json_object_entries(text) {
        Some(entries) => field_text(entries, server_url_key()),
        None => None,
    }
}

/// The server address among parsed settings entries: the text of the first
/// entry named `server_url`, if that entry holds a string.
pub fn server_url_field(entries: &Vec<(String, Option<String>)>) -> (res: Option<String>)
    ensures
        match res {
            Some(u) => field_text(entries_view(entries@), server_url_key()) == Some(u@),
            None => field_text(entries_view(entries@), server_url_key()) is None,
        },
{
    let ghost all = entries_view(entries@);
    let mut i: usize = 0;
    assert(all.subrange(0, all.len() as int) =~= all);
    while i < entries.len()
        invariant
            all == entries_view(entries@),
            i <= entries@.len(),
            field_text(all, server_url_key()) == field_text(
                all.subrange(i as int, all.len() as int),
                server_url_key(),
            ),
        decreases entries@.len() - i,
    {
        let ghost rest = all.subrange(i as int, all.len() as int);
        assert(rest[0] == all[i as int]);
        if text_eq(entries[i].0.as_str(), "server_url") {
            assert(rest[0].0 == server_url_key());
            assert(field_text(rest, server_url_key()) == rest[0].1);
            return match &entries[i].1 {
                Some(t) => {
                    assert(rest[0].1 == Some(t@));
                    Some(t.clone())
                },
                None => None,
            };
        }
        assert(rest.drop_first() =~= all.subrange(i + 1, all.len() as int));
        i = i + 1;
    }
    None
}

/// The server address stored in a settings text: the string under
/// `server_url` of the JSON object the text holds; `None` when the text is
/// no JSON object, has no such entry, or the entry is no string.
pub fn load_server_url(text: &str) -> (res: Option<String>)
    ensures
        match res {
            Some(u) => settings_server_url(text@) == Some(u@),
            None => settings_server_url(text@) is None,
        },
{
    match parse_json_object(text) {
        None => None,
        Some(entries) => server_url_field(&entries),
    }
}

/// The settings text that stores `server_url`. Reading it back gives the
/// same address.
pub fn settings_document(server_url: &str) -> (res: String)
    ensures
        res@ == spec_json_single_entry_text(server_url_key(), server_url@),
        settings_server_url(res@) == Some(server_url@),
{
    let res = json_single_entry("server_url", server_url);
    proof {
        let entries = seq![(server_url_key(), Some(server_url@))];
        assert(entries[0].0 == server_url_key());
    }
    res
}

} // verus!
