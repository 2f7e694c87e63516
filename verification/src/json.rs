//! The JSON texts that a session is kept in.

use std::collections::HashMap;

use vstd::prelude::*;
use vstd::string::*;

use crate::text_map::{distinct_entries, distinct_keys, last_entries, texts, TextMap};

verus! {

broadcast use vstd::string::group_string_axioms;

/// The object of texts that `serde_json::from_str` reads from `text`; none where `text` is no JSON
/// object whose values are all strings.
pub uninterp spec fn text_object(text: Seq<char>) -> Option<Map<Seq<char>, Seq<char>>>;

/// `serde_json::from_str::<HashMap<String, String>>`: the entries of the object in `text`, each key
/// once, in an order that is left open. Which object a text holds depends on the text alone.
#[verifier::external_body]
fn object_entries(text: &str) -> (entries: Option<Vec<(String, String)>>)
    ensures
        match entries {
            Some(list) => distinct_keys(list@) && text_object(text@) == Some(
                texts(last_entries(list@)),
            ),
            None => text_object(text@) is None,
        },
{
    match serde_json::from_str::<HashMap<String, String>>(text) {
        Ok(object) => Some(object.into_iter().collect()),
        Err(_) => None,
    }
}

/// `serde_json::to_string` on a `HashMap<String, String>`: a JSON text that is not empty and from
/// which `serde_json::from_str` reads the same entries. In which order it holds them is left open.
#[verifier::external_body]
fn object_text(entries: &Vec<(String, String)>) -> (text: String)
    ensures
        text@.len() > 0,
        text_object(text@) == Some(texts(last_entries(entries@))),
{
    let object: HashMap<String, String> = entries.iter().cloned().collect();
    serde_json::to_string(&object).unwrap_or_default()
}

/// The JSON array of the objects `rows`, as `serde_json::to_string` writes it.
pub uninterp spec fn rows_text(rows: Seq<Seq<(Seq<char>, Seq<char>)>>) -> Seq<char>;

/// A row by its views.
pub open spec fn row_view(row: Seq<(String, String)>) -> Seq<(Seq<char>, Seq<char>)> {
    row.map_values(|field: (String, String)| (field.0@, field.1@))
}

/// Rows by their views.
pub open spec fn rows_view(rows: Seq<Vec<(String, String)>>) -> Seq<Seq<(Seq<char>, Seq<char>)>> {
    rows.map_values(|row: Vec<(String, String)>| row_view(row@))
}

/// `serde_json::to_string` on a `Vec<serde_json::Value>` of objects whose values are strings, which
/// depends on the rows alone: an object keeps its fields in the order of their names.
#[verifier::external_body]
pub(crate) fn rows_to_text(rows: &Vec<Vec<(String, String)>>) -> (text: String)
    ensures
        text@ == rows_text(rows_view(rows@)),
{
    let mut items: Vec<serde_json::Value> = Vec::new();
    for row in rows {
        let fields = row.iter().map(|f| (f.0.clone(), serde_json::Value::String(f.1.clone())));
        items.push(serde_json::Value::Object(fields.collect()));
    }
    serde_json::to_string(&items).unwrap_or_default()
}

/// The object of texts in `text`.
pub fn read_object(text: &str) -> (object: Option<TextMap<String>>)
    ensures
        match object {
            Some(map) => text_object(text@) == Some(texts(map@)),
            None => text_object(text@) is None,
        },
{
    match object_entries(text) {
        Some(list) => Some(TextMap::from_entries(list)),
        None => None,
    }
}

/// A JSON text from which the entries of `object` can be read again.
pub fn write_object(object: &TextMap<String>) -> (text: String)
    ensures
        text@.len() > 0,
        text_object(text@) == Some(texts(object@)),
{
    let entries: &Vec<(String, String)> = object.entries();
    proof {
        distinct_entries(entries@);
    }
    object_text(entries)
}

} // verus!
