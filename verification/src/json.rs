//! JSON decoding of theme descriptions, done by `serde_json`.

use vstd::prelude::*;

verus! {

/// Model of a list of JSON object entries whose values are strings or null.
pub open spec fn entries_view(v: Seq<(String, Option<String>)>) -> Seq<(Seq<char>, Option<Seq<char>>)> {
    v.map_values(
        |e: (String, Option<String>)|
            (
                e.0@,
                match e.1 {
                    Some(s) => Some(s@),
                    None => None,
                },
            ),
    )
}

/// What a JSON object's member holds, as far as a theme reads it: a
/// string, null, or any other value.
#[derive(Debug)]
pub enum JsonField {
    Str(String),
    Null,
    Other,
}

pub enum JsonFieldView {
    Str(Seq<char>),
    Null,
    Other,
}

impl View for JsonField {
    type V = JsonFieldView;

    open spec fn view(&self) -> JsonFieldView {
        match self {
            JsonField::Str(s) => JsonFieldView::Str(s@),
            JsonField::Null => JsonFieldView::Null,
            JsonField::Other => JsonFieldView::Other,
        }
    }
}

pub open spec fn fields_view(v: Seq<(String, JsonField)>) -> Seq<(Seq<char>, JsonFieldView)> {
    v.map_values(|e: (String, JsonField)| (e.0@, e.1@))
}

/// The members of the JSON object `text`, in key order, one per key (a
/// later duplicate replacing an earlier one), if `text` is an object.
pub uninterp spec fn spec_json_object_fields(text: Seq<char>) -> Option<Seq<(Seq<char>, JsonFieldView)>>;

/// The entries of each object of the JSON array `text`, if `text` is an
/// array of objects whose values are all strings or null.
pub uninterp spec fn spec_json_string_objects(text: Seq<char>) -> Option<Seq<Seq<(Seq<char>, Option<Seq<char>>)>>>;

/// Decodes a JSON object, telling each member's value apart as a string,
/// null or anything else.
///
/// Trusted: `serde_json::from_str` into a `BTreeMap<String, Value>`
/// succeeds exactly when `text` is a JSON object; the map holds one value
/// per key (the last one given) and is walked in key order. On failure the
/// error's display text is returned, and nothing is claimed of it.
#[verifier::external_body]
pub(crate) fn json_object_fields(text: &str) -> (r: Result<Vec<(String, JsonField)>, String>)
    ensures
        match r {
            Ok(v) => spec_json_object_fields(text@) == Some(fields_view(v@)),
            Err(_) => spec_json_object_fields(text@) is None,
        },
{
    match serde_json::from_str::<std::collections::BTreeMap<String, serde_json::Value>>(text) {
        Ok(m) => Ok(m.into_iter().map(|(k, v)| (k, match v {
            serde_json::Value::String(s) => JsonField::Str(s),
            serde_json::Value::Null => JsonField::Null,
            _ => JsonField::Other,
        })).collect()),
        Err(e) => Err(e.to_string()),
    }
}

/// Decodes a JSON array of objects whose values are strings or null.
///
/// Trusted: `serde_json::from_str` into a `Vec` of
/// `BTreeMap<String, Option<String>>` succeeds exactly when `text` is such
/// an array; each map is walked in key order. On failure the error's display
/// text is returned, and nothing is claimed of it.
#[verifier::external_body]
pub(crate) fn json_string_objects(text: &str) -> (r: Result<Vec<Vec<(String, Option<String>)>>, String>)
    ensures
        match r {
            Ok(v) => spec_json_string_objects(text@) == Some(
                v@.map_values(|o: Vec<(String, Option<String>)>| entries_view(o@)),
            ),
            Err(_) => spec_json_string_objects(text@) is None,
        },
{
    match serde_json::from_str::<Vec<std::collections::BTreeMap<String, Option<String>>>>(text) {
        Ok(v) => Ok(v.into_iter().map(|m| m.into_iter().collect()).collect()),
        Err(e) => Err(e.to_string()),
    }
}

} // verus!
