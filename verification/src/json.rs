//! JSON: objects of strings, and the string arguments of a tool call.

use vstd::prelude::*;
use crate::secret_map::{map_of, ordered, pairs};

verus! {

/// An error of the JSON crate. It is only passed on.
#[verifier::external_type_specification]
#[verifier::external_body]
pub struct ExJsonError(serde_json::Error);

/// A JSON value of any kind. `string_members` says what is read from it.
#[verifier::external_type_specification]
#[verifier::external_body]
pub struct ExJsonValue(serde_json::Value);

/// What `serde_json::to_string` writes for a map from strings to strings.
pub uninterp spec fn json_text(m: Map<Seq<char>, Seq<char>>) -> Seq<char>;

/// The map from strings to strings that `serde_json::from_str` reads from a text, if the text is
/// a JSON object whose members are strings.
pub uninterp spec fn json_object(text: Seq<char>) -> Option<Map<Seq<char>, Seq<char>>>;

/// The members of a JSON object that are strings; none if the value is no object.
pub uninterp spec fn string_members(v: serde_json::Value) -> Map<Seq<char>, Seq<char>>;

/// `serde_json::to_string` on a map from strings to strings. Claimed: it succeeds (strings are
/// allowed as keys, and writing to memory does not fail), the text depends on the map alone,
/// `serde_json::from_str` reads the same map from it, and the text is a single line (nothing
/// stands between the members but a comma, and a line feed inside a string is escaped).
#[verifier::external_body]
pub(crate) fn write_object(entries: &Vec<(String, String)>) -> (r: Result<
    String,
    serde_json::Error,
>)
    requires
        ordered(pairs(entries@)),
    ensures
        r is Ok,
        r->Ok_0@ == json_text(map_of(pairs(entries@))),
        json_object(r->Ok_0@) == Some(map_of(pairs(entries@))),
        !r->Ok_0@.contains('\n'),
{
    let map: std::collections::BTreeMap<String, String> = entries.iter().cloned().collect();
    serde_json::to_string(&map)
}

/// `serde_json::from_str` into a map from strings to strings. Claimed: the text alone decides
/// whether it succeeds and which map it reads. The entries come out of the standard library's
/// ordered map, and so in the order of their keys by code point.
#[verifier::external_body]
pub(crate) fn read_object(text: &str) -> (r: Result<Vec<(String, String)>, serde_json::Error>)
    ensures
        match json_object(text@) {
            Some(m) => r matches Ok(entries) && ordered(pairs(entries@)) && map_of(pairs(entries@))
                == m,
            None => r is Err,
        },
{
    serde_json::from_str::<std::collections::BTreeMap<String, String>>(text).map(
        |map| map.into_iter().collect(),
    )
}

/// `serde_json::Value::get` with a member name, and `as_str` on what it finds. Claimed: the
/// result is the text of the member of that name if the value is an object and that member is a
/// string, and `None` otherwise.
#[verifier::external_body]
pub(crate) fn string_member(v: &serde_json::Value, name: &str) -> (r: Option<String>)
    ensures
        match r {
            Some(t) => string_members(*v).contains_key(name@) && string_members(*v)[name@] == t@,
            None => !string_members(*v).contains_key(name@),
        },
{
    v.get(name).and_then(|member| member.as_str()).map(|text| text.to_string())
}

} // verus!
