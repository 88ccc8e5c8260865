//! JSON values, carried through the kernel as `serde_json::Value`.

use vstd::prelude::*;

verus! {

#[verifier::external_type_specification]
#[verifier::external_body]
pub struct ExJsonValue(serde_json::Value);

/// Copies a JSON value with its derived `Clone`.
///
/// Trusted: the copy is the same value.
pub assume_specification[ <serde_json::Value as Clone>::clone ](v: &serde_json::Value) -> (r: serde_json::Value)
    ensures
        r == *v,
;

/// The JSON `null` value, `serde_json::Value::Null`.
///
/// Trusted: the value is `null` by the crate's `is_null`.
#[verifier::external_body]
pub(crate) fn json_null() -> (r: serde_json::Value)
    ensures
        json_null_of(r),
{
    serde_json::Value::Null
}

/// What `serde_json::Value::get` gives for member `key` of `v`: the value
/// of that member when `v` is an object that has it.
pub uninterp spec fn json_member_of(v: serde_json::Value, key: Seq<char>) -> Option<serde_json::Value>;

/// Whether two JSON values are equal by `serde_json::Value`'s `==`.
pub uninterp spec fn json_eq_of(a: serde_json::Value, b: serde_json::Value) -> bool;

/// The JSON object made of `entries`, each a member name and its value.
pub uninterp spec fn json_object_of(entries: Seq<(Seq<char>, serde_json::Value)>) -> serde_json::Value;

/// The JSON string holding `s`.
pub uninterp spec fn json_string_of(s: Seq<char>) -> serde_json::Value;

/// The names and values of a list of members.
pub open spec fn member_views(entries: Seq<(String, serde_json::Value)>) -> Seq<(Seq<char>, serde_json::Value)> {
    entries.map_values(|e: (String, serde_json::Value)| (e.0@, e.1))
}

/// Member `key` of `data`, by `serde_json::Value::get`.
///
/// Trusted: the result is the crate's `get` on `data` and `key`, which
/// depends on them alone.
#[verifier::external_body]
pub(crate) fn json_member<'a>(data: &'a serde_json::Value, key: &str) -> (r: Option<&'a serde_json::Value>)
    ensures
        match r {
            Some(x) => json_member_of(*data, key@) == Some(*x),
            None => json_member_of(*data, key@) is None,
        },
{
    data.get(key)
}

/// Whether two JSON values are equal, by `serde_json::Value`'s `==`.
///
/// Trusted: the result is the crate's derived equality on the two values,
/// which depends on them alone.
#[verifier::external_body]
pub(crate) fn json_equals(a: &serde_json::Value, b: &serde_json::Value) -> (r: bool)
    ensures
        r == json_eq_of(*a, *b),
{
    a == b
}

/// Whether no member of `entries` other than the one at `i` has its name.
pub open spec fn sole_name_at(entries: Seq<(Seq<char>, serde_json::Value)>, i: int) -> bool {
    forall|j: int| 0 <= j < entries.len() && j != i ==> entries[j].0 != entries[i].0
}

/// Whether some member of `entries` is named `key`.
pub open spec fn names(entries: Seq<(Seq<char>, serde_json::Value)>, key: Seq<char>) -> bool {
    exists|i: int| 0 <= i < entries.len() && entries[i].0 == key
}

/// A JSON object with the members `entries`, by collecting them into a
/// `serde_json::Map`.
///
/// Trusted: the result is the object the crate builds from the members,
/// which depends on them alone. `get` on it gives, for a name that no
/// member has, nothing, and for a name that one member alone has, that
/// member's value. Which value a name given twice keeps is left unsaid.
#[verifier::external_body]
pub(crate) fn json_object(entries: Vec<(String, serde_json::Value)>) -> (r: serde_json::Value)
    ensures
        r == json_object_of(member_views(entries@)),
        forall|i: int|
            0 <= i < entries@.len() && sole_name_at(member_views(entries@), i) ==> json_member_of(
                r,
                #[trigger] member_views(entries@)[i].0,
            ) == Some(member_views(entries@)[i].1),
        forall|key: Seq<char>| !names(member_views(entries@), key) ==> (#[trigger] json_member_of(r, key)) is None,
{
    serde_json::Value::Object(entries.into_iter().collect())
}

/// A JSON string, `serde_json::Value::String`.
///
/// Trusted: the result is the string value holding the characters of `s`,
/// whose `as_str` gives them back.
#[verifier::external_body]
pub(crate) fn json_string(s: &str) -> (r: serde_json::Value)
    ensures
        r == json_string_of(s@),
        json_str_of(r) == Some(s@),
{
    serde_json::Value::String(s.to_string())
}

/// Whether `v` is the JSON `null`, by `serde_json::Value::is_null`.
pub uninterp spec fn json_null_of(v: serde_json::Value) -> bool;

/// Whether `v` is the JSON `null`.
///
/// Trusted: the result is the crate's `is_null` on `v`, which depends on
/// it alone.
#[verifier::external_body]
pub(crate) fn json_is_null(v: &serde_json::Value) -> (r: bool)
    ensures
        r == json_null_of(*v),
{
    v.is_null()
}

/// The text of `v` when it is a JSON string, by `serde_json::Value::as_str`.
pub uninterp spec fn json_str_of(v: serde_json::Value) -> Option<Seq<char>>;

/// The text of `v` when it is a JSON string.
///
/// Trusted: the result is the crate's `as_str` on `v`, which depends on it
/// alone.
#[verifier::external_body]
pub(crate) fn json_as_str(v: &serde_json::Value) -> (r: Option<String>)
    ensures
        match r {
            Some(s) => json_str_of(*v) == Some(s@),
            None => json_str_of(*v) is None,
        },
{
    v.as_str().map(String::from)
}

} // verus!
