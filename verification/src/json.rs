//! JSON values, built and written by `serde_json`.

use vstd::prelude::*;
use crate::text;

verus! {

/// `serde_json::Value`: a JSON value.
#[verifier::external_type_specification]
#[verifier::external_body]
pub struct ExValue(serde_json::Value);

/// `serde_json::Map`: the members of a JSON object.
#[verifier::external_type_specification]
#[verifier::external_body]
#[verifier::reject_recursive_types(K)]
#[verifier::reject_recursive_types(V)]
pub struct ExMembers<K, V>(serde_json::Map<K, V>);

/// `serde_json::Error`: why a value could not be written.
#[verifier::external_type_specification]
#[verifier::external_body]
pub struct ExError(serde_json::Error);

/// What a JSON value is.
pub enum Json {
    Null,
    Bool(bool),
    Number(int),
    /// A floating-point number, by its bits.
    Fraction(u64),
    Text(Seq<char>),
    List(Seq<Json>),
    Object(Map<Seq<char>, Json>),
}

/// What a `serde_json::Value` holds.
pub uninterp spec fn json_of(v: serde_json::Value) -> Json;

/// What a `serde_json::Map` holds.
pub uninterp spec fn members_of(m: serde_json::Map<String, serde_json::Value>) -> Map<
    Seq<char>,
    Json,
>;

/// No members.
pub open spec fn none() -> Map<Seq<char>, Json> {
    Map::empty()
}

/// What `serde_json::to_string_pretty` writes for a value.
pub uninterp spec fn pretty(j: Json) -> Seq<char>;

/// `serde_json::Value::Null`: the value `null`.
#[verifier::external_body]
pub(crate) fn null() -> (r: serde_json::Value)
    ensures
        json_of(r) == Json::Null,
{
    serde_json::Value::Null
}

/// `serde_json::Value::from` on a `bool`: that truth value.
#[verifier::external_body]
pub(crate) fn from_bool(b: bool) -> (r: serde_json::Value)
    ensures
        json_of(r) == Json::Bool(b),
{
    serde_json::Value::from(b)
}

/// `serde_json::Value::from` on a `u64`: that number.
#[verifier::external_body]
pub(crate) fn from_number(n: u64) -> (r: serde_json::Value)
    ensures
        json_of(r) == Json::Number(n as int),
{
    serde_json::Value::from(n)
}

/// `serde_json::Value::from` on a `&str`: that text.
#[verifier::external_body]
pub(crate) fn from_text(s: &str) -> (r: serde_json::Value)
    ensures
        json_of(r) == Json::Text(s@),
{
    serde_json::Value::from(s)
}

/// `serde_json::Value::from` on a vector: the list of those values.
#[verifier::external_body]
pub(crate) fn from_list(v: Vec<serde_json::Value>) -> (r: serde_json::Value)
    ensures
        json_of(r) == Json::List(v@.map_values(|x: serde_json::Value| json_of(x))),
{
    serde_json::Value::from(v)
}

/// `serde_json::Value::from` on a map: the object with those members.
#[verifier::external_body]
pub(crate) fn from_members(m: serde_json::Map<String, serde_json::Value>) -> (r: serde_json::Value)
    ensures
        json_of(r) == Json::Object(members_of(m)),
{
    serde_json::Value::from(m)
}

/// `serde_json::Map::new`: no members.
#[verifier::external_body]
pub(crate) fn no_members() -> (r: serde_json::Map<String, serde_json::Value>)
    ensures
        members_of(r) == none(),
{
    serde_json::Map::new()
}

/// `serde_json::Map::insert`: the member of this name has this value
/// afterwards, and the others are as they were.
#[verifier::external_body]
pub(crate) fn put_member(
    m: &mut serde_json::Map<String, serde_json::Value>,
    name: &str,
    value: serde_json::Value,
)
    ensures
        members_of(*final(m)) == members_of(*old(m)).insert(name@, json_of(value)),
{
    m.insert(name.to_owned(), value);
}

/// `serde_json::to_string_pretty` on a value: its text, a function of what the
/// value holds; members are written in the order of their names. It fails only
/// where the value's own `Serialize` fails or a key is not a text, and neither
/// happens with a `serde_json::Value`.
#[verifier::external_body]
pub(crate) fn write_pretty(v: &serde_json::Value) -> (r: Result<String, serde_json::Error>)
    ensures
        r is Ok,
        r matches Ok(s) ==> s@ == pretty(json_of(*v)),
{
    serde_json::to_string_pretty(v)
}

/// The text of a JSON value, laid out for reading.
pub fn pretty_text(v: &serde_json::Value) -> (r: String)
    ensures
        r@ == pretty(json_of(*v)),
{
    match write_pretty(v) {
        Ok(s) => s,
        Err(_) => String::new(),
    }
}

/// A text, or null.
pub open spec fn text_or_null(o: Option<Seq<char>>) -> Json {
    match o {
        Some(s) => Json::Text(s),
        None => Json::Null,
    }
}

/// A number, or null.
pub open spec fn number_or_null(o: Option<int>) -> Json {
    match o {
        Some(n) => Json::Number(n),
        None => Json::Null,
    }
}

/// A text, or null.
pub fn optional_text(o: &Option<String>) -> (r: serde_json::Value)
    ensures
        json_of(r) == text_or_null(text::opt_text(*o)),
        *o matches Some(s) ==> json_of(r) == Json::Text(s@),
        *o is None ==> json_of(r) == Json::Null,
{
    match o {
        Some(s) => from_text(s.as_str()),
        None => null(),
    }
}

/// A number, or null.
pub fn optional_number(o: Option<u64>) -> (r: serde_json::Value)
    ensures
        json_of(r) == number_or_null(
            match o {
                Some(n) => Some(n as int),
                None => None,
            },
        ),
        o matches Some(n) ==> json_of(r) == Json::Number(n as int),
        o is None ==> json_of(r) == Json::Null,
{
    match o {
        Some(n) => from_number(n),
        None => null(),
    }
}

/// The answer to a merge that a conflict stops.
pub fn conflict_json(conflicts: serde_json::Value) -> (r: serde_json::Value)
    ensures
        json_of(r) == Json::Object(
            map!["status"@ => Json::Text("conflict"@), "conflicts"@ => json_of(conflicts)],
        ),
{
    let mut m = no_members();
    put_member(&mut m, "status", from_text("conflict"));
    put_member(&mut m, "conflicts", conflicts);
    from_members(m)
}

/// The answer to a merge that was made.
pub fn applied_json(report: serde_json::Value) -> (r: serde_json::Value)
    ensures
        json_of(r) == Json::Object(
            map!["status"@ => Json::Text("applied"@), "report"@ => json_of(report)],
        ),
{
    let mut m = no_members();
    put_member(&mut m, "status", from_text("applied"));
    put_member(&mut m, "report", report);
    from_members(m)
}

} // verus!
