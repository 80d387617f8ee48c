//! The JSON values that the document is made of, as serde_json holds them.

use vstd::prelude::*;

verus! {

#[verifier::external_type_specification]
#[verifier::external_body]
pub struct ExValue(serde_json::Value);

#[verifier::external_type_specification]
#[verifier::external_body]
pub struct ExError(serde_json::Error);

/// The JSON value that a text parses to, if `serde_json` accepts it.
pub uninterp spec fn parsed_json(t: Seq<char>) -> Option<serde_json::Value>;

/// The pretty-printed text of a JSON value.
pub uninterp spec fn pretty_json(v: serde_json::Value) -> Seq<char>;

/// The characters of a JSON value that is a string; `None` for any other value.
pub uninterp spec fn string_in(v: serde_json::Value) -> Option<Seq<char>>;

/// The entries of a JSON value that is an object, in their order; `None`
/// for any other value.
pub uninterp spec fn entries_in(v: serde_json::Value) -> Option<Seq<(Seq<char>, serde_json::Value)>>;

/// No key occurs twice.
pub open spec fn keys_unique<V>(es: Seq<(Seq<char>, V)>) -> bool {
    forall|i: int, j: int|
        0 <= i < es.len() && 0 <= j < es.len() && i != j ==> #[trigger] es[i].0 != #[trigger] es[j].0
}

/// The entries of a vector of owned pairs, keys as character sequences.
pub open spec fn entries_view(es: Seq<(String, serde_json::Value)>) -> Seq<(Seq<char>, serde_json::Value)> {
    es.map_values(|e: (String, serde_json::Value)| (e.0@, e.1))
}

/// Relies on `serde_json::from_str` into a `Value`: whether it accepts the
/// text (valid JSON, with numbers in range and nesting within its depth
/// limit) and the value it gives depend on the text alone.
#[verifier::external_body]
pub(crate) fn parse_json(t: &str) -> (r: Result<serde_json::Value, serde_json::Error>)
    ensures
        r is Ok <==> parsed_json(t@) is Some,
        r is Ok ==> parsed_json(t@) == Some(r->Ok_0),
{
    serde_json::from_str::<serde_json::Value>(t)
}

/// Relies on the `Display` of `serde_json::Error`: the parser's message,
/// with line and column.
#[verifier::external_body]
pub(crate) fn error_detail(e: &serde_json::Error) -> String {
    e.to_string()
}

/// Relies on `serde_json::to_string_pretty`: printing a `Value` into a
/// buffer cannot fail (its map keys are strings), and the text is a function
/// of the value.
#[verifier::external_body]
pub(crate) fn print_json(v: &serde_json::Value) -> (r: Result<String, serde_json::Error>)
    ensures
        r is Ok,
        r is Ok ==> r->Ok_0@ == pretty_json(*v),
{
    serde_json::to_string_pretty(v)
}

/// Relies on the `Value::String` variant: takes the string out of a string
/// value and hands any other value back unchanged.
#[verifier::external_body]
pub(crate) fn take_string(v: serde_json::Value) -> (r: Result<String, serde_json::Value>)
    ensures
        r is Ok ==> string_in(v) == Some(r->Ok_0@),
        r is Err ==> r->Err_0 == v && string_in(v) is None,
{
    match v {
        serde_json::Value::String(s) => Ok(s),
        other => Err(other),
    }
}

/// Relies on the `Value::String` variant: wraps a string as a JSON value.
#[verifier::external_body]
pub(crate) fn string_json(s: String) -> (r: serde_json::Value)
    ensures
        string_in(r) == Some(s@),
        entries_in(r) is None,
{
    serde_json::Value::String(s)
}

/// Relies on the `Value::Object` variant and on iterating a `serde_json::Map`
/// (an `IndexMap` with `preserve_order`): takes the entries out of an object
/// in their order, each key once, and hands any other value back unchanged.
#[verifier::external_body]
pub(crate) fn take_entries(v: serde_json::Value) -> (r: Result<Vec<(String, serde_json::Value)>, serde_json::Value>)
    ensures
        r is Ok ==> entries_in(v) == Some(entries_view(r->Ok_0@)),
        r is Ok ==> keys_unique(entries_view(r->Ok_0@)),
        r is Err ==> r->Err_0 == v && entries_in(v) is None,
{
    match v {
        serde_json::Value::Object(m) => Ok(m.into_iter().collect()),
        other => Err(other),
    }
}

/// Relies on collecting into a `serde_json::Map` (an `IndexMap` with
/// `preserve_order`) and the `Value::Object` variant: distinct keys are kept
/// in the order given.
#[verifier::external_body]
pub(crate) fn object_json(es: Vec<(String, serde_json::Value)>) -> (r: serde_json::Value)
    requires
        keys_unique(entries_view(es@)),
    ensures
        entries_in(r) == Some(entries_view(es@)),
        string_in(r) is None,
{
    serde_json::Value::Object(es.into_iter().collect())
}

} // verus!
