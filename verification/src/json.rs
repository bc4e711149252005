//! The boundary to `serde_json`.
//!
//! JSON values are opaque to the verifier. What the rest of the crate knows of a
//! value is what `serde_json`'s own accessors report of it. The declarations in
//! this file are assumptions about `serde_json` that are believed, not proved.

use vstd::prelude::*;

verus! {

/// `serde_json::Value`, a JSON value. Nothing of its inside is known here.
#[verifier::external_type_specification]
#[verifier::external_body]
pub struct ExValue(serde_json::Value);

/// `serde_json::Map`, the entries of a JSON object. Nothing of its inside is
/// known here.
#[verifier::external_type_specification]
#[verifier::external_body]
#[verifier::reject_recursive_types(K)]
#[verifier::reject_recursive_types(V)]
pub struct ExObject<K, V>(serde_json::Map<K, V>);

/// `serde_json::Error`. Nothing of its inside is known here.
#[verifier::external_type_specification]
#[verifier::external_body]
pub struct ExJsonError(serde_json::Error);

/// What `serde_json::Value::as_u64` reports of a value: the number it holds, if
/// it holds a non-negative integer that fits 64 bits.
pub uninterp spec fn value_as_u64(v: serde_json::Value) -> Option<u64>;

/// What `serde_json::Value::as_str` reports of a value: the text it holds, if it
/// is a JSON string.
pub uninterp spec fn value_as_str(v: serde_json::Value) -> Option<Seq<char>>;

/// What `serde_json::Value::as_object` reports of a value: the entries it holds,
/// if it is a JSON object.
pub uninterp spec fn value_as_object(v: serde_json::Value) -> Option<Map<Seq<char>, serde_json::Value>>;

/// What `serde_json::Value::as_array` reports of a value: the elements it
/// holds, if it is a JSON array.
pub uninterp spec fn value_as_array(v: serde_json::Value) -> Option<Seq<serde_json::Value>>;

/// The entries of a `serde_json::Map`, by key.
pub uninterp spec fn object_entries(m: serde_json::Map<String, serde_json::Value>) -> Map<Seq<char>, serde_json::Value>;

/// What `serde_json::from_str::<Vec<Value>>` makes of a text: the elements of
/// the JSON array that the text spells, or `None` where it rejects the text.
pub uninterp spec fn parsed_document(text: Seq<char>) -> Option<Seq<serde_json::Value>>;

/// The text that `serde_json::to_string` writes for an array of values.
pub uninterp spec fn compact_json(doc: Seq<serde_json::Value>) -> Seq<char>;

/// The text that `serde_json::to_string_pretty` writes for an array of values.
pub uninterp spec fn pretty_json(doc: Seq<serde_json::Value>) -> Seq<char>;

/// How deeply the elements of a document may nest for `serde_json` to read
/// back what it wrote. Its parser gives up beyond 127 levels, of which the
/// document itself is one.
pub open spec fn max_depth() -> nat {
    100
}

/// The arrays and objects of `v` nest at most `depth` deep. A value that is
/// neither array nor object has depth 0.
pub open spec fn within_depth(v: serde_json::Value, depth: nat) -> bool
    decreases depth,
{
    &&& value_as_array(v) matches Some(items) ==> depth > 0 && forall|i: int|
        0 <= i < items.len() ==> within_depth(#[trigger] items[i], (depth - 1) as nat)
    &&& value_as_object(v) matches Some(entries) ==> depth > 0 && forall|k: Seq<char>| #[trigger]
        entries.contains_key(k) ==> within_depth(entries[k], (depth - 1) as nat)
}

/// Every element of `doc` nests at most `max_depth()` deep.
pub open spec fn is_shallow_document(doc: Seq<serde_json::Value>) -> bool {
    forall|i: int| 0 <= i < doc.len() ==> within_depth(#[trigger] doc[i], max_depth())
}

/// The entries of an empty object.
pub open spec fn no_entries() -> Map<Seq<char>, serde_json::Value> {
    Map::empty()
}

/// `Value::as_u64`: the number that the value holds, if it holds a
/// non-negative integer that fits 64 bits. This is what `value_as_u64` names.
pub assume_specification[ serde_json::Value::as_u64 ](v: &serde_json::Value) -> (r: Option<u64>)
    ensures
        r == value_as_u64(*v),
;

/// `Value::as_str`: the text that the value holds, if it is a JSON string.
/// This is what `value_as_str` names.
pub assume_specification<'a>[ serde_json::Value::as_str ](v: &'a serde_json::Value) -> (r: Option<
    &'a str,
>)
    ensures
        match r {
            Some(s) => value_as_str(*v) == Some(s@),
            None => value_as_str(*v) is None,
        },
;

/// `Value::as_object`: the map of the value, if it is a JSON object. The
/// entries of that map are what `value_as_object` names.
pub assume_specification<'a>[ serde_json::Value::as_object ](v: &'a serde_json::Value) -> (r: Option<
    &'a serde_json::Map<String, serde_json::Value>,
>)
    ensures
        match r {
            Some(m) => value_as_object(*v) == Some(object_entries(*m)),
            None => value_as_object(*v) is None,
        },
;

/// `Value::as_array`: the elements of the value, if it is a JSON array. This
/// is what `value_as_array` names.
pub assume_specification<'a>[ serde_json::Value::as_array ](v: &'a serde_json::Value) -> (r: Option<
    &'a Vec<serde_json::Value>,
>)
    ensures
        match r {
            Some(items) => value_as_array(*v) == Some(items@),
            None => value_as_array(*v) is None,
        },
;

/// `Value::clone`: a copy of the value.
pub assume_specification[ <serde_json::Value as Clone>::clone ](v: &serde_json::Value) -> (r:
    serde_json::Value)
    ensures
        r == *v,
;

/// `Map::new`: an object without entries.
pub assume_specification[ serde_json::Map::<String, serde_json::Value>::new ]() -> (r: serde_json::Map<String, serde_json::Value>)
    ensures
        object_entries(r) == no_entries(),
;

/// `Map::insert`: the entry under `k` becomes `v`, the others stay. The value
/// that stood under `k` before, if any, is returned.
pub assume_specification[ serde_json::Map::<String, serde_json::Value>::insert ](
    m: &mut serde_json::Map<String, serde_json::Value>,
    k: String,
    v: serde_json::Value,
) -> (r: Option<serde_json::Value>)
    ensures
        object_entries(*final(m)) == object_entries(*old(m)).insert(k@, v),
        r == if object_entries(*old(m)).contains_key(k@) {
            Some(object_entries(*old(m))[k@])
        } else {
            None
        },
;

/// `Value::from(u64)`: a JSON number holding `n`. Such a value is neither a
/// string, an array nor an object.
#[verifier::external_body]
pub(crate) fn number_value(n: u64) -> (r: serde_json::Value)
    ensures
        value_as_u64(r) == Some(n),
        value_as_str(r) is None,
        value_as_array(r) is None,
        value_as_object(r) is None,
{
    serde_json::Value::from(n)
}

/// `Value::String`: a JSON string holding `s`. Such a value is neither a
/// number, an array nor an object.
#[verifier::external_body]
pub(crate) fn string_value(s: String) -> (r: serde_json::Value)
    ensures
        value_as_str(r) == Some(s@),
        value_as_u64(r) is None,
        value_as_array(r) is None,
        value_as_object(r) is None,
{
    serde_json::Value::String(s)
}

/// `Value::Object`: a JSON object holding the entries of `m`. Such a value is
/// neither a number, a string nor an array.
#[verifier::external_body]
pub(crate) fn object_value(m: serde_json::Map<String, serde_json::Value>) -> (r: serde_json::Value)
    ensures
        value_as_object(r) == Some(object_entries(m)),
        value_as_u64(r) is None,
        value_as_str(r) is None,
        value_as_array(r) is None,
{
    serde_json::Value::Object(m)
}

/// `Value::Array`: a JSON array holding `items`. Such a value is neither a
/// number, a string nor an object.
#[verifier::external_body]
pub(crate) fn array_value(items: Vec<serde_json::Value>) -> (r: serde_json::Value)
    ensures
        value_as_array(r) == Some(items@),
        value_as_u64(r) is None,
        value_as_str(r) is None,
        value_as_object(r) is None,
{
    serde_json::Value::Array(items)
}

/// `Map::get` with a string key: the value under `key`, if there is one.
#[verifier::external_body]
pub(crate) fn object_get<'a>(
    m: &'a serde_json::Map<String, serde_json::Value>,
    key: &str,
) -> (r: Option<&'a serde_json::Value>)
    ensures
        match r {
            Some(v) => object_entries(*m).contains_key(key@) && object_entries(*m)[key@] == *v,
            None => !object_entries(*m).contains_key(key@),
        },
{
    m.get(key)
}

/// `Map::keys`, collected: every key of the object, each once. The order in
/// which they come is left open.
#[verifier::external_body]
pub(crate) fn object_keys(m: &serde_json::Map<String, serde_json::Value>) -> (r: Vec<String>)
    ensures
        forall|i: int| 0 <= i < r@.len() ==> object_entries(*m).contains_key(#[trigger] r@[i]@),
        forall|k: Seq<char>|
            object_entries(*m).contains_key(k) ==> exists|i: int|
                0 <= i < r@.len() && #[trigger] r@[i]@ == k,
        forall|i: int, j: int| 0 <= i < j < r@.len() ==> #[trigger] r@[i]@ != #[trigger] r@[j]@,
{
    m.keys().cloned().collect()
}

/// `serde_json::from_str` into a `Vec<Value>`: succeeds exactly on the texts
/// that spell a JSON array, and then returns its elements.
#[verifier::external_body]
pub(crate) fn parse_document(text: &str) -> (r: Result<Vec<serde_json::Value>, serde_json::Error>)
    ensures
        match r {
            Ok(doc) => parsed_document(text@) == Some(doc@),
            Err(_) => parsed_document(text@) is None,
        },
{
    serde_json::from_str(text)
}

/// `serde_json::to_string` on an array of values that nest at most
/// `max_depth()` deep. Writing a `Value` into a string has no failing path in
/// `serde_json`, and what it writes its parser reads back as the same values:
/// the crate is built with the `float_roundtrip` feature, and the nesting
/// stays below the parser's limit.
#[verifier::external_body]
pub(crate) fn render_compact(doc: &Vec<serde_json::Value>) -> (r: Result<String, serde_json::Error>)
    requires
        is_shallow_document(doc@),
    ensures
        match r {
            Ok(s) => s@ == compact_json(doc@) && parsed_document(s@) == Some(doc@),
            Err(_) => false,
        },
{
    serde_json::to_string(doc)
}

/// `serde_json::to_string_pretty` on an array of shallow values: as
/// `render_compact`, with the indented layout.
#[verifier::external_body]
pub(crate) fn render_pretty(doc: &Vec<serde_json::Value>) -> (r: Result<String, serde_json::Error>)
    requires
        is_shallow_document(doc@),
    ensures
        match r {
            Ok(s) => s@ == pretty_json(doc@) && parsed_document(s@) == Some(doc@),
            Err(_) => false,
        },
{
    serde_json::to_string_pretty(doc)
}

/// `serde::de::Error::custom` for `serde_json::Error`: an error that carries
/// `msg`. Nothing is claimed of it.
#[verifier::external_body]
pub(crate) fn data_error(msg: &str) -> serde_json::Error {
    <serde_json::Error as serde::de::Error>::custom(msg)
}

} // verus!
