//! A tree model of parsed JSON content, the trusted parsing boundary, and
//! object-field lookup.
//!
//! The model keeps exactly what the extractors read: strings, arrays and
//! objects; every other scalar is collapsed into [`Json::Other`].

use vstd::prelude::*;

use crate::bytes::bytes_eq;

verus! {

/// A parsed JSON document, reduced to what the extractors read.
pub enum Json {
    /// A JSON string, as bytes.
    Str(Vec<u8>),
    /// A JSON array.
    Arr(Vec<Json>),
    /// A JSON object: its fields in document order (for objects produced by
    /// [`parse_json`], sorted by key and with distinct keys).
    Obj(Vec<(Vec<u8>, Json)>),
    /// Any other scalar (null, boolean or number).
    Other,
}

#[verifier::external_type_specification]
#[verifier::external_body]
pub struct ExJsonValue(serde_json::Value);

/// What [`parse_json`] yields on `s`: the [`Json`] reduction of the JSON
/// document the bytes `s` hold, or `None` when they are not well-formed
/// JSON. The result is a function of the bytes alone.
pub uninterp spec fn spec_parse_json(s: Seq<u8>) -> Option<Json>;

/// Converts a `serde_json::Value` into the [`Json`] model, keeping strings,
/// arrays and objects and collapsing the other scalars into `Json::Other`.
/// Relies on `serde_json::Map` iteration, which visits keys in sorted order.
#[verifier::external_body]
fn json_of_value(v: &serde_json::Value) -> Json {
    match v {
        serde_json::Value::String(s) => Json::Str(s.clone().into_bytes()),
        serde_json::Value::Array(a) => Json::Arr(a.iter().map(json_of_value).collect()),
        serde_json::Value::Object(m) => Json::Obj(
            m.iter().map(|(k, x)| (k.clone().into_bytes(), json_of_value(x))).collect(),
        ),
        _ => Json::Other,
    }
}

/// Relies on `serde_json::from_slice::<serde_json::Value>`: parses a JSON
/// document out of bytes, failing exactly on malformed input; the outcome
/// depends on the bytes alone.
#[verifier::external_body]
pub fn parse_json(s: &Vec<u8>) -> (r: Option<Json>)
    ensures
        r == spec_parse_json(s@),
{
    match serde_json::from_slice::<serde_json::Value>(s.as_slice()) {
        Ok(v) => Some(json_of_value(&v)),
        Err(_) => None,
    }
}

/// The value of the first field of `fields` whose key is `key`.
pub open spec fn obj_lookup(fields: Seq<(Vec<u8>, Json)>, key: Seq<u8>) -> Option<Json>
    decreases fields.len(),
{
    if fields.len() == 0 {
        None
    } else if fields[0].0@ == key {
        Some(fields[0].1)
    } else {
        obj_lookup(fields.drop_first(), key)
    }
}

/// The string value of the field `key` of `fields`, when the field is there
/// and holds a string.
pub open spec fn str_field(fields: Seq<(Vec<u8>, Json)>, key: Seq<u8>) -> Option<Seq<u8>> {
    match obj_lookup(fields, key) {
        Some(Json::Str(s)) => Some(s@),
        _ => None,
    }
}

/// Finds the first field of `fields` whose key is `key`; returns its index.
pub fn obj_find(fields: &Vec<(Vec<u8>, Json)>, key: &Vec<u8>) -> (r: Option<usize>)
    ensures
        match r {
            Some(i) => 0 <= i < fields.len() && fields@[i as int].0@ == key@ && obj_lookup(
                fields@,
                key@,
            ) == Some(fields@[i as int].1),
            None => obj_lookup(fields@, key@) is None,
        },
{
    let mut i: usize = 0;
    proof {
        assert(fields@.skip(0) =~= fields@);
    }
    while i < fields.len()
        invariant
            0 <= i <= fields.len(),
            obj_lookup(fields@, key@) == obj_lookup(fields@.skip(i as int), key@),
            forall|j: int| 0 <= j < i ==> fields@[j].0@ != key@,
        decreases fields.len() - i,
    {
        let ghost rest = fields@.skip(i as int);
        proof {
            assert(rest[0] == fields@[i as int]);
            assert(rest.drop_first() =~= fields@.skip(i + 1 as int));
        }
        if bytes_eq(&fields[i].0, key) {
            return Some(i);
        }
        i = i + 1;
    }
    None
}

/// Looks the field `key` up and hands back its value.
pub fn json_get<'a>(fields: &'a Vec<(Vec<u8>, Json)>, key: &Vec<u8>) -> (r: Option<&'a Json>)
    ensures
        match r {
            Some(j) => obj_lookup(fields@, key@) == Some(*j),
            None => obj_lookup(fields@, key@) is None,
        },
{
    match obj_find(fields, key) {
        Some(i) => Some(&fields[i].1),
        None => None,
    }
}

/// The bytes of the object key `dependencies`.
pub open spec fn key_dependencies() -> Seq<u8> {
    seq![100u8, 101u8, 112u8, 101u8, 110u8, 100u8, 101u8, 110u8, 99u8, 105u8, 101u8, 115u8]
}

/// Builds the object key `dependencies`.
pub fn key_dependencies_vec() -> (r: Vec<u8>)
    ensures
        r@ == key_dependencies(),
{
    let v: Vec<u8> = vec![100u8, 101u8, 112u8, 101u8, 110u8, 100u8, 101u8, 110u8, 99u8, 105u8, 101u8, 115u8];
    proof {
        assert(v@ =~= key_dependencies());
    }
    v
}

/// The bytes of the object key `devDependencies`.
pub open spec fn key_dev_dependencies() -> Seq<u8> {
    seq![100u8, 101u8, 118u8, 68u8, 101u8, 112u8, 101u8, 110u8, 100u8, 101u8, 110u8, 99u8, 105u8, 101u8, 115u8]
}

/// Builds the object key `devDependencies`.
pub fn key_dev_dependencies_vec() -> (r: Vec<u8>)
    ensures
        r@ == key_dev_dependencies(),
{
    let v: Vec<u8> = vec![100u8, 101u8, 118u8, 68u8, 101u8, 112u8, 101u8, 110u8, 100u8, 101u8, 110u8, 99u8, 105u8, 101u8, 115u8];
    proof {
        assert(v@ =~= key_dev_dependencies());
    }
    v
}

/// The bytes of the object key `version`.
pub open spec fn key_version() -> Seq<u8> {
    seq![118u8, 101u8, 114u8, 115u8, 105u8, 111u8, 110u8]
}

/// Builds the object key `version`.
pub fn key_version_vec() -> (r: Vec<u8>)
    ensures
        r@ == key_version(),
{
    let v: Vec<u8> = vec![118u8, 101u8, 114u8, 115u8, 105u8, 111u8, 110u8];
    proof {
        assert(v@ =~= key_version());
    }
    v
}

/// The bytes of the object key `name`.
pub open spec fn key_name() -> Seq<u8> {
    seq![110u8, 97u8, 109u8, 101u8]
}

/// Builds the object key `name`.
pub fn key_name_vec() -> (r: Vec<u8>)
    ensures
        r@ == key_name(),
{
    let v: Vec<u8> = vec![110u8, 97u8, 109u8, 101u8];
    proof {
        assert(v@ =~= key_name());
    }
    v
}

/// The bytes of the object key `packages`.
pub open spec fn key_packages() -> Seq<u8> {
    seq![112u8, 97u8, 99u8, 107u8, 97u8, 103u8, 101u8, 115u8]
}

/// Builds the object key `packages`.
pub fn key_packages_vec() -> (r: Vec<u8>)
    ensures
        r@ == key_packages(),
{
    let v: Vec<u8> = vec![112u8, 97u8, 99u8, 107u8, 97u8, 103u8, 101u8, 115u8];
    proof {
        assert(v@ =~= key_packages());
    }
    v
}

/// The bytes of the path prefix `node_modules/`.
pub open spec fn node_modules_prefix() -> Seq<u8> {
    seq![110u8, 111u8, 100u8, 101u8, 95u8, 109u8, 111u8, 100u8, 117u8, 108u8, 101u8, 115u8, 47u8]
}

/// Builds the path prefix `node_modules/`.
pub fn node_modules_prefix_vec() -> (r: Vec<u8>)
    ensures
        r@ == node_modules_prefix(),
{
    let v: Vec<u8> = vec![110u8, 111u8, 100u8, 101u8, 95u8, 109u8, 111u8, 100u8, 117u8, 108u8, 101u8, 115u8, 47u8];
    proof {
        assert(v@ =~= node_modules_prefix());
    }
    v
}

} // verus!
