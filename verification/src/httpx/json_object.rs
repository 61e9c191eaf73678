//! JSON objects of the `serde_json` crate: what they hold, and the calls this
//! crate makes on them.
use vstd::prelude::*;

verus! {

#[verifier::external_type_specification]
#[verifier::external_body]
pub struct ExValue(serde_json::Value);

#[verifier::external_type_specification]
#[verifier::external_body]
#[verifier::reject_recursive_types(K)]
#[verifier::reject_recursive_types(V)]
pub struct ExJsonMap<K, V>(serde_json::Map<K, V>);

/// The JSON text that a `serde_json::Value` is written as.
pub uninterp spec fn value_text(value: serde_json::Value) -> Seq<u8>;

/// What a `serde_json::Map` holds: each key with the text that its value is
/// written as.
pub uninterp spec fn members(
    object: serde_json::Map<std::string::String, serde_json::Value>,
) -> Map<Seq<char>, Seq<u8>>;

/// What `serde_json::from_slice::<Value>` makes of bytes: a value, by the text
/// that it is written as, or what it says is wrong.
pub uninterp spec fn parsed_value(bytes: Seq<u8>) -> Result<Seq<u8>, Seq<char>>;

/// What `serde_json::to_vec` writes an object with these members as, or what
/// it says is wrong.
pub uninterp spec fn object_text(members: Map<Seq<char>, Seq<u8>>) -> Result<
    Seq<u8>,
    Seq<char>,
>;

/// `serde_json::from_slice::<Value>`, whose result is named `parsed_value`.
#[verifier::external_body]
pub(crate) fn parse_value(bytes: &[u8]) -> (r: Result<serde_json::Value, String>)
    ensures
        match parsed_value(bytes@) {
            Ok(text) => r is Ok && value_text(r->Ok_0) == text,
            Err(e) => r is Err && r->Err_0@ == e,
        },
{
    serde_json::from_slice::<serde_json::Value>(bytes).map_err(|e| e.to_string())
}

/// The members of an object that has none.
pub open spec fn no_members() -> Map<Seq<char>, Seq<u8>> {
    Map::empty()
}

/// `serde_json::Map::new`: an object without members.
#[verifier::external_body]
pub(crate) fn object_new() -> (r: serde_json::Map<std::string::String, serde_json::Value>)
    ensures
        members(r) == no_members(),
{
    serde_json::Map::new()
}

/// `serde_json::Map::insert`: the key has this value from then on, whatever it
/// had before.
#[verifier::external_body]
pub(crate) fn object_put(
    object: &mut serde_json::Map<std::string::String, serde_json::Value>,
    key: String,
    value: serde_json::Value,
)
    ensures
        members(*final(object)) == members(*old(object)).insert(key@, value_text(value)),
{
    object.insert(key, value);
}

/// `serde_json::to_vec` of an object, whose result is named `object_text`: it
/// depends on the members alone, as the object keeps them in the order of
/// their keys.
#[verifier::external_body]
pub(crate) fn object_bytes(
    object: &serde_json::Map<std::string::String, serde_json::Value>,
) -> (r: Result<Vec<u8>, String>)
    ensures
        match object_text(members(*object)) {
            Ok(text) => r is Ok && r->Ok_0@ == text,
            Err(e) => r is Err && r->Err_0@ == e,
        },
{
    serde_json::to_vec(object).map_err(|e| e.to_string())
}

} // verus!
