//! JSON documents.

use vstd::prelude::*;

verus! {

/// `serde_json::Value`: a JSON document that was read or is to be sent.
#[verifier::external_type_specification]
#[verifier::external_body]
pub struct ExValue(serde_json::Value);

/// `serde_json::Map`: the members of a JSON object.
#[verifier::external_type_specification]
#[verifier::external_body]
#[verifier::reject_recursive_types(K)]
#[verifier::reject_recursive_types(V)]
pub struct ExMap<K, V>(serde_json::Map<K, V>);

/// What a JSON document says. A number is the text that it is written as.
pub enum Json {
    Null,
    Bool(bool),
    Number(Seq<char>),
    Text(Seq<char>),
    Array(Seq<Json>),
    Object(Map<Seq<char>, Json>),
}

/// What a `serde_json::Value` says.
pub uninterp spec fn document(value: serde_json::Value) -> Json;

/// The members that a `serde_json::Map` holds, each under its key.
pub uninterp spec fn members(
    object: serde_json::Map<String, serde_json::Value>,
) -> Map<Seq<char>, Json>;

/// `serde_json::Value::clone`: the copy says what the original says.
pub assume_specification[ <serde_json::Value as Clone>::clone ](
    value: &serde_json::Value,
) -> (copy: serde_json::Value)
    ensures
        document(copy) == document(*value),
;

/// `serde_json::Value::as_object_mut`: the members of an object, to be changed
/// in place; what they are when the borrow ends, the object then holds. Of a
/// document that is no object there is nothing to change.
#[verifier::external_body]
fn as_object_mut(
    value: &mut serde_json::Value,
) -> (object: Option<&mut serde_json::Map<String, serde_json::Value>>)
    ensures
        match document(*old(value)) {
            Json::Object(before) => {
                &&& object matches Some(map)
                &&& members(*map) == before
                &&& document(*final(value)) == Json::Object(members(*final(map)))
            },
            _ => object is None && *final(value) == *old(value),
        },
{
    value.as_object_mut()
}

/// `serde_json::Map::insert`, of `Value::Bool`: the member is added under its
/// key, in place of the one that was there; every other member stays.
#[verifier::external_body]
fn insert_bool(object: &mut serde_json::Map<String, serde_json::Value>, key: String, flag: bool)
    ensures
        members(*final(object)) == members(*old(object)).insert(key@, Json::Bool(flag)),
{
    object.insert(key, serde_json::Value::Bool(flag));
}

/// A request that asks for a dry run: an object has its member `dryRun` set to
/// true, anything else is left as it is.
pub open spec fn with_dry_run(payload: Json) -> Json {
    match payload {
        Json::Object(before) => Json::Object(before.insert("dryRun"@, Json::Bool(true))),
        _ => payload,
    }
}

/// Asks for a dry run in place of the query.
pub fn request_dry_run(payload: serde_json::Value) -> (marked: serde_json::Value)
    ensures
        document(marked) == with_dry_run(document(payload)),
{
    let mut marked = payload;
    if let Some(object) = as_object_mut(&mut marked) {
        insert_bool(object, "dryRun".to_string(), true);
    }
    marked
}

/// An object that asks for a dry run says so, keeps its other members, and is
/// not changed by asking again.
pub proof fn law_a_dry_run_is_asked_for(payload: Map<Seq<char>, Json>)
    ensures
        with_dry_run(Json::Object(payload)) matches Json::Object(marked) && {
            &&& marked.contains_key("dryRun"@)
            &&& marked["dryRun"@] == Json::Bool(true)
            &&& marked.remove("dryRun"@) == payload.remove("dryRun"@)
        },
        with_dry_run(with_dry_run(Json::Object(payload))) == with_dry_run(Json::Object(payload)),
{
    let marked = payload.insert("dryRun"@, Json::Bool(true));
    assert(marked.insert("dryRun"@, Json::Bool(true)) =~= marked);
    assert(marked.remove("dryRun"@) =~= payload.remove("dryRun"@));
}

/// What asks for a dry run says so under `dryRun`, and says everything else as
/// before; what is no object has no members to say it with and stays as it is.
pub proof fn law_a_dry_run_changes_nothing_else(
    payload: serde_json::Value,
    marked: serde_json::Value,
    key: Seq<char>,
)
    requires
        call_ensures(request_dry_run, (payload,), marked),
    ensures
        match document(payload) {
            Json::Object(before) => document(marked) matches Json::Object(after) && {
                &&& after.contains_key(key) == (before.contains_key(key) || key == "dryRun"@)
                &&& key == "dryRun"@ ==> after[key] == Json::Bool(true)
                &&& key != "dryRun"@ && before.contains_key(key) ==> after[key] == before[key]
            },
            _ => document(marked) == document(payload),
        },
{
}

} // verus!
