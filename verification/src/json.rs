//! JSON text of flat objects, written by `serde_json`.

use vstd::prelude::*;

verus! {

/// The entries of a vector of string pairs, each string by its characters.
pub open spec fn pair_views(v: Seq<(String, String)>) -> Seq<(Seq<char>, Seq<char>)> {
    Seq::new(v.len(), |i: int| (v[i].0@, v[i].1@))
}

/// The compact JSON text that `serde_json` writes for an object whose members
/// are the given pairs of a name and a string value, inserted in this order.
pub uninterp spec fn json_object_text(members: Seq<(Seq<char>, Seq<char>)>) -> Seq<char>;

/// Inserts each pair as a string member into a `serde_json::Map` and returns
/// what `serde_json::Value::to_string` writes for the object. The contract
/// only names the result: member order, separators and escaping are those of
/// `serde_json`.
#[verifier::external_body]
pub(crate) fn json_object(members: &Vec<(String, String)>) -> (text: String)
    ensures
        text@ == json_object_text(pair_views(members@)),
{
    let mut object = serde_json::Map::new();
    for (name, value) in members.iter() {
        object.insert(name.clone(), serde_json::Value::String(value.clone()));
    }
    serde_json::Value::Object(object).to_string()
}

} // verus!
