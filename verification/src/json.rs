//! JSON documents as plain values.
use vstd::prelude::*;

use crate::entries::{
    distinct_keys, law_first_entry_with_the_key_gives_its_value, value_of,
};

verus! {

/// A JSON value.
///
/// Two values are `==` if they are written alike: numbers by their text, and objects by their
/// fields in the order in which they stand.
#[derive(Debug, PartialEq, Eq)]
pub enum JsonValue {
    Null,
    Bool(bool),
    /// A number, as JSON writes it.
    Number(String),
    String(String),
    Array(Vec<JsonValue>),
    /// The keys of an object with their values.
    Object(Vec<(String, JsonValue)>),
}

/// What a [`JsonValue`] stands for.
#[verifier::ext_equal]
pub enum JsonModel {
    Null,
    Bool(bool),
    Number(Seq<char>),
    String(Seq<char>),
    Array(Seq<JsonModel>),
    Object(Seq<(Seq<char>, JsonModel)>),
}

impl JsonValue {
    pub open spec fn view(&self) -> JsonModel
        decreases self,
    {
        match self {
            JsonValue::Null => JsonModel::Null,
            JsonValue::Bool(b) => JsonModel::Bool(*b),
            JsonValue::Number(text) => JsonModel::Number(text@),
            JsonValue::String(text) => JsonModel::String(text@),
            JsonValue::Array(items) => JsonModel::Array(
                Seq::new(
                    items@.len(),
                    |i: int|
                        if 0 <= i < items@.len() {
                            items@[i].view()
                        } else {
                            arbitrary()
                        },
                ),
            ),
            JsonValue::Object(fields) => JsonModel::Object(
                Seq::new(
                    fields@.len(),
                    |i: int|
                        if 0 <= i < fields@.len() {
                            (fields@[i].0@, fields@[i].1.view())
                        } else {
                            arbitrary()
                        },
                ),
            ),
        }
    }
}

impl JsonModel {
    /// Within no object does a key occur twice.
    pub open spec fn well_formed(self) -> bool
        decreases self,
    {
        match self {
            JsonModel::Array(items) => forall|i: int|
                0 <= i < items.len() ==> (#[trigger] items[i]).well_formed(),
            JsonModel::Object(fields) => {
                &&& distinct_keys(fields)
                &&& forall|i: int| 0 <= i < fields.len() ==> (#[trigger] fields[i]).1.well_formed()
            },
            _ => true,
        }
    }
}

/// The keys and values of a list of fields.
pub open spec fn fields_view(fields: Seq<(String, JsonValue)>) -> Seq<(Seq<char>, JsonModel)> {
    fields.map_values(|field: (String, JsonValue)| (field.0@, field.1@))
}

/// The fields of an object as a map from keys to values.
pub open spec fn as_map(fields: Seq<(Seq<char>, JsonModel)>) -> Map<Seq<char>, JsonModel> {
    Map::new(
        |key: Seq<char>| value_of(fields, key) is Some,
        |key: Seq<char>| value_of(fields, key)->0,
    )
}

/// An object's model holds the keys and values of its fields.
pub proof fn lemma_object_view(fields: Vec<(String, JsonValue)>)
    ensures
        JsonValue::Object(fields)@ == JsonModel::Object(fields_view(fields@)),
{
    assert(JsonValue::Object(fields)@->Object_0 =~= fields_view(fields@));
}

impl Clone for JsonValue {
    fn clone(&self) -> (copy: Self)
        ensures
            copy@ == self@,
        decreases self,
    {
        match self {
            JsonValue::Null => JsonValue::Null,
            JsonValue::Bool(b) => JsonValue::Bool(*b),
            JsonValue::Number(text) => JsonValue::Number(text.clone()),
            JsonValue::String(text) => JsonValue::String(text.clone()),
            JsonValue::Array(items) => {
                let mut copies: Vec<JsonValue> = Vec::new();
                let mut at: usize = 0;
                while at < items.len()
                    invariant
                        *self == JsonValue::Array(*items),
                        at <= items.len(),
                        copies.len() == at,
                        forall|i: int| 0 <= i < at ==> (#[trigger] copies@[i])@ == items@[i]@,
                    decreases items.len() - at,
                {
                    proof {
                        assert(decreases_to!(*self => self->Array_0));
                        assert(decreases_to!(items@ => items@[at as int]));
                    }
                    copies.push(items[at].clone());
                    at = at + 1;
                }
                let copy = JsonValue::Array(copies);
                proof {
                    assert(copy@->Array_0 =~= self@->Array_0);
                }
                copy
            },
            JsonValue::Object(fields) => {
                let mut copies: Vec<(String, JsonValue)> = Vec::new();
                let mut at: usize = 0;
                while at < fields.len()
                    invariant
                        *self == JsonValue::Object(*fields),
                        at <= fields.len(),
                        copies.len() == at,
                        forall|i: int|
                            0 <= i < at ==> (#[trigger] copies@[i]).0@ == fields@[i].0@
                                && copies@[i].1@ == fields@[i].1@,
                    decreases fields.len() - at,
                {
                    proof {
                        assert(decreases_to!(*self => self->Object_0));
                        assert(decreases_to!(fields@ => fields@[at as int]));
                    }
                    copies.push((fields[at].0.clone(), fields[at].1.clone()));
                    at = at + 1;
                }
                let copy = JsonValue::Object(copies);
                proof {
                    assert(copy@->Object_0 =~= self@->Object_0);
                }
                copy
            },
        }
    }
}

/// The value type of the `serde_json` crate.
#[verifier::external_type_specification]
#[verifier::external_body]
pub struct ExJsonValue(serde_json::Value);

/// The error type of the `serde_json` crate.
#[verifier::external_type_specification]
#[verifier::external_body]
pub struct ExJsonError(serde_json::Error);

/// What a value of the `serde_json` crate holds.
pub uninterp spec fn json_contents(value: serde_json::Value) -> JsonModel;

/// What `serde_json::from_slice` makes of bytes: the value, or the error.
pub uninterp spec fn json_document(bytes: Seq<u8>) -> Result<JsonModel, serde_json::Error>;

/// Calls `serde_json::from_slice` for a `serde_json::Value`. The value, or the error, depends on
/// the bytes alone. No I/O stream is read, and so none is to blame for the error.
#[verifier::external_body]
fn read_json(bytes: &[u8]) -> (document: Result<serde_json::Value, serde_json::Error>)
    ensures
        match document {
            Ok(value) => json_document(bytes@) matches Ok(model) && json_contents(value) == model,
            Err(err) => json_document(bytes@) matches Err(error) && err == error
                && !json_error_is_io(err),
        },
{
    serde_json::from_slice::<serde_json::Value>(bytes)
}

/// Whether an error of the `serde_json` crate comes from an I/O stream, as `is_io` says.
pub uninterp spec fn json_error_is_io(error: serde_json::Error) -> bool;

/// The message of an error of the `serde_json` crate that does not come from an I/O stream.
pub uninterp spec fn json_error_text(error: serde_json::Error) -> Seq<char>;

/// Calls `to_string` of an error, which gives its message. Of an error that comes from an I/O
/// stream nothing is claimed: the message is the system's.
#[verifier::external_body]
pub(crate) fn error_text(err: &serde_json::Error) -> (text: String)
    ensures
        !json_error_is_io(*err) ==> text@ == json_error_text(*err),
{
    err.to_string()
}

/// A value of the `serde_json` crate, one level deep.
enum JsonNode<'a> {
    Null,
    Bool(bool),
    Number(String),
    String(&'a String),
    Array(&'a Vec<serde_json::Value>),
    Object(Vec<(&'a String, &'a serde_json::Value)>),
}

/// What the values of a list hold.
spec fn items_contents(items: Seq<serde_json::Value>) -> Seq<JsonModel> {
    items.map_values(|item: serde_json::Value| json_contents(item))
}

/// The keys of a list of fields, and what their values hold.
spec fn fields_contents(fields: Seq<(&String, &serde_json::Value)>) -> Seq<
    (Seq<char>, JsonModel),
> {
    fields.map_values(|field: (&String, &serde_json::Value)| (field.0@, json_contents(*field.1)))
}

/// What a node holds.
spec fn node_contents(node: JsonNode) -> JsonModel {
    match node {
        JsonNode::Null => JsonModel::Null,
        JsonNode::Bool(b) => JsonModel::Bool(b),
        JsonNode::Number(text) => JsonModel::Number(text@),
        JsonNode::String(text) => JsonModel::String(text@),
        JsonNode::Array(items) => JsonModel::Array(items_contents(items@)),
        JsonNode::Object(fields) => JsonModel::Object(fields_contents(fields@)),
    }
}

/// Tells the variants of a `serde_json::Value` apart. The node holds what the value holds: a number
/// as its `to_string` writes it in JSON, an array's items as they stand, and an object's fields as
/// `serde_json::Map::iter` hands them out. A `serde_json::Map` is a map, so that no key occurs
/// twice among them.
#[verifier::external_body]
fn open_value<'a>(value: &'a serde_json::Value) -> (node: JsonNode<'a>)
    ensures
        node_contents(node) == json_contents(*value),
        node matches JsonNode::Object(fields) ==> distinct_keys(fields_contents(fields@)),
{
    match value {
        serde_json::Value::Null => JsonNode::Null,
        serde_json::Value::Bool(b) => JsonNode::Bool(*b),
        serde_json::Value::Number(number) => JsonNode::Number(number.to_string()),
        serde_json::Value::String(text) => JsonNode::String(text),
        serde_json::Value::Array(items) => JsonNode::Array(items),
        serde_json::Value::Object(fields) => JsonNode::Object(fields.iter().collect()),
    }
}

/// Takes a value of the `serde_json` crate apart, all the way down.
fn plain_value(value: &serde_json::Value) -> (plain: JsonValue)
    ensures
        plain@ == json_contents(*value),
        plain@.well_formed(),
    decreases json_contents(*value),
{
    let ghost contents = json_contents(*value);
    match open_value(value) {
        JsonNode::Null => JsonValue::Null,
        JsonNode::Bool(b) => JsonValue::Bool(b),
        JsonNode::Number(text) => JsonValue::Number(text),
        JsonNode::String(text) => JsonValue::String(text.clone()),
        JsonNode::Array(items) => {
            let mut plain_items: Vec<JsonValue> = Vec::new();
            let mut at: usize = 0;
            while at < items.len()
                invariant
                    contents == json_contents(*value),
                    contents == JsonModel::Array(items_contents(items@)),
                    at <= items.len(),
                    plain_items.len() == at,
                    forall|i: int|
                        0 <= i < at ==> (#[trigger] plain_items@[i])@ == json_contents(items@[i])
                            && plain_items@[i]@.well_formed(),
                decreases items.len() - at,
            {
                proof {
                    assert(decreases_to!(contents => contents->Array_0));
                    assert(decreases_to!(contents->Array_0 => contents->Array_0[at as int]));
                }
                plain_items.push(plain_value(&items[at]));
                at = at + 1;
            }
            let plain = JsonValue::Array(plain_items);
            proof {
                assert(plain@->Array_0 =~= items_contents(items@));
            }
            plain
        },
        JsonNode::Object(fields) => {
            let mut plain_fields: Vec<(String, JsonValue)> = Vec::new();
            let mut at: usize = 0;
            while at < fields.len()
                invariant
                    contents == json_contents(*value),
                    contents == JsonModel::Object(fields_contents(fields@)),
                    at <= fields.len(),
                    plain_fields.len() == at,
                    forall|i: int|
                        0 <= i < at ==> (#[trigger] plain_fields@[i]).0@ == fields@[i].0@
                            && plain_fields@[i].1@ == json_contents(*fields@[i].1)
                            && plain_fields@[i].1@.well_formed(),
                decreases fields.len() - at,
            {
                proof {
                    let inner = contents->Object_0;
                    assert(decreases_to!(contents => contents->Object_0));
                    assert(decreases_to!(inner => inner[at as int]));
                    assert(decreases_to!(inner[at as int] => inner[at as int].1));
                }
                plain_fields.push((fields[at].0.clone(), plain_value(fields[at].1)));
                at = at + 1;
            }
            let plain = JsonValue::Object(plain_fields);
            proof {
                assert(plain@->Object_0 =~= fields_contents(fields@));
            }
            plain
        },
    }
}

/// Parses a JSON document.
pub fn parse_json(bytes: &[u8]) -> (document: Result<JsonValue, serde_json::Error>)
    ensures
        match document {
            Ok(value) => json_document(bytes@) matches Ok(model) && value@ == model
                && model.well_formed(),
            Err(err) => json_document(bytes@) matches Err(error) && err == error
                && !json_error_is_io(err),
        },
{
    match read_json(bytes) {
        Ok(value) => Ok(plain_value(&value)),
        Err(err) => Err(err),
    }
}

/// The model of a value is the same kind of value with the same contents.
pub proof fn law_model_holds_what_the_value_holds(value: JsonValue)
    ensures
        match value {
            JsonValue::Null => value@ == JsonModel::Null,
            JsonValue::Bool(b) => value@ == JsonModel::Bool(b),
            JsonValue::Number(text) => value@ == JsonModel::Number(text@),
            JsonValue::String(text) => value@ == JsonModel::String(text@),
            JsonValue::Array(items) => value@ matches JsonModel::Array(models) && models.len()
                == items@.len() && forall|i: int|
                0 <= i < items@.len() ==> #[trigger] models[i] == items@[i]@,
            JsonValue::Object(fields) => value@ matches JsonModel::Object(models) && models.len()
                == fields@.len() && forall|i: int|
                0 <= i < fields@.len() ==> #[trigger] models[i] == (fields@[i].0@, fields@[i].1@),
        },
{
}

/// The model of a list of fields has the key and the value of each field, in the same order.
pub proof fn law_fields_are_modelled_one_by_one(fields: Seq<(String, JsonValue)>, i: int)
    requires
        0 <= i < fields.len(),
    ensures
        fields_view(fields).len() == fields.len(),
        fields_view(fields)[i] == (fields[i].0@, fields[i].1@),
{
}

/// The map of an object has the keys that its fields have, each with the value of the first field
/// with that key.
pub proof fn law_map_has_the_first_field_with_each_key(
    fields: Seq<(Seq<char>, JsonModel)>,
    key: Seq<char>,
    at: int,
)
    ensures
        as_map(fields).contains_key(key) <==> exists|j: int|
            0 <= j < fields.len() && (#[trigger] fields[j]).0 == key,
        0 <= at < fields.len() && fields[at].0 == key && (forall|j: int|
            0 <= j < at ==> (#[trigger] fields[j]).0 != key) ==> as_map(fields)[key]
            == fields[at].1,
{
    law_first_entry_with_the_key_gives_its_value(fields, key, at);
}

} // verus!
