//! Reading JSON documents.
//!
//! The text is parsed by `serde_json`. What it finds is copied, one for one,
//! into a tree of the library's own, and from that tree the library makes
//! its values: there the shape of each number decides whether it becomes an
//! integer or a decimal.

use crate::value::{Decimal, RuntimeValue, ValueModel};
use vstd::prelude::*;

verus! {

/// `serde_json::Value`, a parsed document. It is carried as it is: nothing
/// is known of what is inside but what `json_content` names.
#[verifier::external_type_specification]
#[verifier::external_body]
pub struct ExJsonValue(serde_json::Value);

/// `serde_json::Error`, the reason why bytes could not be parsed. It is
/// carried as it is, and nothing is known of it.
#[verifier::external_type_specification]
#[verifier::external_body]
pub struct ExJsonError(serde_json::Error);

/// What a JSON document holds. Of a number it holds what the parser offers:
/// the number as a 64-bit signed integer, where it is one, and the bits of
/// the number as a double-precision number, where it has one.
pub enum JsonModel {
    Null,
    Bool(bool),
    Number(Option<i64>, Option<u64>),
    String(Seq<char>),
    Array(Seq<JsonModel>),
    Object(Seq<(Seq<char>, JsonModel)>),
}

/// A number of a document, as the parser offers it.
#[derive(Debug, Clone, Copy, PartialEq, Eq)]
pub struct JsonNumber {
    pub integer: Option<i64>,
    pub bits: Option<u64>,
}

/// A JSON document.
#[derive(Debug, PartialEq)]
pub enum Json {
    Null,
    Bool(bool),
    Number(JsonNumber),
    String(String),
    Array(Vec<Json>),
    Object(Vec<(String, Json)>),
}

/// What each document of `items` holds.
pub open spec fn array_model(items: Seq<Json>) -> Seq<JsonModel>
    decreases items,
{
    Seq::new(
        items.len(),
        |i: int|
            if 0 <= i < items.len() {
                json_model(items[i])
            } else {
                JsonModel::Null
            },
    )
}

/// What each member of `members` holds.
pub open spec fn object_model(members: Seq<(String, Json)>) -> Seq<(Seq<char>, JsonModel)>
    decreases members,
{
    Seq::new(
        members.len(),
        |i: int|
            if 0 <= i < members.len() {
                (members[i].0@, json_model(members[i].1))
            } else {
                (Seq::empty(), JsonModel::Null)
            },
    )
}

/// What a document holds.
pub open spec fn json_model(json: Json) -> JsonModel
    decreases json,
{
    match json {
        Json::Null => JsonModel::Null,
        Json::Bool(b) => JsonModel::Bool(b),
        Json::Number(n) => JsonModel::Number(n.integer, n.bits),
        Json::String(s) => JsonModel::String(s@),
        Json::Array(items) => JsonModel::Array(array_model(items@)),
        Json::Object(members) => JsonModel::Object(object_model(members@)),
    }
}

impl View for Json {
    type V = JsonModel;

    open spec fn view(&self) -> JsonModel {
        json_model(*self)
    }
}

/// The document that `bytes` hold, where they hold one.
pub uninterp spec fn json_parsed(bytes: Seq<u8>) -> Option<JsonModel>;

/// What a parsed document holds.
pub uninterp spec fn json_content(value: serde_json::Value) -> JsonModel;

/// Calls `serde_json::from_slice`, for a `serde_json::Value`. The contract
/// gives the outcome its name: the call succeeds where the bytes hold a
/// document, and what comes back holds that document.
#[verifier::external_body]
fn parse_document(bytes: &[u8]) -> (r: Result<serde_json::Value, serde_json::Error>)
    ensures
        r is Ok <==> json_parsed(bytes@) is Some,
        r is Ok ==> Some(json_content(r->Ok_0)) == json_parsed(bytes@),
{
    serde_json::from_slice(bytes)
}

/// Copies a `serde_json::Value` into a tree of the library, node by node;
/// for a number it takes what `Number::as_i64` and `Number::as_f64` give,
/// the latter as its bits. The contract names what the value holds.
#[verifier::external_body]
fn document_tree(value: &serde_json::Value) -> (r: Json)
    ensures
        r@ == json_content(*value),
{
    match value {
        serde_json::Value::Null => Json::Null,
        serde_json::Value::Bool(b) => Json::Bool(*b),
        serde_json::Value::Number(n) => Json::Number(
            JsonNumber { integer: n.as_i64(), bits: n.as_f64().map(|f| f.to_bits()) },
        ),
        serde_json::Value::String(s) => Json::String(s.clone()),
        serde_json::Value::Array(items) => Json::Array(items.iter().map(document_tree).collect()),
        serde_json::Value::Object(members) => Json::Object(
            members.iter().map(|(k, v)| (k.clone(), document_tree(v))).collect(),
        ),
    }
}

/// The value of a number: an integer where the number is one that fits,
/// else a decimal; null where the parser offers neither.
pub open spec fn number_value(integer: Option<i64>, bits: Option<u64>) -> ValueModel {
    match integer {
        Some(i) => ValueModel::Integer(i as int),
        None => match bits {
            Some(b) => ValueModel::Decimal(b),
            None => ValueModel::Null,
        },
    }
}

/// The value of each document of `items`.
pub open spec fn array_values(items: Seq<JsonModel>) -> Seq<ValueModel>
    decreases items,
{
    Seq::new(
        items.len(),
        |i: int|
            if 0 <= i < items.len() {
                value_of(items[i])
            } else {
                ValueModel::Null
            },
    )
}

/// The value of each member of `members`.
pub open spec fn object_values(members: Seq<(Seq<char>, JsonModel)>) -> Seq<
    (Seq<char>, ValueModel),
>
    decreases members,
{
    Seq::new(
        members.len(),
        |i: int|
            if 0 <= i < members.len() {
                (members[i].0, value_of(members[i].1))
            } else {
                (Seq::empty(), ValueModel::Null)
            },
    )
}

/// The value of a document. Nothing is lost but the difference between a
/// number that the parser could not offer and null.
pub open spec fn value_of(json: JsonModel) -> ValueModel
    decreases json,
{
    match json {
        JsonModel::Null => ValueModel::Null,
        JsonModel::Bool(b) => ValueModel::Boolean(b),
        JsonModel::Number(integer, bits) => number_value(integer, bits),
        JsonModel::String(s) => ValueModel::String(s),
        JsonModel::Array(items) => ValueModel::List(array_values(items)),
        JsonModel::Object(members) => ValueModel::Object(object_values(members)),
    }
}

/// The bytes hold no JSON document.
#[derive(Debug, Clone, Copy, PartialEq, Eq, Structural)]
pub struct NotJson;

impl JsonNumber {
    /// The value of the number.
    pub fn to_value(&self) -> (r: RuntimeValue)
        ensures
            r@ == number_value(self.integer, self.bits),
    {
        match self.integer {
            Some(i) => RuntimeValue::Integer(i),
            None => match self.bits {
                Some(b) => RuntimeValue::Decimal(Decimal::from_bits(b)),
                None => RuntimeValue::Null,
            },
        }
    }
}

impl Json {
    /// The value of the document.
    #[verifier::loop_isolation(false)]
    pub fn to_value(&self) -> (r: RuntimeValue)
        ensures
            r@ == value_of(self@),
        decreases self,
    {
        match self {
            Json::Null => RuntimeValue::Null,
            Json::Bool(b) => RuntimeValue::Boolean(*b),
            Json::Number(n) => n.to_value(),
            Json::String(s) => RuntimeValue::String(s.clone()),
            Json::Array(items) => {
                let mut out: Vec<RuntimeValue> = Vec::new();
                let mut i: usize = 0;
                while i < items.len()
                    invariant
                        i <= items.len(),
                        out@.len() == i,
                        forall|k: int| 0 <= k < i ==> out@[k]@ == value_of(items@[k]@),
                    decreases items.len() - i,
                {
                    out.push(items[i].to_value());
                    i += 1;
                }
                assert(crate::value::items_view(out@) =~= array_values(array_model(items@)));
                RuntimeValue::List(out)
            },
            Json::Object(members) => {
                let mut out: Vec<(String, RuntimeValue)> = Vec::new();
                let mut i: usize = 0;
                while i < members.len()
                    invariant
                        i <= members.len(),
                        out@.len() == i,
                        forall|k: int|
                            0 <= k < i ==> out@[k].0@ == members@[k].0@ && out@[k].1@ == value_of(
                                members@[k].1@,
                            ),
                    decreases members.len() - i,
                {
                    out.push((members[i].0.clone(), members[i].1.to_value()));
                    i += 1;
                }
                assert(crate::value::members_view(out@) =~= object_values(
                    object_model(members@),
                ));
                RuntimeValue::Object(out)
            },
        }
    }

    /// Reads the document that `bytes` hold.
    pub fn parse(bytes: &[u8]) -> (r: Result<Json, NotJson>)
        ensures
            match r {
                Ok(json) => json_parsed(bytes@) == Some(json@),
                Err(_) => json_parsed(bytes@) is None,
            },
    {
        match parse_document(bytes) {
            Ok(value) => Ok(document_tree(&value)),
            Err(_) => Err(NotJson),
        }
    }
}

/// What reading a value from bytes comes to, given the document that the
/// bytes hold.
pub open spec fn read_value(parsed: Option<JsonModel>) -> Result<ValueModel, NotJson> {
    match parsed {
        Some(json) => Ok(value_of(json)),
        None => Err(NotJson),
    }
}

/// What reading a value came to.
pub open spec fn read_model(result: Result<RuntimeValue, NotJson>) -> Result<ValueModel, NotJson> {
    match result {
        Ok(value) => Ok(value@),
        Err(e) => Err(e),
    }
}

impl RuntimeValue {
    /// Reads the value that `bytes` hold as a JSON document.
    pub fn from_json(bytes: &[u8]) -> (r: Result<RuntimeValue, NotJson>)
        ensures
            read_model(r) == read_value(json_parsed(bytes@)),
    {
        match Json::parse(bytes) {
            Ok(json) => Ok(json.to_value()),
            Err(e) => Err(e),
        }
    }
}

} // verus!
