//! Reading JSON and YAML text: the text is parsed by serde_json or
//! serde_yaml_ng, and what the parser gives is taken on as a JSON document.

use crate::data::AgentData;
use crate::error::{AgentError, ErrorModel};
use crate::float64::Float64;
use crate::json::{json_models, lemma_json_array_model, lemma_json_object_model, lemma_json_pair_models_map, JsonModel, JsonNumber, JsonValue};
use crate::keymap::{pairs_to_map, KeyMap};
use crate::message::{
    history_new, json_member, message_of_json, messages_of_json, HistoryModel, MessageHistory, MessageModel,
};
use crate::text::concat;
use crate::convert::json_to_model;
use crate::value::kind_name;
use vstd::prelude::*;

verus! {

broadcast use vstd::string::group_string_axioms;

#[verifier::external_type_specification]
#[verifier::external_body]
pub struct ExSerdeJsonValue(serde_json::Value);

#[verifier::external_type_specification]
#[verifier::external_body]
pub struct ExSerdeJsonNumber(serde_json::Number);

#[verifier::external_type_specification]
#[verifier::external_body]
#[verifier::reject_recursive_types(K)]
#[verifier::reject_recursive_types(V)]
pub struct ExSerdeJsonMap<K, V>(serde_json::Map<K, V>);

/// The JSON document that JSON text denotes as serde_json reads it, or
/// serde_json's description of what is wrong with the text.
pub uninterp spec fn json_text_document(text: Seq<char>) -> Result<JsonModel, Seq<char>>;

/// The JSON document that YAML text denotes as serde_yaml_ng reads it into
/// a serde_json value, or serde_yaml_ng's description of what is wrong with
/// the text.
pub uninterp spec fn yaml_text_document(text: Seq<char>) -> Result<JsonModel, Seq<char>>;

/// Takes on a serde_json value as a JSON document, variant for variant.
///
/// Trusted: converts, with no call beyond serde_json's accessors of numbers
/// (`as_u64`, `as_i64`, `as_f64`), which tell its three kinds of numbers
/// apart. Nothing is stated of the result; `parse_json` and `parse_yaml`
/// state what their results are.
#[verifier::external_body]
fn json_of_serde(v: serde_json::Value) -> JsonValue {
    match v {
        serde_json::Value::Null => JsonValue::Null,
        serde_json::Value::Bool(b) => JsonValue::Bool(b),
        serde_json::Value::Number(n) => JsonValue::Number(number_of_serde(n)),
        serde_json::Value::String(s) => JsonValue::String(s),
        serde_json::Value::Array(a) => JsonValue::Array(a.into_iter().map(json_of_serde).collect()),
        serde_json::Value::Object(m) => JsonValue::Object(members_of_serde(m)),
    }
}

/// Takes on a serde_json number: a non-negative integer, a negative integer,
/// or a float by its bit pattern.
///
/// Trusted: calls `serde_json::Number::as_u64`, `as_i64` and `as_f64`, which
/// give the number where it is of that kind.
#[verifier::external_body]
fn number_of_serde(n: serde_json::Number) -> JsonNumber {
    match (n.as_u64(), n.as_i64()) {
        (Some(u), _) => JsonNumber::PosInt(u),
        (None, Some(i)) => JsonNumber::NegInt(i),
        _ => JsonNumber::Float(Float64::from_bits(n.as_f64().map_or(0, |f| f.to_bits()))),
    }
}

/// Takes on the members of a serde_json object, member for member.
///
/// Trusted: walks the map that serde_json hands out. Nothing is stated of
/// the result.
#[verifier::external_body]
fn members_of_serde(m: serde_json::Map<String, serde_json::Value>) -> KeyMap<JsonValue> {
    let mut out = KeyMap::new();
    for (k, v) in m {
        out.insert(k, json_of_serde(v));
    }
    out
}

/// Parses JSON text.
///
/// Trusted: calls `serde_json::from_str` into a `serde_json::Value`. The
/// document, or the text of serde_json's error, is named
/// `json_text_document`: it depends on the text alone.
#[verifier::external_body]
fn parse_json(text: &str) -> (r: Result<JsonValue, String>)
    ensures
        match r {
            Ok(j) => json_text_document(text@) == Ok::<JsonModel, Seq<char>>(j@),
            Err(e) => json_text_document(text@) == Err::<JsonModel, Seq<char>>(e@),
        },
{
    match serde_json::from_str::<serde_json::Value>(text) {
        Ok(v) => Ok(json_of_serde(v)),
        Err(e) => Err(e.to_string()),
    }
}

/// Parses YAML text into a JSON document.
///
/// Trusted: calls `serde_yaml_ng::from_str` into a `serde_json::Value`. The
/// document, or the text of serde_yaml_ng's error, is named
/// `yaml_text_document`: it depends on the text alone.
#[verifier::external_body]
fn parse_yaml(text: &str) -> (r: Result<JsonValue, String>)
    ensures
        match r {
            Ok(j) => yaml_text_document(text@) == Ok::<JsonModel, Seq<char>>(j@),
            Err(e) => yaml_text_document(text@) == Err::<JsonModel, Seq<char>>(e@),
        },
{
    match serde_yaml_ng::from_str::<serde_json::Value>(text) {
        Ok(v) => Ok(json_of_serde(v)),
        Err(e) => Err(e.to_string()),
    }
}

impl AgentData {
    /// Data from JSON text, its kind that of the value; where the text is
    /// not JSON, what the parser says is wrong with it.
    pub fn from_json_text(text: &str) -> (r: Result<Self, AgentError>)
        ensures
            match json_text_document(text@) {
                Ok(j) => r matches Ok(d) && d.value@ == json_to_model(j) && d.kind@ == kind_name(d.value@),
                Err(e) => r matches Err(x) && x@ == ErrorModel::InvalidValue(e),
            },
    {
        match parse_json(text) {
            Ok(j) => AgentData::from_json(j),
            Err(e) => Err(AgentError::InvalidValue(e)),
        }
    }

    /// Data from YAML text, its kind that of the value; where the text is
    /// not YAML, what the parser says is wrong with it.
    pub fn from_yaml_text(text: &str) -> (r: Result<Self, AgentError>)
        ensures
            match yaml_text_document(text@) {
                Ok(j) => r matches Ok(d) && d.value@ == json_to_model(j) && d.kind@ == kind_name(d.value@),
                Err(e) => r matches Err(x) && x@ == ErrorModel::InvalidValue(e),
            },
    {
        match parse_yaml(text) {
            Ok(j) => AgentData::from_json(j),
            Err(e) => Err(AgentError::InvalidValue(e)),
        }
    }
}

/// The member `key` of an object model.
pub open spec fn model_member(j: JsonModel, key: Seq<char>) -> Option<JsonModel> {
    match j {
        JsonModel::Object(ps) => if pairs_to_map(ps).contains_key(key) {
            Some(pairs_to_map(ps)[key])
        } else {
            None
        },
        _ => None,
    }
}

/// The message that a JSON document describes, by its model: an object
/// with the string members "role" and "content", and optionally "id", a
/// string or null; or what is wrong with it.
pub open spec fn message_of_json_model(j: JsonModel) -> Result<MessageModel, Seq<char>> {
    match j {
        JsonModel::Object(_) => match model_member(j, "role"@) {
            None => Err("missing field `role`"@),
            Some(JsonModel::Str(r)) => match model_member(j, "content"@) {
                None => Err("missing field `content`"@),
                Some(JsonModel::Str(c)) => match model_member(j, "id"@) {
                    None => Ok(MessageModel { role: r, content: c, id: None }),
                    Some(JsonModel::Null) => Ok(MessageModel { role: r, content: c, id: None }),
                    Some(JsonModel::Str(i)) => Ok(MessageModel { role: r, content: c, id: Some(i) }),
                    Some(_) => Err("invalid type: expected a string"@),
                },
                Some(_) => Err("invalid type: expected a string"@),
            },
            Some(_) => Err("invalid type: expected a string"@),
        },
        _ => Err("invalid type: expected struct Message"@),
    }
}

/// The messages that JSON documents describe, or what is wrong with the
/// first that describes none.
pub open spec fn messages_of_json_models(js: Seq<JsonModel>) -> Result<Seq<MessageModel>, Seq<char>>
    decreases js.len(),
{
    if js.len() == 0 {
        Ok(Seq::empty())
    } else {
        match messages_of_json_models(js.drop_last()) {
            Err(e) => Err(e),
            Ok(ms) => match message_of_json_model(js.last()) {
                Err(e) => Err(e),
                Ok(m) => Ok(ms.push(m)),
            },
        }
    }
}

/// The history that a JSON document lists, as `MessageHistory::from_json`
/// makes it: the messages of an array, without a size limit.
pub open spec fn history_of_json(j: JsonModel) -> Result<HistoryModel, ErrorModel> {
    match j {
        JsonModel::Array(a) => match messages_of_json_models(a) {
            Ok(ms) => Ok(history_new(ms, 0)),
            Err(d) => Err(ErrorModel::InvalidValue("Invalid message format: "@ + d)),
        },
        _ => Err(ErrorModel::InvalidValue("Expected JSON array for MessageHistory"@)),
    }
}

/// The model of a history result.
pub open spec fn history_result(r: Result<MessageHistory, AgentError>) -> Result<HistoryModel, ErrorModel> {
    match r {
        Ok(h) => Ok(h@),
        Err(e) => Err(e@),
    }
}

/// A member of an object is the member of its model, by its model.
proof fn lemma_member_model(j: JsonValue, key: Seq<char>)
    ensures
        model_member(j@, key) == (match json_member(j, key) {
            Some(v) => Some(v@),
            None => None::<JsonModel>,
        }),
{
    match j {
        JsonValue::Object(m) => {
            lemma_json_object_model(m);
            lemma_json_pair_models_map(m);
        },
        _ => {},
    }
}

/// Reading a message from a document and from its model agree.
proof fn lemma_message_of_json_model(j: JsonValue)
    ensures
        message_of_json(j) == message_of_json_model(j@),
{
    lemma_member_model(j, "role"@);
    lemma_member_model(j, "content"@);
    lemma_member_model(j, "id"@);
    match j {
        JsonValue::Object(m) => {
            lemma_json_object_model(m);
        },
        JsonValue::Array(a) => {
            lemma_json_array_model(a);
        },
        _ => {},
    }
}

/// Reading messages from documents and from their models agree.
proof fn lemma_messages_of_json_models(js: Seq<JsonValue>)
    ensures
        messages_of_json(js) == messages_of_json_models(json_models(js)),
    decreases js.len(),
{
    if js.len() > 0 {
        lemma_messages_of_json_models(js.drop_last());
        assert(json_models(js.drop_last()) =~= json_models(js).drop_last());
        lemma_message_of_json_model(js.last());
    }
}

impl MessageHistory {
    /// The history that JSON text lists, as `from_json` makes it; where the
    /// text is not JSON, what the parser says is wrong with it.
    pub fn parse(s: &str) -> (r: Result<Self, AgentError>)
        ensures
            match json_text_document(s@) {
                Ok(j) => history_result(r) == history_of_json(j),
                Err(d) => r matches Err(e) && e@ == ErrorModel::InvalidValue(
                    "Failed to parse JSON for MessageHistory: "@ + d,
                ),
            },
    {
        match parse_json(s) {
            Err(d) => Err(AgentError::InvalidValue(concat("Failed to parse JSON for MessageHistory: ", d.as_str()))),
            Ok(j) => {
                proof {
                    if j is Array {
                        lemma_json_array_model(j->Array_0);
                        lemma_messages_of_json_models(j->Array_0@);
                    }
                    if j is Object {
                        lemma_json_object_model(j->Object_0);
                    }
                }
                MessageHistory::from_json(j)
            },
        }
    }
}

} // verus!
