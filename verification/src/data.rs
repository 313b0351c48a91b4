//! Agent data: a value together with the name of its kind.

use crate::convert::{conversion_matches, fits_kind, json_to_model, kind_json_model, lemma_kind_json_round_trip, value_to_json_model};
use crate::error::AgentError;
use crate::float64::{float_to_i64, i64_to_float_bits, Float64};
use crate::json::{json_pair_models, lemma_json_object_model, JsonModel, JsonValue};
use crate::keymap::{increasing, lemma_increasing_canonical, pairs_to_map, KeyMap};
use crate::text::{chars_less, str_eq, to_string};
use crate::value::{kind_name, AgentValue, ValueModel};
use vstd::prelude::*;

verus! {

broadcast use vstd::string::group_string_axioms;

/// A value and the name of its kind.
#[derive(Debug)]
pub struct AgentData {
    pub kind: String,
    pub value: AgentValue,
}

impl AgentData {
    pub fn unit() -> (r: Self)
        ensures
            r.kind@ == "unit"@,
            r.value@ == ValueModel::Unit,
    {
        AgentData { kind: to_string("unit"), value: AgentValue::unit() }
    }

    pub fn boolean(value: bool) -> (r: Self)
        ensures
            r.kind@ == "boolean"@,
            r.value@ == ValueModel::Boolean(value),
    {
        AgentData { kind: to_string("boolean"), value: AgentValue::boolean(value) }
    }

    pub fn integer(value: i64) -> (r: Self)
        ensures
            r.kind@ == "integer"@,
            r.value@ == ValueModel::Integer(value),
    {
        AgentData { kind: to_string("integer"), value: AgentValue::integer(value) }
    }

    pub fn number(value: Float64) -> (r: Self)
        ensures
            r.kind@ == "number"@,
            r.value@ == ValueModel::Number(value.bits),
    {
        AgentData { kind: to_string("number"), value: AgentValue::number(value) }
    }

    pub fn string(value: &str) -> (r: Self)
        ensures
            r.kind@ == "string"@,
            r.value@ == ValueModel::Str(value@),
    {
        AgentData { kind: to_string("string"), value: AgentValue::string(value) }
    }

    pub fn object(value: KeyMap<AgentValue>) -> (r: Self)
        ensures
            r.kind@ == "object"@,
            r.value == AgentValue::Object(value),
    {
        AgentData { kind: to_string("object"), value: AgentValue::object(value) }
    }

    pub fn object_with_kind(kind: &str, value: KeyMap<AgentValue>) -> (r: Self)
        ensures
            r.kind@ == kind@,
            r.value == AgentValue::Object(value),
    {
        AgentData { kind: to_string(kind), value: AgentValue::object(value) }
    }

    pub fn array(kind: &str, value: Vec<AgentValue>) -> (r: Self)
        ensures
            r.kind@ == kind@,
            r.value == AgentValue::Array(value),
    {
        AgentData { kind: to_string(kind), value: AgentValue::array(value) }
    }

    /// Data whose kind is the kind of its value.
    pub fn from_value(value: AgentValue) -> (r: Self)
        ensures
            r.kind@ == kind_name(value@),
            r.value == value,
    {
        let kind = value.kind();
        AgentData { kind, value }
    }

    /// Data of the given kind from a JSON document.
    pub fn from_json_with_kind(kind: &str, value: JsonValue) -> (r: Result<Self, AgentError>)
        ensures
            conversion_matches(
                match r {
                    Ok(d) => Ok(d.value),
                    Err(e) => Err(e),
                },
                kind_json_model(kind@, value@),
            ),
            r matches Ok(d) ==> d.kind@ == kind@,
    {
        match AgentValue::from_kind_json(kind, value) {
            Ok(v) => Ok(AgentData { kind: to_string(kind), value: v }),
            Err(e) => Err(e),
        }
    }

    /// Data from a JSON document, its kind that of the value.
    pub fn from_json(json_value: JsonValue) -> (r: Result<Self, AgentError>)
        ensures
            r matches Ok(d) && d.value@ == json_to_model(json_value@) && d.kind@ == kind_name(d.value@),
    {
        match AgentValue::from_json(json_value) {
            Ok(value) => Ok(AgentData::from_value(value)),
            Err(e) => Err(e),
        }
    }

    /// The JSON document of the data: an object with members `kind` and
    /// `value`.
    pub fn to_json(&self) -> (r: JsonValue)
        ensures
            r@ == JsonModel::Object(seq![("kind"@, JsonModel::Str(self.kind@)), ("value"@, value_to_json_model(self.value@))]),
    {
        let mut m: KeyMap<JsonValue> = KeyMap::new();
        let kind_member = JsonValue::String(self.kind.clone());
        let value_member = self.value.to_json();
        let kind_key = to_string("kind");
        let value_key = to_string("value");
        let ghost expected = seq![(kind_key@, kind_member), (value_key@, value_member)];
        m.insert(kind_key, kind_member);
        m.insert(value_key, value_member);
        let _ = m.len();
        proof {
            reveal_strlit("kind");
            reveal_strlit("value");
            assert(chars_less("kind"@, "value"@));
            assert(increasing(expected));
            let first = seq![(kind_key@, kind_member)];
            assert(expected.drop_last() =~= first);
            assert(first.drop_last() =~= Seq::<(Seq<char>, JsonValue)>::empty());
            assert(pairs_to_map(first) == pairs_to_map(Seq::<(Seq<char>, JsonValue)>::empty()).insert(kind_key@, kind_member));
            assert(pairs_to_map(Seq::<(Seq<char>, JsonValue)>::empty()) == Map::<Seq<char>, JsonValue>::empty());
            assert(m.map() =~= pairs_to_map(expected));
            lemma_increasing_canonical(m.pairs(), expected);
            lemma_json_object_model(m);
            assert(json_pair_models(m.pairs()) =~= seq![("kind"@, JsonModel::Str(self.kind@)), ("value"@, value_to_json_model(self.value@))]);
        }
        JsonValue::Object(m)
    }

    /// Data from its JSON document: an object whose `kind` member is a string
    /// and whose `value` member fits that kind.
    pub fn from_json_document(document: JsonValue) -> (r: Result<Self, AgentError>)
        ensures
            match document@ {
                JsonModel::Object(ps) => {
                    let members = crate::keymap::pairs_to_map(ps);
                    if !(members.contains_key("kind"@) && members["kind"@] is Str) {
                        r matches Err(AgentError::SerializationError(_))
                    } else if !members.contains_key("value"@) {
                        r matches Err(AgentError::SerializationError(_))
                    } else {
                        conversion_matches(
                            match r {
                                Ok(d) => Ok(d.value),
                                Err(e) => Err(e),
                            },
                            kind_json_model(members["kind"@]->Str_0, members["value"@]),
                        ) && (r matches Ok(d) ==> d.kind@ == members["kind"@]->Str_0)
                    }
                },
                _ => r matches Err(AgentError::SerializationError(_)),
            },
    {
        match document {
            JsonValue::Object(mut m) => {
                proof {
                    lemma_json_object_model(m);
                    crate::json::lemma_json_pair_models_map(m);
                }
                let kind = match m.get("kind") {
                    Some(JsonValue::String(k)) => k.clone(),
                    _ => {
                        return Err(AgentError::SerializationError(to_string("missing kind")));
                    },
                };
                let value = match m.remove("value") {
                    Some(v) => v,
                    None => {
                        return Err(AgentError::SerializationError(to_string("Missing value")));
                    },
                };
                AgentData::from_json_with_kind(kind.as_str(), value)
            },
            _ => Err(AgentError::SerializationError(to_string("not a JSON object"))),
        }
    }

    pub fn is_unit(&self) -> (r: bool)
        ensures
            r == (self.kind@ == "unit"@),
    {
        str_eq(self.kind.as_str(), "unit")
    }

    pub fn is_boolean(&self) -> (r: bool)
        ensures
            r == (self.kind@ == "boolean"@),
    {
        str_eq(self.kind.as_str(), "boolean")
    }

    pub fn is_integer(&self) -> (r: bool)
        ensures
            r == (self.kind@ == "integer"@),
    {
        str_eq(self.kind.as_str(), "integer")
    }

    pub fn is_number(&self) -> (r: bool)
        ensures
            r == (self.kind@ == "number"@),
    {
        str_eq(self.kind.as_str(), "number")
    }

    pub fn is_string(&self) -> (r: bool)
        ensures
            r == (self.kind@ == "string"@),
    {
        str_eq(self.kind.as_str(), "string")
    }

    pub fn is_object(&self) -> (r: bool)
        ensures
            r == (self.value is Object),
    {
        self.value.is_object()
    }

    pub fn is_array(&self) -> (r: bool)
        ensures
            r == (self.value is Array),
    {
        self.value.is_array()
    }

    pub fn as_bool(&self) -> (r: Option<bool>)
        ensures
            r == (match self.value {
                AgentValue::Boolean(b) => Some(b),
                _ => None,
            }),
    {
        self.value.as_bool()
    }

    pub fn as_i64(&self) -> (r: Option<i64>)
        ensures
            r == (match self.value {
                AgentValue::Integer(i) => Some(i),
                AgentValue::Number(f) => Some(float_to_i64(f.bits)),
                _ => None,
            }),
    {
        self.value.as_i64()
    }

    pub fn as_f64(&self) -> (r: Option<Float64>)
        ensures
            match self.value {
                AgentValue::Integer(i) => r matches Some(f) && f.bits == i64_to_float_bits(i),
                AgentValue::Number(f) => r == Some(f),
                _ => r is None,
            },
    {
        self.value.as_f64()
    }

    pub fn as_str(&self) -> (r: Option<&str>)
        ensures
            match self.value {
                AgentValue::String(s) => r matches Some(t) && t@ == s@,
                _ => r is None,
            },
    {
        self.value.as_str()
    }

    pub fn as_object(&self) -> (r: Option<&KeyMap<AgentValue>>)
        ensures
            match self.value {
                AgentValue::Object(m) => r == Some(&m),
                _ => r is None,
            },
    {
        self.value.as_object()
    }

    pub fn as_array(&self) -> (r: Option<&Vec<AgentValue>>)
        ensures
            match self.value {
                AgentValue::Array(a) => r == Some(&a),
                _ => r is None,
            },
    {
        self.value.as_array()
    }

    pub fn get(&self, key: &str) -> (r: Option<&AgentValue>)
        ensures
            match r {
                Some(v) => self.value.field(key@) == Some(*v),
                None => self.value.field(key@) is None,
            },
    {
        self.value.get(key)
    }

    pub fn get_bool(&self, key: &str) -> (r: Option<bool>)
        ensures
            r == (match self.value.field(key@) {
                Some(AgentValue::Boolean(b)) => Some(b),
                _ => None,
            }),
    {
        self.value.get_bool(key)
    }

    pub fn get_i64(&self, key: &str) -> (r: Option<i64>)
        ensures
            r == (match self.value.field(key@) {
                Some(AgentValue::Integer(i)) => Some(i),
                Some(AgentValue::Number(f)) => Some(float_to_i64(f.bits)),
                _ => None,
            }),
    {
        self.value.get_i64(key)
    }

    pub fn get_f64(&self, key: &str) -> (r: Option<Float64>)
        ensures
            match self.value.field(key@) {
                Some(AgentValue::Integer(i)) => r matches Some(f) && f.bits == i64_to_float_bits(i),
                Some(AgentValue::Number(f)) => r == Some(f),
                _ => r is None,
            },
    {
        self.value.get_f64(key)
    }

    pub fn get_str(&self, key: &str) -> (r: Option<&str>)
        ensures
            match self.value.field(key@) {
                Some(AgentValue::String(s)) => r matches Some(t) && t@ == s@,
                _ => r is None,
            },
    {
        self.value.get_str(key)
    }

    pub fn get_object(&self, key: &str) -> (r: Option<&KeyMap<AgentValue>>)
        ensures
            match self.value.field(key@) {
                Some(AgentValue::Object(m)) => r == Some(&m),
                _ => r is None,
            },
    {
        self.value.get_object(key)
    }

    pub fn get_array(&self, key: &str) -> (r: Option<&Vec<AgentValue>>)
        ensures
            match self.value.field(key@) {
                Some(AgentValue::Array(a)) => r == Some(&a),
                _ => r is None,
            },
    {
        self.value.get_array(key)
    }
}

impl Clone for AgentData {
    fn clone(&self) -> (r: Self)
        ensures
            r.kind@ == self.kind@,
            r.value@ == self.value@,
    {
        AgentData { kind: self.kind.clone(), value: self.value.duplicate() }
    }
}

impl AgentData {
    /// Equal kinds and equal values.
    pub fn equals(&self, other: &AgentData) -> (r: bool)
        ensures
            r == (self.kind@ == other.kind@ && crate::value::models_equal(self.value@, other.value@)),
    {
        str_eq(self.kind.as_str(), other.kind.as_str()) && self.value.equals(&other.value)
    }
}

impl PartialEq for AgentData {
    fn eq(&self, other: &Self) -> (r: bool) {
        self.equals(other)
    }
}

impl vstd::std_specs::cmp::PartialEqSpecImpl for AgentData {
    open spec fn obeys_eq_spec() -> bool {
        true
    }

    open spec fn eq_spec(&self, other: &Self) -> bool {
        self.kind@ == other.kind@ && crate::value::models_equal(self.value@, other.value@)
    }
}

/// Data whose value fits its kind reads back from its JSON document
/// unchanged: the document that `to_json` writes has a string `kind` member
/// with the kind, and a `value` member that converts back, under that kind,
/// to the value.
pub proof fn lemma_document_round_trip(kind: Seq<char>, v: ValueModel)
    requires
        fits_kind(kind, v),
    ensures
        ({
            let members = pairs_to_map(seq![("kind"@, JsonModel::Str(kind)), ("value"@, value_to_json_model(v))]);
            &&& members.contains_key("kind"@)
            &&& members["kind"@] == JsonModel::Str(kind)
            &&& members.contains_key("value"@)
            &&& kind_json_model(kind, members["value"@]) == Ok::<ValueModel, crate::convert::ConversionError>(v)
        }),
{
    let ps = seq![("kind"@, JsonModel::Str(kind)), ("value"@, value_to_json_model(v))];
    reveal_strlit("kind");
    reveal_strlit("value");
    assert("kind"@ != "value"@) by {
        assert("kind"@[0] != "value"@[0]);
    }
    assert(ps.drop_last().drop_last() =~= Seq::<(Seq<char>, JsonModel)>::empty());
    assert(ps.drop_last().last() == ("kind"@, JsonModel::Str(kind)));
    assert(ps.last() == ("value"@, value_to_json_model(v)));
    reveal_with_fuel(pairs_to_map, 3);
    let members = pairs_to_map(ps);
    assert(pairs_to_map(ps.drop_last().drop_last()) == Map::<Seq<char>, JsonModel>::empty());
    assert(members =~= Map::<Seq<char>, JsonModel>::empty().insert("kind"@, JsonModel::Str(kind)).insert(
        "value"@,
        value_to_json_model(v),
    ));
    lemma_kind_json_round_trip(kind, v);
}

} // verus!
