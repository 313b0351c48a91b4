//! JSON documents as plain values: what the conversions between agent values
//! and JSON read and write.

use crate::float64::{i64_to_float_bits, nat_to_float_bits, Float64};
use crate::keymap::KeyMap;
use vstd::prelude::*;

verus! {

/// A JSON number as a JSON library keeps it: a non-negative integer, a
/// negative integer, or a finite float.
#[derive(Debug, Clone, Copy)]
pub enum JsonNumber {
    PosInt(u64),
    NegInt(i64),
    Float(Float64),
}

/// A JSON value.
#[derive(Debug)]
pub enum JsonValue {
    Null,
    Bool(bool),
    Number(JsonNumber),
    String(String),
    Array(Vec<JsonValue>),
    /// Members in increasing key order.
    Object(KeyMap<JsonValue>),
}

/// The mathematical model of a JSON value.
pub enum JsonModel {
    Null,
    Bool(bool),
    Number(JsonNumber),
    Str(Seq<char>),
    Array(Seq<JsonModel>),
    Object(Seq<(Seq<char>, JsonModel)>),
}

/// The model of a JSON value.
pub open spec fn json_model(j: JsonValue) -> JsonModel
    decreases j,
{
    match j {
        JsonValue::Null => JsonModel::Null,
        JsonValue::Bool(b) => JsonModel::Bool(b),
        JsonValue::Number(n) => JsonModel::Number(n),
        JsonValue::String(s) => JsonModel::Str(s@),
        JsonValue::Array(a) => JsonModel::Array(
            Seq::new(
                a@.len(),
                |i: int|
                    if 0 <= i < a@.len() {
                        json_model(a@[i])
                    } else {
                        JsonModel::Null
                    },
            ),
        ),
        JsonValue::Object(m) => JsonModel::Object(
            Seq::new(
                m.pairs().len(),
                |i: int|
                    if 0 <= i < m.pairs().len() {
                        proof {
                            m.lemma_value_decreases(i);
                        }
                        (m.pairs()[i].0, json_model(m.pairs()[i].1))
                    } else {
                        (Seq::empty(), JsonModel::Null)
                    },
            ),
        ),
    }
}

impl View for JsonValue {
    type V = JsonModel;

    open spec fn view(&self) -> JsonModel {
        json_model(*self)
    }
}

/// The models of a sequence of JSON values.
pub open spec fn json_models(vs: Seq<JsonValue>) -> Seq<JsonModel> {
    Seq::new(vs.len(), |i: int| vs[i]@)
}

/// The model of the members of a JSON object.
pub open spec fn json_pair_models(ps: Seq<(Seq<char>, JsonValue)>) -> Seq<(Seq<char>, JsonModel)> {
    Seq::new(ps.len(), |i: int| (ps[i].0, ps[i].1@))
}

pub proof fn lemma_json_array_model(a: Vec<JsonValue>)
    ensures
        JsonValue::Array(a)@ == JsonModel::Array(json_models(a@)),
{
    let v = json_model(JsonValue::Array(a));
    let s = v->Array_0;
    assert(s.len() == a@.len());
    assert forall|i: int| 0 <= i < s.len() implies s[i] == json_models(a@)[i] by {}
    assert(s =~= json_models(a@));
}

pub proof fn lemma_json_object_model(m: KeyMap<JsonValue>)
    ensures
        JsonValue::Object(m)@ == JsonModel::Object(json_pair_models(m.pairs())),
{
    let v = json_model(JsonValue::Object(m));
    let s = v->Object_0;
    assert(s.len() == m.pairs().len());
    assert forall|i: int| 0 <= i < s.len() implies s[i] == json_pair_models(m.pairs())[i] by {}
    assert(s =~= json_pair_models(m.pairs()));
}

/// The members of an object model map each key to the model of the value
/// that the object holds under it.
pub proof fn lemma_json_pair_models_map(m: KeyMap<JsonValue>)
    ensures
        forall|k: Seq<char>| #[trigger] crate::keymap::pairs_to_map(json_pair_models(m.pairs())).contains_key(k) == m.map().contains_key(k),
        forall|k: Seq<char>| m.map().contains_key(k) ==> #[trigger] crate::keymap::pairs_to_map(json_pair_models(m.pairs()))[k] == m.map()[k]@,
{
    let f = |v: JsonValue| v@;
    assert forall|i: int| 0 <= i < m.pairs().len() implies #[trigger] json_pair_models(m.pairs())[i] == (m.pairs()[i].0, f(m.pairs()[i].1)) by {}
    crate::keymap::lemma_map_of_mapped(m.pairs(), json_pair_models(m.pairs()), f);
}

/// The number as an `i64`, when it is an integer in range.
pub open spec fn number_as_i64(n: JsonNumber) -> Option<i64> {
    match n {
        JsonNumber::PosInt(u) => if u <= i64::MAX {
            Some(u as i64)
        } else {
            None
        },
        JsonNumber::NegInt(i) => Some(i),
        JsonNumber::Float(_) => None,
    }
}

/// The number as a float, by its bit pattern; integers are rounded to the
/// nearest float.
pub open spec fn number_as_f64(n: JsonNumber) -> u64 {
    match n {
        JsonNumber::PosInt(u) => nat_to_float_bits(u as nat) as u64,
        JsonNumber::NegInt(i) => i64_to_float_bits(i) as u64,
        JsonNumber::Float(f) => f.bits,
    }
}

impl JsonNumber {
    pub fn as_i64(&self) -> (r: Option<i64>)
        ensures
            r == number_as_i64(*self),
    {
        match self {
            JsonNumber::PosInt(u) => if *u <= 0x7fff_ffff_ffff_ffff {
                Some(*u as i64)
            } else {
                None
            },
            JsonNumber::NegInt(i) => Some(*i),
            JsonNumber::Float(_) => None,
        }
    }

    pub fn as_f64(&self) -> (r: Float64)
        ensures
            r.bits == number_as_f64(*self),
    {
        match self {
            JsonNumber::PosInt(u) => Float64::from_u64(*u),
            JsonNumber::NegInt(i) => Float64::from_i64(*i),
            JsonNumber::Float(f) => *f,
        }
    }
}

impl JsonValue {
    /// A copy of the value, all the way down.
    pub fn duplicate(&self) -> (r: JsonValue)
        ensures
            r@ == self@,
        decreases self,
    {
        match self {
            JsonValue::Null => JsonValue::Null,
            JsonValue::Bool(b) => JsonValue::Bool(*b),
            JsonValue::Number(n) => JsonValue::Number(*n),
            JsonValue::String(s) => JsonValue::String(s.clone()),
            JsonValue::Array(a) => {
                proof {
                    assert(decreases_to!(self => self->Array_0));
                }
                let out = duplicate_json_values(a);
                proof {
                    lemma_json_array_model(*a);
                    lemma_json_array_model(out);
                }
                JsonValue::Array(out)
            },
            JsonValue::Object(m) => {
                proof {
                    assert(decreases_to!(self => self->Object_0));
                }
                let out = duplicate_json_entries(m);
                proof {
                    lemma_json_object_model(*m);
                    lemma_json_object_model(out);
                }
                JsonValue::Object(out)
            },
        }
    }
}

/// Copies of a sequence of JSON values.
pub fn duplicate_json_values(a: &Vec<JsonValue>) -> (r: Vec<JsonValue>)
    ensures
        json_models(r@) == json_models(a@),
    decreases a,
{
    let mut out: Vec<JsonValue> = Vec::new();
    let mut i: usize = 0;
    while i < a.len()
        invariant
            i <= a@.len(),
            out@.len() == i,
            forall|t: int| 0 <= t < i ==> #[trigger] out@[t]@ == a@[t]@,
        decreases a.len() - i,
    {
        proof {
            assert(decreases_to!(a => a@[i as int]));
        }
        let v = a[i].duplicate();
        out.push(v);
        i = i + 1;
    }
    assert(json_models(out@) =~= json_models(a@));
    out
}

/// A copy of the members of a JSON object.
pub fn duplicate_json_entries(m: &KeyMap<JsonValue>) -> (r: KeyMap<JsonValue>)
    ensures
        json_pair_models(r.pairs()) == json_pair_models(m.pairs()),
    decreases m,
{
    let n = m.len();
    let mut out: KeyMap<JsonValue> = KeyMap::new();
    let mut i: usize = 0;
    while i < n
        invariant
            i <= n == m.pairs().len(),
            crate::keymap::increasing(m.pairs()),
            out.pairs().len() == i,
            forall|t: int| 0 <= t < i ==> #[trigger] out.pairs()[t].0 == m.pairs()[t].0,
            forall|t: int| 0 <= t < i ==> #[trigger] out.pairs()[t].1@ == m.pairs()[t].1@,
        decreases n - i,
    {
        proof {
            m.lemma_value_decreases(i as int);
        }
        let key = m.key_at(i).clone();
        let v = m.value_at(i).duplicate();
        proof {
            assert forall|t: int| 0 <= t < out.pairs().len() implies crate::text::chars_less(#[trigger] out.pairs()[t].0, key@) by {
                assert(crate::text::chars_less(m.pairs()[t].0, m.pairs()[i as int].0));
            }
        }
        out.push_last(key, v);
        i = i + 1;
    }
    assert(json_pair_models(out.pairs()) =~= json_pair_models(m.pairs()));
    out
}

} // verus!
