//! Conversions between agent values and JSON.

use crate::error::AgentError;
use crate::float64::{float_to_i64, is_finite_bits, Float64};
use crate::json::{
    json_models, json_pair_models, lemma_json_array_model, lemma_json_object_model,
    number_as_f64, number_as_i64, JsonModel, JsonNumber, JsonValue,
};
use crate::keymap::{increasing, KeyMap};
use crate::text::{chars_less, str_eq, to_string};
use crate::value::{lemma_array_model, lemma_object_model, models, pair_models, AgentValue, ValueModel};
use vstd::prelude::*;

verus! {

broadcast use vstd::string::group_string_axioms;

/// Why a JSON value does not fit a kind.
pub enum ConversionError {
    /// An element of an array does not fit the kind named.
    InvalidArrayValue(Seq<char>),
    /// The value does not fit the kind named.
    InvalidValue(Seq<char>),
}

/// The value that a JSON value denotes when no kind is given: integers that
/// fit `i64` become integers, other numbers floats.
pub open spec fn json_to_model(j: JsonModel) -> ValueModel
    decreases j,
{
    match j {
        JsonModel::Null => ValueModel::Unit,
        JsonModel::Bool(b) => ValueModel::Boolean(b),
        JsonModel::Number(n) => match number_as_i64(n) {
            Some(i) => ValueModel::Integer(i),
            None => ValueModel::Number(number_as_f64(n)),
        },
        JsonModel::Str(s) => ValueModel::Str(s),
        JsonModel::Array(a) => ValueModel::Array(
            Seq::new(
                a.len(),
                |i: int|
                    if 0 <= i < a.len() {
                        json_to_model(a[i])
                    } else {
                        ValueModel::Unit
                    },
            ),
        ),
        JsonModel::Object(ps) => ValueModel::Object(
            Seq::new(
                ps.len(),
                |i: int|
                    if 0 <= i < ps.len() {
                        (ps[i].0, json_to_model(ps[i].1))
                    } else {
                        (Seq::empty(), ValueModel::Unit)
                    },
            ),
        ),
    }
}

/// A number read as an integer: integers as they are, floats rounded toward
/// zero.
pub open spec fn integer_of_number(n: JsonNumber) -> i64 {
    match number_as_i64(n) {
        Some(i) => i,
        None => float_to_i64(number_as_f64(n)),
    }
}

/// The kinds whose values are single JSON scalars.
#[derive(Clone, Copy, PartialEq, Eq, Structural)]
pub enum ScalarKind {
    Boolean,
    Integer,
    Number,
    Str,
}

/// The kind name of a scalar kind.
pub open spec fn scalar_kind_name(k: ScalarKind) -> Seq<char> {
    match k {
        ScalarKind::Boolean => "boolean"@,
        ScalarKind::Integer => "integer"@,
        ScalarKind::Number => "number"@,
        ScalarKind::Str => "string"@,
    }
}

/// The value of a scalar kind that a JSON value denotes, if it fits.
pub open spec fn scalar_fit(k: ScalarKind, j: JsonModel) -> Option<ValueModel> {
    match (k, j) {
        (ScalarKind::Boolean, JsonModel::Bool(b)) => Some(ValueModel::Boolean(b)),
        (ScalarKind::Integer, JsonModel::Number(n)) => Some(ValueModel::Integer(integer_of_number(n))),
        (ScalarKind::Number, JsonModel::Number(n)) => Some(ValueModel::Number(number_as_f64(n))),
        (ScalarKind::Str, JsonModel::Str(s)) => Some(ValueModel::Str(s)),
        _ => None,
    }
}

/// A JSON value under a scalar kind: a fitting scalar, or an array all of
/// whose elements fit.
pub open spec fn scalar_kind_model(k: ScalarKind, j: JsonModel) -> Result<ValueModel, ConversionError> {
    match j {
        JsonModel::Array(a) => if forall|i: int| 0 <= i < a.len() ==> (#[trigger] scalar_fit(k, a[i])) is Some {
            Ok(ValueModel::Array(Seq::new(a.len(), |i: int| scalar_fit(k, a[i])->Some_0)))
        } else {
            Err(ConversionError::InvalidArrayValue(scalar_kind_name(k)))
        },
        _ => match scalar_fit(k, j) {
            Some(m) => Ok(m),
            None => Err(ConversionError::InvalidValue(scalar_kind_name(k))),
        },
    }
}

/// The value that a JSON value denotes under a kind name.
pub open spec fn kind_json_model(kind: Seq<char>, j: JsonModel) -> Result<ValueModel, ConversionError>
    decreases j,
{
    if kind == "unit"@ {
        match j {
            JsonModel::Array(a) => Ok(ValueModel::Array(Seq::new(a.len(), |i: int| ValueModel::Unit))),
            _ => Ok(ValueModel::Unit),
        }
    } else if kind == "boolean"@ {
        scalar_kind_model(ScalarKind::Boolean, j)
    } else if kind == "integer"@ {
        scalar_kind_model(ScalarKind::Integer, j)
    } else if kind == "number"@ {
        scalar_kind_model(ScalarKind::Number, j)
    } else if kind == "string"@ {
        scalar_kind_model(ScalarKind::Str, j)
    } else {
        match j {
            JsonModel::Array(a) => match kind_array_model(kind, a) {
                Ok(ms) => Ok(ValueModel::Array(ms)),
                Err(e) => Err(e),
            },
            _ => Ok(json_to_model(j)),
        }
    }
}

/// The values that the elements of a JSON array denote under a kind name;
/// the first element that fails decides the error.
pub open spec fn kind_array_model(kind: Seq<char>, a: Seq<JsonModel>) -> Result<Seq<ValueModel>, ConversionError>
    decreases a,
{
    if a.len() == 0 {
        Ok(Seq::empty())
    } else {
        match kind_json_model(kind, a[0]) {
            Err(e) => Err(e),
            Ok(m) => {
                proof {
                    assert(decreases_to!(a => a.subrange(1, a.len() as int)));
                }
                match kind_array_model(kind, a.subrange(1, a.len() as int)) {
                    Err(e) => Err(e),
                    Ok(ms) => Ok(seq![m] + ms),
                }
            },
        }
    }
}

/// Whether a conversion result is the one a specification result describes.
pub open spec fn conversion_matches(
    r: Result<AgentValue, AgentError>,
    expected: Result<ValueModel, ConversionError>,
) -> bool {
    match expected {
        Ok(m) => r matches Ok(v) && v@ == m,
        Err(ConversionError::InvalidArrayValue(s)) => r matches Err(AgentError::InvalidArrayValue(t)) && t@ == s,
        Err(ConversionError::InvalidValue(s)) => r matches Err(AgentError::InvalidValue(t)) && t@ == s,
    }
}

/// The value a JSON value denotes when no kind is given.
fn value_from_json(j: &JsonValue) -> (r: AgentValue)
    ensures
        r@ == json_to_model(j@),
    decreases j,
{
    match j {
        JsonValue::Null => {
            assert(j@ == JsonModel::Null);
            AgentValue::Unit
        },
        JsonValue::Bool(b) => AgentValue::Boolean(*b),
        JsonValue::Number(n) => match n.as_i64() {
            Some(i) => AgentValue::Integer(i),
            None => AgentValue::Number(n.as_f64()),
        },
        JsonValue::String(s) => AgentValue::String(s.clone()),
        JsonValue::Array(a) => {
            proof {
                lemma_json_array_model(*a);
            }
            let mut out: Vec<AgentValue> = Vec::new();
            let mut i: usize = 0;
            while i < a.len()
                invariant
                    *j == JsonValue::Array(*a),
                    i <= a@.len(),
                    out@.len() == i,
                    forall|t: int| 0 <= t < i ==> #[trigger] out@[t]@ == json_to_model(a@[t]@),
                decreases a.len() - i,
            {
                proof {
                    assert(*j == JsonValue::Array(*a));
                    assert(decreases_to!(a => a@[i as int]));
                    assert(j->Array_0 == *a);
                    assert(decreases_to!(j => j->Array_0));
                    assert(decreases_to!(j => a@[i as int]));
                }
                let v = value_from_json(&a[i]);
                out.push(v);
                i = i + 1;
            }
            proof {
                lemma_array_model(out);
                let jm = json_to_model(j@);
                let sm = jm->Array_0;
                assert(sm.len() == out@.len());
                assert forall|t: int| 0 <= t < sm.len() implies sm[t] == models(out@)[t] by {
                    assert(json_models(a@)[t] == a@[t]@);
                }
                assert(sm =~= models(out@));
            }
            AgentValue::Array(out)
        },
        JsonValue::Object(m) => {
            proof {
                lemma_json_object_model(*m);
            }
            let n = m.len();
            let mut out: KeyMap<AgentValue> = KeyMap::new();
            let mut i: usize = 0;
            while i < n
                invariant
                    *j == JsonValue::Object(*m),
                    i <= n == m.pairs().len(),
                    increasing(m.pairs()),
                    out.pairs().len() == i,
                    forall|t: int| 0 <= t < i ==> #[trigger] out.pairs()[t].0 == m.pairs()[t].0,
                    forall|t: int| 0 <= t < i ==> #[trigger] out.pairs()[t].1@ == json_to_model(m.pairs()[t].1@),
                decreases n - i,
            {
                let key = m.key_at(i).clone();
                let jv = m.value_at(i);
                proof {
                    m.lemma_value_decreases(i as int);
                    assert(j->Object_0 == *m);
                    assert(decreases_to!(j => j->Object_0));
                }
                let v = value_from_json(jv);
                proof {
                    assert forall|t: int| 0 <= t < out.pairs().len() implies chars_less(#[trigger] out.pairs()[t].0, key@) by {
                        assert(chars_less(m.pairs()[t].0, m.pairs()[i as int].0));
                    }
                }
                out.push_last(key, v);
                i = i + 1;
            }
            proof {
                lemma_object_model(out);
                let jm = json_to_model(j@);
                let sm = jm->Object_0;
                assert(sm.len() == out.pairs().len());
                assert forall|t: int| 0 <= t < sm.len() implies sm[t] == pair_models(out.pairs())[t] by {
                    assert(json_pair_models(m.pairs())[t] == (m.pairs()[t].0, m.pairs()[t].1@));
                }
                assert(sm =~= pair_models(out.pairs()));
            }
            AgentValue::Object(out)
        },
    }
}

/// The kind name of a scalar kind.
fn scalar_name(k: ScalarKind) -> (r: String)
    ensures
        r@ == scalar_kind_name(k),
{
    match k {
        ScalarKind::Boolean => to_string("boolean"),
        ScalarKind::Integer => to_string("integer"),
        ScalarKind::Number => to_string("number"),
        ScalarKind::Str => to_string("string"),
    }
}

/// The value of a scalar kind that a JSON value denotes, if it fits.
fn scalar_value(k: ScalarKind, j: &JsonValue) -> (r: Option<AgentValue>)
    ensures
        match r {
            Some(v) => scalar_fit(k, j@) == Some(v@),
            None => scalar_fit(k, j@) is None,
        },
{
    match (k, j) {
        (ScalarKind::Boolean, JsonValue::Bool(b)) => Some(AgentValue::Boolean(*b)),
        (ScalarKind::Integer, JsonValue::Number(n)) => match n.as_i64() {
            Some(i) => Some(AgentValue::Integer(i)),
            None => Some(AgentValue::Integer(n.as_f64().to_i64())),
        },
        (ScalarKind::Number, JsonValue::Number(n)) => Some(AgentValue::Number(n.as_f64())),
        (ScalarKind::Str, JsonValue::String(s)) => Some(AgentValue::String(s.clone())),
        _ => None,
    }
}

/// A JSON value under a scalar kind.
fn convert_scalar(k: ScalarKind, j: &JsonValue) -> (r: Result<AgentValue, AgentError>)
    ensures
        conversion_matches(r, scalar_kind_model(k, j@)),
{
    match j {
        JsonValue::Array(a) => {
            proof {
                lemma_json_array_model(*a);
            }
            let mut out: Vec<AgentValue> = Vec::new();
            let mut i: usize = 0;
            while i < a.len()
                invariant
                    *j == JsonValue::Array(*a),
                    j@ == JsonModel::Array(json_models(a@)),
                    i <= a@.len(),
                    out@.len() == i,
                    forall|t: int| 0 <= t < i ==> #[trigger] scalar_fit(k, a@[t]@) == Some(out@[t]@),
                decreases a.len() - i,
            {
                match scalar_value(k, &a[i]) {
                    Some(v) => {
                        out.push(v);
                    },
                    None => {
                        proof {
                            assert(json_models(a@)[i as int] == a@[i as int]@);
                        }
                        return Err(AgentError::InvalidArrayValue(scalar_name(k)));
                    },
                }
                i = i + 1;
            }
            proof {
                lemma_array_model(out);
                let jm = json_models(a@);
                assert forall|t: int| 0 <= t < jm.len() implies (#[trigger] scalar_fit(k, jm[t])) is Some by {
                    assert(jm[t] == a@[t]@);
                }
                assert(models(out@) =~= Seq::new(jm.len(), |t: int| scalar_fit(k, jm[t])->Some_0));
            }
            Ok(AgentValue::Array(out))
        },
        _ => match scalar_value(k, j) {
            Some(v) => Ok(v),
            None => Err(AgentError::InvalidValue(scalar_name(k))),
        },
    }
}

/// When the first `i` elements of an array convert, the conversion of the
/// array is theirs followed by that of the rest.
proof fn lemma_kind_array_prefix(kind: Seq<char>, a: Seq<JsonModel>, i: int)
    requires
        0 <= i <= a.len(),
        forall|t: int| 0 <= t < i ==> (#[trigger] kind_json_model(kind, a[t])) is Ok,
    ensures
        kind_array_model(kind, a) == match kind_array_model(kind, a.subrange(i, a.len() as int)) {
            Ok(ms) => Ok(Seq::new(i as nat, |t: int| kind_json_model(kind, a[t])->Ok_0) + ms),
            Err(e) => Err(e),
        },
    decreases i,
{
    if i == 0 {
        assert(a.subrange(0, a.len() as int) =~= a);
        match kind_array_model(kind, a) {
            Ok(ms) => {
                assert(Seq::new(0, |t: int| kind_json_model(kind, a[t])->Ok_0) + ms =~= ms);
            },
            Err(_) => {},
        }
    } else {
        let rest = a.subrange(1, a.len() as int);
        assert forall|t: int| 0 <= t < i - 1 implies (#[trigger] kind_json_model(kind, rest[t])) is Ok by {
            assert(rest[t] == a[t + 1]);
            assert(kind_json_model(kind, a[t + 1]) is Ok);
        }
        lemma_kind_array_prefix(kind, rest, i - 1);
        assert(rest.subrange(i - 1, rest.len() as int) =~= a.subrange(i, a.len() as int));
        assert(kind_json_model(kind, a[0]) is Ok);
        match kind_array_model(kind, a.subrange(i, a.len() as int)) {
            Ok(ms) => {
                let head = Seq::new(i as nat, |t: int| kind_json_model(kind, a[t])->Ok_0);
                let tail = Seq::new((i - 1) as nat, |t: int| kind_json_model(kind, rest[t])->Ok_0);
                assert(seq![kind_json_model(kind, a[0])->Ok_0] + (tail + ms) =~= head + ms);
            },
            Err(_) => {},
        }
    }
}

/// The value that a JSON value denotes under a kind name.
fn value_from_kind_json(kind: &str, j: &JsonValue) -> (r: Result<AgentValue, AgentError>)
    ensures
        conversion_matches(r, kind_json_model(kind@, j@)),
    decreases j,
{
    if str_eq(kind, "unit") {
        match j {
            JsonValue::Array(a) => {
                proof {
                    lemma_json_array_model(*a);
                }
                let mut out: Vec<AgentValue> = Vec::new();
                let mut i: usize = 0;
                while i < a.len()
                    invariant
                        i <= a@.len(),
                        out@.len() == i,
                        forall|t: int| 0 <= t < i ==> #[trigger] out@[t]@ == ValueModel::Unit,
                    decreases a.len() - i,
                {
                    out.push(AgentValue::Unit);
                    i = i + 1;
                }
                proof {
                    lemma_array_model(out);
                    assert(models(out@) =~= Seq::new(json_models(a@).len(), |t: int| ValueModel::Unit));
                }
                Ok(AgentValue::Array(out))
            },
            _ => Ok(AgentValue::Unit),
        }
    } else if str_eq(kind, "boolean") {
        convert_scalar(ScalarKind::Boolean, j)
    } else if str_eq(kind, "integer") {
        convert_scalar(ScalarKind::Integer, j)
    } else if str_eq(kind, "number") {
        convert_scalar(ScalarKind::Number, j)
    } else if str_eq(kind, "string") {
        convert_scalar(ScalarKind::Str, j)
    } else {
        match j {
            JsonValue::Array(a) => {
                proof {
                    lemma_json_array_model(*a);
                }
                let ghost jm = json_models(a@);
                let ghost expected = kind_json_model(kind@, j@);
                assert(expected == match kind_array_model(kind@, jm) {
                    Ok(ms) => Ok(ValueModel::Array(ms)),
                    Err(e) => Err(e),
                });
                let mut out: Vec<AgentValue> = Vec::new();
                let mut i: usize = 0;
                while i < a.len()
                    invariant
                        *j == JsonValue::Array(*a),
                        j@ == JsonModel::Array(jm),
                        expected == kind_json_model(kind@, j@),
                        expected == match kind_array_model(kind@, jm) {
                            Ok(ms) => Ok(ValueModel::Array(ms)),
                            Err(e) => Err(e),
                        },
                        jm == json_models(a@),
                        i <= a@.len(),
                        out@.len() == i,
                        forall|t: int| 0 <= t < i ==> #[trigger] kind_json_model(kind@, jm[t]) == Ok::<ValueModel, ConversionError>(out@[t]@),
                    decreases a.len() - i,
                {
                    proof {
                        assert(decreases_to!(a => a@[i as int]));
                        assert(decreases_to!(j => j->Array_0));
                    }
                    let converted = value_from_kind_json(kind, &a[i]);
                    assert(jm[i as int] == a@[i as int]@);
                    match converted {
                        Ok(v) => {
                            out.push(v);
                        },
                        Err(e) => {
                            proof {
                                lemma_kind_array_prefix(kind@, jm, i as int);
                                let rest = jm.subrange(i as int, jm.len() as int);
                                assert(rest[0] == jm[i as int]);
                            }
                            return Err(e);
                        },
                    }
                    i = i + 1;
                }
                proof {
                    lemma_kind_array_prefix(kind@, jm, i as int);
                    assert(jm.subrange(i as int, jm.len() as int) =~= Seq::<JsonModel>::empty());
                    lemma_array_model(out);
                    assert(models(out@) =~= Seq::new(i as nat, |t: int| kind_json_model(kind@, jm[t])->Ok_0) + Seq::<ValueModel>::empty());
                }
                Ok(AgentValue::Array(out))
            },
            _ => Ok(value_from_json(j)),
        }
    }
}

/// The JSON document of a value: integers as integers, finite floats as
/// floats, and floats without a JSON form (infinities, NaN) as null.
pub open spec fn value_to_json_model(v: ValueModel) -> JsonModel
    decreases v,
{
    match v {
        ValueModel::Unit => JsonModel::Null,
        ValueModel::Boolean(b) => JsonModel::Bool(b),
        ValueModel::Integer(i) => JsonModel::Number(
            if i < 0 {
                JsonNumber::NegInt(i)
            } else {
                JsonNumber::PosInt(i as u64)
            },
        ),
        ValueModel::Number(bits) => if is_finite_bits(bits) {
            JsonModel::Number(JsonNumber::Float(Float64 { bits }))
        } else {
            JsonModel::Null
        },
        ValueModel::Str(s) => JsonModel::Str(s),
        ValueModel::Array(a) => JsonModel::Array(
            Seq::new(
                a.len(),
                |i: int|
                    if 0 <= i < a.len() {
                        value_to_json_model(a[i])
                    } else {
                        JsonModel::Null
                    },
            ),
        ),
        ValueModel::Object(ps) => JsonModel::Object(
            Seq::new(
                ps.len(),
                |i: int|
                    if 0 <= i < ps.len() {
                        (ps[i].0, value_to_json_model(ps[i].1))
                    } else {
                        (Seq::empty(), JsonModel::Null)
                    },
            ),
        ),
    }
}

fn value_to_json(v: &AgentValue) -> (r: JsonValue)
    ensures
        r@ == value_to_json_model(v@),
    decreases v,
{
    match v {
        AgentValue::Unit => JsonValue::Null,
        AgentValue::Boolean(b) => JsonValue::Bool(*b),
        AgentValue::Integer(i) => if *i < 0 {
            JsonValue::Number(JsonNumber::NegInt(*i))
        } else {
            JsonValue::Number(JsonNumber::PosInt(*i as u64))
        },
        AgentValue::Number(f) => if f.is_finite() {
            JsonValue::Number(JsonNumber::Float(*f))
        } else {
            JsonValue::Null
        },
        AgentValue::String(s) => JsonValue::String(s.clone()),
        AgentValue::Array(a) => {
            proof {
                lemma_array_model(*a);
            }
            let mut out: Vec<JsonValue> = Vec::new();
            let mut i: usize = 0;
            while i < a.len()
                invariant
                    *v == AgentValue::Array(*a),
                    i <= a@.len(),
                    out@.len() == i,
                    forall|t: int| 0 <= t < i ==> #[trigger] out@[t]@ == value_to_json_model(a@[t]@),
                decreases a.len() - i,
            {
                proof {
                    assert(decreases_to!(a => a@[i as int]));
                    assert(decreases_to!(v => v->Array_0));
                }
                let jv = value_to_json(&a[i]);
                out.push(jv);
                i = i + 1;
            }
            proof {
                lemma_json_array_model(out);
                let vm = value_to_json_model(v@);
                let sm = vm->Array_0;
                assert(sm.len() == out@.len());
                assert forall|t: int| 0 <= t < sm.len() implies sm[t] == json_models(out@)[t] by {
                    assert(models(a@)[t] == a@[t]@);
                }
                assert(sm =~= json_models(out@));
            }
            JsonValue::Array(out)
        },
        AgentValue::Object(m) => {
            proof {
                lemma_object_model(*m);
            }
            let n = m.len();
            let mut out: KeyMap<JsonValue> = KeyMap::new();
            let mut i: usize = 0;
            while i < n
                invariant
                    *v == AgentValue::Object(*m),
                    i <= n == m.pairs().len(),
                    increasing(m.pairs()),
                    out.pairs().len() == i,
                    forall|t: int| 0 <= t < i ==> #[trigger] out.pairs()[t].0 == m.pairs()[t].0,
                    forall|t: int| 0 <= t < i ==> #[trigger] out.pairs()[t].1@ == value_to_json_model(m.pairs()[t].1@),
                decreases n - i,
            {
                let key = m.key_at(i).clone();
                let mv = m.value_at(i);
                proof {
                    m.lemma_value_decreases(i as int);
                    assert(decreases_to!(v => v->Object_0));
                }
                let jv = value_to_json(mv);
                proof {
                    assert forall|t: int| 0 <= t < out.pairs().len() implies chars_less(#[trigger] out.pairs()[t].0, key@) by {
                        assert(chars_less(m.pairs()[t].0, m.pairs()[i as int].0));
                    }
                }
                out.push_last(key, jv);
                i = i + 1;
            }
            proof {
                lemma_json_object_model(out);
                let vm = value_to_json_model(v@);
                let sm = vm->Object_0;
                assert(sm.len() == out.pairs().len());
                assert forall|t: int| 0 <= t < sm.len() implies sm[t] == json_pair_models(out.pairs())[t] by {
                    assert(pair_models(m.pairs())[t] == (m.pairs()[t].0, m.pairs()[t].1@));
                }
                assert(sm =~= json_pair_models(out.pairs()));
            }
            JsonValue::Object(out)
        },
    }
}

/// Whether every number in a value is finite (JSON has no form for
/// infinities and NaN).
pub open spec fn finite_numbers(v: ValueModel) -> bool
    decreases v,
{
    match v {
        ValueModel::Number(bits) => is_finite_bits(bits),
        ValueModel::Array(a) => finite_elements(a),
        ValueModel::Object(ps) => finite_entries(ps),
        _ => true,
    }
}

pub open spec fn finite_elements(a: Seq<ValueModel>) -> bool
    decreases a,
{
    if a.len() == 0 {
        true
    } else {
        proof {
            assert(decreases_to!(a => a.subrange(1, a.len() as int)));
        }
        finite_numbers(a[0]) && finite_elements(a.subrange(1, a.len() as int))
    }
}

pub open spec fn finite_entries(ps: Seq<(Seq<char>, ValueModel)>) -> bool
    decreases ps,
{
    if ps.len() == 0 {
        true
    } else {
        proof {
            assert(decreases_to!(ps => ps.subrange(1, ps.len() as int)));
        }
        finite_numbers(ps[0].1) && finite_entries(ps.subrange(1, ps.len() as int))
    }
}

proof fn lemma_finite_elements_index(a: Seq<ValueModel>, i: int)
    requires
        finite_elements(a),
        0 <= i < a.len(),
    ensures
        finite_numbers(a[i]),
    decreases i,
{
    if i > 0 {
        lemma_finite_elements_index(a.subrange(1, a.len() as int), i - 1);
    }
}

proof fn lemma_finite_entries_index(ps: Seq<(Seq<char>, ValueModel)>, i: int)
    requires
        finite_entries(ps),
        0 <= i < ps.len(),
    ensures
        finite_numbers(ps[i].1),
    decreases i,
{
    if i > 0 {
        lemma_finite_entries_index(ps.subrange(1, ps.len() as int), i - 1);
    }
}

/// A value whose numbers are all finite reads back from its JSON document
/// unchanged.
pub proof fn lemma_json_round_trip(v: ValueModel)
    requires
        finite_numbers(v),
    ensures
        json_to_model(value_to_json_model(v)) == v,
    decreases v,
{
    match v {
        ValueModel::Array(a) => {
            let r = json_to_model(value_to_json_model(v))->Array_0;
            assert forall|i: int| 0 <= i < a.len() implies r[i] == a[i] by {
                lemma_finite_elements_index(a, i);
                lemma_json_round_trip(a[i]);
            }
            assert(r =~= a);
        },
        ValueModel::Object(ps) => {
            let r = json_to_model(value_to_json_model(v))->Object_0;
            assert forall|i: int| 0 <= i < ps.len() implies r[i] == ps[i] by {
                lemma_finite_entries_index(ps, i);
                lemma_json_round_trip(ps[i].1);
            }
            assert(r =~= ps);
        },
        _ => {},
    }
}

/// Whether a value reads back under a kind name from its JSON document: a
/// scalar of the named kind or an array of such, and under other names a
/// value with finite numbers, arrays element by element.
pub open spec fn fits_kind(kind: Seq<char>, v: ValueModel) -> bool
    decreases v,
{
    if kind == "unit"@ {
        v is Unit || (v matches ValueModel::Array(a) && forall|i: int| 0 <= i < a.len() ==> #[trigger] a[i] is Unit)
    } else if kind == "boolean"@ {
        v is Boolean || (v matches ValueModel::Array(a) && forall|i: int| 0 <= i < a.len() ==> #[trigger] a[i] is Boolean)
    } else if kind == "integer"@ {
        v is Integer || (v matches ValueModel::Array(a) && forall|i: int| 0 <= i < a.len() ==> #[trigger] a[i] is Integer)
    } else if kind == "number"@ {
        (v matches ValueModel::Number(b) && is_finite_bits(b)) || (v matches ValueModel::Array(a) && forall|i: int|
            0 <= i < a.len() ==> (#[trigger] a[i] matches ValueModel::Number(b) && is_finite_bits(b)))
    } else if kind == "string"@ {
        v is Str || (v matches ValueModel::Array(a) && forall|i: int| 0 <= i < a.len() ==> #[trigger] a[i] is Str)
    } else {
        match v {
            ValueModel::Array(a) => all_fit_kind(kind, a),
            _ => finite_numbers(v),
        }
    }
}

pub open spec fn all_fit_kind(kind: Seq<char>, a: Seq<ValueModel>) -> bool
    decreases a,
{
    if a.len() == 0 {
        true
    } else {
        proof {
            assert(decreases_to!(a => a.subrange(1, a.len() as int)));
        }
        fits_kind(kind, a[0]) && all_fit_kind(kind, a.subrange(1, a.len() as int))
    }
}

/// A value that fits a kind reads back under that kind from its JSON
/// document unchanged.
pub proof fn lemma_kind_json_round_trip(kind: Seq<char>, v: ValueModel)
    requires
        fits_kind(kind, v),
    ensures
        kind_json_model(kind, value_to_json_model(v)) == Ok::<ValueModel, ConversionError>(v),
    decreases v,
{
    let j = value_to_json_model(v);
    if kind == "unit"@ || kind == "boolean"@ || kind == "integer"@ || kind == "number"@ || kind == "string"@ {
        if let ValueModel::Array(a) = v {
            let js = j->Array_0;
            assert(js.len() == a.len());
            if kind == "unit"@ {
                assert(Seq::new(js.len(), |i: int| ValueModel::Unit) =~= a);
            } else {
                let k = if kind == "boolean"@ {
                    ScalarKind::Boolean
                } else if kind == "integer"@ {
                    ScalarKind::Integer
                } else if kind == "number"@ {
                    ScalarKind::Number
                } else {
                    ScalarKind::Str
                };
                assert forall|i: int| 0 <= i < js.len() implies (#[trigger] scalar_fit(k, js[i])) == Some(a[i]) by {
                    assert(js[i] == value_to_json_model(a[i]));
                    assert(a[i] == a[i]);
                }
                assert(Seq::new(js.len(), |i: int| scalar_fit(k, js[i])->Some_0) =~= a);
            }
        }
    } else {
        match v {
            ValueModel::Array(a) => {
                lemma_kind_array_round_trip(kind, a);
                assert(j->Array_0 =~= Seq::new(a.len(), |i: int| value_to_json_model(a[i])));
            },
            _ => {
                lemma_json_round_trip(v);
            },
        }
    }
}

/// Arrays whose elements fit a kind read back under it element by element.
proof fn lemma_kind_array_round_trip(kind: Seq<char>, a: Seq<ValueModel>)
    requires
        all_fit_kind(kind, a),
    ensures
        kind_array_model(kind, Seq::new(a.len(), |i: int| value_to_json_model(a[i])))
            == Ok::<Seq<ValueModel>, ConversionError>(a),
    decreases a,
{
    let js = Seq::new(a.len(), |i: int| value_to_json_model(a[i]));
    if a.len() == 0 {
        assert(a =~= Seq::<ValueModel>::empty());
    } else {
        let rest = a.subrange(1, a.len() as int);
        lemma_kind_json_round_trip(kind, a[0]);
        lemma_kind_array_round_trip(kind, rest);
        assert(js.subrange(1, js.len() as int) =~= Seq::new(rest.len(), |i: int| value_to_json_model(rest[i])));
        assert(seq![a[0]] + rest =~= a);
    }
}

impl AgentValue {
    /// The value a JSON document denotes: integers that fit `i64` become
    /// integers, other numbers floats, strings strings, arrays and objects
    /// element by element.
    pub fn from_json(value: JsonValue) -> (r: Result<AgentValue, AgentError>)
        ensures
            r matches Ok(v) && v@ == json_to_model(value@),
    {
        Ok(value_from_json(&value))
    }

    /// The value a JSON document denotes under a kind name.
    pub fn from_kind_json(kind: &str, value: JsonValue) -> (r: Result<AgentValue, AgentError>)
        ensures
            conversion_matches(r, kind_json_model(kind@, value@)),
    {
        value_from_kind_json(kind, &value)
    }

    /// The JSON document of the value.
    pub fn to_json(&self) -> (r: JsonValue)
        ensures
            r@ == value_to_json_model(self@),
    {
        value_to_json(self)
    }
}

} // verus!
