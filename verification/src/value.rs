//! Agent values: the dynamically typed data that flows between agents.

use crate::float64::{floats_equal, float_to_i64, Float64};
use crate::keymap::{increasing, KeyMap};
use crate::text::{chars_less, to_string};
use vstd::prelude::*;

verus! {

broadcast use vstd::string::group_string_axioms;

/// A dynamically typed value.
#[derive(Debug)]
pub enum AgentValue {
    Unit,
    Boolean(bool),
    Integer(i64),
    /// A binary64 floating-point number.
    Number(Float64),
    String(String),
    Array(Vec<AgentValue>),
    /// Named values, in increasing key order.
    Object(KeyMap<AgentValue>),
}

/// The map type that object values hold.
pub type AgentValueMap = KeyMap<AgentValue>;

/// The mathematical model of an agent value.
pub enum ValueModel {
    Unit,
    Boolean(bool),
    Integer(i64),
    /// A floating-point number, by its bit pattern.
    Number(u64),
    Str(Seq<char>),
    Array(Seq<ValueModel>),
    /// Entries in increasing key order.
    Object(Seq<(Seq<char>, ValueModel)>),
}

/// The model of a value.
pub open spec fn value_model(v: AgentValue) -> ValueModel
    decreases v,
{
    match v {
        AgentValue::Unit => ValueModel::Unit,
        AgentValue::Boolean(b) => ValueModel::Boolean(b),
        AgentValue::Integer(i) => ValueModel::Integer(i),
        AgentValue::Number(f) => ValueModel::Number(f.bits),
        AgentValue::String(s) => ValueModel::Str(s@),
        AgentValue::Array(a) => ValueModel::Array(
            Seq::new(
                a@.len(),
                |i: int|
                    if 0 <= i < a@.len() {
                        value_model(a@[i])
                    } else {
                        ValueModel::Unit
                    },
            ),
        ),
        AgentValue::Object(m) => ValueModel::Object(
            Seq::new(
                m.pairs().len(),
                |i: int|
                    if 0 <= i < m.pairs().len() {
                        proof {
                            m.lemma_value_decreases(i);
                        }
                        (m.pairs()[i].0, value_model(m.pairs()[i].1))
                    } else {
                        (Seq::empty(), ValueModel::Unit)
                    },
            ),
        ),
    }
}

impl View for AgentValue {
    type V = ValueModel;

    open spec fn view(&self) -> ValueModel {
        value_model(*self)
    }
}

/// The models of a sequence of values.
pub open spec fn models(vs: Seq<AgentValue>) -> Seq<ValueModel> {
    Seq::new(vs.len(), |i: int| vs[i]@)
}

/// The model of the entries of a map of values.
pub open spec fn pair_models(ps: Seq<(Seq<char>, AgentValue)>) -> Seq<(Seq<char>, ValueModel)> {
    Seq::new(ps.len(), |i: int| (ps[i].0, ps[i].1@))
}

/// The model of an array value is the models of its elements.
pub proof fn lemma_array_model(a: Vec<AgentValue>)
    ensures
        AgentValue::Array(a)@ == ValueModel::Array(models(a@)),
{
    let v = value_model(AgentValue::Array(a));
    let s = v->Array_0;
    assert(s.len() == a@.len());
    assert forall|i: int| 0 <= i < s.len() implies s[i] == models(a@)[i] by {}
    assert(s =~= models(a@));
}

/// The model of an object value is the models of its entries.
pub proof fn lemma_object_model(m: KeyMap<AgentValue>)
    ensures
        AgentValue::Object(m)@ == ValueModel::Object(pair_models(m.pairs())),
{
    let v = value_model(AgentValue::Object(m));
    let s = v->Object_0;
    assert(s.len() == m.pairs().len());
    assert forall|i: int| 0 <= i < s.len() implies s[i] == pair_models(m.pairs())[i] by {}
    assert(s =~= pair_models(m.pairs()));
}

/// The kind name of a value: the type of a scalar, the kind of the first
/// element of a non-empty array, and "array" for an empty one.
pub open spec fn kind_name(v: ValueModel) -> Seq<char>
    decreases v,
{
    match v {
        ValueModel::Unit => "unit"@,
        ValueModel::Boolean(_) => "boolean"@,
        ValueModel::Integer(_) => "integer"@,
        ValueModel::Number(_) => "number"@,
        ValueModel::Str(_) => "string"@,
        ValueModel::Object(_) => "object"@,
        ValueModel::Array(a) => if a.len() == 0 {
            "array"@
        } else {
            kind_name(a[0])
        },
    }
}

/// Equality of values: numbers compare as floats, arrays and objects
/// element by element.
pub open spec fn models_equal(a: ValueModel, b: ValueModel) -> bool
    decreases a,
{
    match a {
        ValueModel::Unit => b is Unit,
        ValueModel::Boolean(x) => b matches ValueModel::Boolean(y) && x == y,
        ValueModel::Integer(x) => b matches ValueModel::Integer(y) && x == y,
        ValueModel::Number(x) => b matches ValueModel::Number(y) && floats_equal(x, y),
        ValueModel::Str(x) => b matches ValueModel::Str(y) && x == y,
        ValueModel::Array(x) => b matches ValueModel::Array(y) && elements_equal(x, y),
        ValueModel::Object(x) => b matches ValueModel::Object(y) && entries_equal(x, y),
    }
}

/// Two sequences of values are equal element by element.
pub open spec fn elements_equal(x: Seq<ValueModel>, y: Seq<ValueModel>) -> bool
    decreases x,
{
    if x.len() == 0 {
        y.len() == 0
    } else {
        proof {
            assert(decreases_to!(x => x.subrange(1, x.len() as int)));
        }
        y.len() > 0 && models_equal(x[0], y[0]) && elements_equal(
            x.subrange(1, x.len() as int),
            y.subrange(1, y.len() as int),
        )
    }
}

/// Two sequences of entries are equal entry by entry.
pub open spec fn entries_equal(x: Seq<(Seq<char>, ValueModel)>, y: Seq<(Seq<char>, ValueModel)>) -> bool
    decreases x,
{
    if x.len() == 0 {
        y.len() == 0
    } else {
        proof {
            assert(decreases_to!(x => x.subrange(1, x.len() as int)));
        }
        y.len() > 0 && x[0].0 == y[0].0 && models_equal(x[0].1, y[0].1) && entries_equal(
            x.subrange(1, x.len() as int),
            y.subrange(1, y.len() as int),
        )
    }
}

impl AgentValue {
    pub fn unit() -> (r: Self)
        ensures
            r@ == ValueModel::Unit,
    {
        AgentValue::Unit
    }

    pub fn boolean(value: bool) -> (r: Self)
        ensures
            r@ == ValueModel::Boolean(value),
    {
        AgentValue::Boolean(value)
    }

    pub fn integer(value: i64) -> (r: Self)
        ensures
            r@ == ValueModel::Integer(value),
    {
        AgentValue::Integer(value)
    }

    pub fn number(value: Float64) -> (r: Self)
        ensures
            r@ == ValueModel::Number(value.bits),
    {
        AgentValue::Number(value)
    }

    pub fn string(value: &str) -> (r: Self)
        ensures
            r@ == ValueModel::Str(value@),
    {
        AgentValue::String(to_string(value))
    }

    pub fn object(value: KeyMap<AgentValue>) -> (r: Self)
        ensures
            r == AgentValue::Object(value),
    {
        AgentValue::Object(value)
    }

    pub fn array(value: Vec<AgentValue>) -> (r: Self)
        ensures
            r == AgentValue::Array(value),
    {
        AgentValue::Array(value)
    }

    pub fn boolean_default() -> (r: Self)
        ensures
            r@ == ValueModel::Boolean(false),
    {
        AgentValue::Boolean(false)
    }

    pub fn integer_default() -> (r: Self)
        ensures
            r@ == ValueModel::Integer(0),
    {
        AgentValue::Integer(0)
    }

    /// Positive zero.
    pub fn number_default() -> (r: Self)
        ensures
            r@ == ValueModel::Number(0),
    {
        AgentValue::Number(Float64::from_bits(0))
    }

    pub fn string_default() -> (r: Self)
        ensures
            r@ == ValueModel::Str(Seq::empty()),
    {
        AgentValue::String(String::new())
    }

    pub fn array_default() -> (r: Self)
        ensures
            r@ == ValueModel::Array(Seq::empty()),
    {
        let r = AgentValue::Array(Vec::new());
        assert(r@ == ValueModel::Array(Seq::empty())) by {
            if let AgentValue::Array(a) = r {
                lemma_array_model(a);
                assert(models(a@) =~= Seq::empty());
            }
        }
        r
    }

    pub fn object_default() -> (r: Self)
        ensures
            r@ == ValueModel::Object(Seq::empty()),
    {
        let m = KeyMap::new();
        proof {
            lemma_object_model(m);
            assert(pair_models(m.pairs()) =~= Seq::empty());
        }
        AgentValue::Object(m)
    }

    pub fn is_unit(&self) -> (r: bool)
        ensures
            r == (self is Unit),
    {
        matches!(self, AgentValue::Unit)
    }

    pub fn is_boolean(&self) -> (r: bool)
        ensures
            r == (self is Boolean),
    {
        matches!(self, AgentValue::Boolean(_))
    }

    pub fn is_integer(&self) -> (r: bool)
        ensures
            r == (self is Integer),
    {
        matches!(self, AgentValue::Integer(_))
    }

    pub fn is_number(&self) -> (r: bool)
        ensures
            r == (self is Number),
    {
        matches!(self, AgentValue::Number(_))
    }

    pub fn is_string(&self) -> (r: bool)
        ensures
            r == (self is String),
    {
        matches!(self, AgentValue::String(_))
    }

    pub fn is_array(&self) -> (r: bool)
        ensures
            r == (self is Array),
    {
        matches!(self, AgentValue::Array(_))
    }

    pub fn is_object(&self) -> (r: bool)
        ensures
            r == (self is Object),
    {
        matches!(self, AgentValue::Object(_))
    }

    pub fn as_bool(&self) -> (r: Option<bool>)
        ensures
            r == (match *self {
                AgentValue::Boolean(b) => Some(b),
                _ => None,
            }),
    {
        match self {
            AgentValue::Boolean(b) => Some(*b),
            _ => None,
        }
    }

    /// Integers as they are, numbers rounded toward zero with saturation.
    pub fn as_i64(&self) -> (r: Option<i64>)
        ensures
            r == (match *self {
                AgentValue::Integer(i) => Some(i),
                AgentValue::Number(f) => Some(float_to_i64(f.bits)),
                _ => None,
            }),
    {
        match self {
            AgentValue::Integer(i) => Some(*i),
            AgentValue::Number(f) => Some(f.to_i64()),
            _ => None,
        }
    }

    /// Numbers as they are, integers converted to the nearest float.
    pub fn as_f64(&self) -> (r: Option<Float64>)
        ensures
            match *self {
                AgentValue::Integer(i) => r matches Some(f) && f.bits == crate::float64::i64_to_float_bits(i),
                AgentValue::Number(f) => r == Some(f),
                _ => r is None,
            },
    {
        match self {
            AgentValue::Integer(i) => Some(Float64::from_i64(*i)),
            AgentValue::Number(f) => Some(*f),
            _ => None,
        }
    }

    pub fn as_str(&self) -> (r: Option<&str>)
        ensures
            match *self {
                AgentValue::String(s) => r matches Some(t) && t@ == s@,
                _ => r is None,
            },
    {
        match self {
            AgentValue::String(s) => Some(s.as_str()),
            _ => None,
        }
    }

    pub fn as_object(&self) -> (r: Option<&KeyMap<AgentValue>>)
        ensures
            match *self {
                AgentValue::Object(m) => r == Some(&m),
                _ => r is None,
            },
    {
        match self {
            AgentValue::Object(m) => Some(m),
            _ => None,
        }
    }

    pub fn as_array(&self) -> (r: Option<&Vec<AgentValue>>)
        ensures
            match *self {
                AgentValue::Array(a) => r == Some(&a),
                _ => r is None,
            },
    {
        match self {
            AgentValue::Array(a) => Some(a),
            _ => None,
        }
    }

    /// The value of field `key` of an object.
    pub open spec fn field(self, key: Seq<char>) -> Option<AgentValue> {
        match self {
            AgentValue::Object(m) => if m.map().contains_key(key) {
                Some(m.map()[key])
            } else {
                None
            },
            _ => None,
        }
    }

    pub fn get(&self, key: &str) -> (r: Option<&AgentValue>)
        ensures
            match r {
                Some(v) => self.field(key@) == Some(*v),
                None => self.field(key@) is None,
            },
    {
        match self {
            AgentValue::Object(m) => m.get(key),
            _ => None,
        }
    }

    pub fn get_bool(&self, key: &str) -> (r: Option<bool>)
        ensures
            r == (match self.field(key@) {
                Some(AgentValue::Boolean(b)) => Some(b),
                _ => None,
            }),
    {
        match self.get(key) {
            Some(v) => v.as_bool(),
            None => None,
        }
    }

    pub fn get_i64(&self, key: &str) -> (r: Option<i64>)
        ensures
            r == (match self.field(key@) {
                Some(AgentValue::Integer(i)) => Some(i),
                Some(AgentValue::Number(f)) => Some(float_to_i64(f.bits)),
                _ => None,
            }),
    {
        match self.get(key) {
            Some(v) => v.as_i64(),
            None => None,
        }
    }

    pub fn get_f64(&self, key: &str) -> (r: Option<Float64>)
        ensures
            match self.field(key@) {
                Some(AgentValue::Integer(i)) => r matches Some(f) && f.bits == crate::float64::i64_to_float_bits(i),
                Some(AgentValue::Number(f)) => r == Some(f),
                _ => r is None,
            },
    {
        match self.get(key) {
            Some(v) => v.as_f64(),
            None => None,
        }
    }

    pub fn get_str(&self, key: &str) -> (r: Option<&str>)
        ensures
            match self.field(key@) {
                Some(AgentValue::String(s)) => r matches Some(t) && t@ == s@,
                _ => r is None,
            },
    {
        match self.get(key) {
            Some(v) => v.as_str(),
            None => None,
        }
    }

    pub fn get_object(&self, key: &str) -> (r: Option<&KeyMap<AgentValue>>)
        ensures
            match self.field(key@) {
                Some(AgentValue::Object(m)) => r == Some(&m),
                _ => r is None,
            },
    {
        match self.get(key) {
            Some(v) => v.as_object(),
            None => None,
        }
    }

    pub fn get_array(&self, key: &str) -> (r: Option<&Vec<AgentValue>>)
        ensures
            match self.field(key@) {
                Some(AgentValue::Array(a)) => r == Some(&a),
                _ => r is None,
            },
    {
        match self.get(key) {
            Some(v) => v.as_array(),
            None => None,
        }
    }

    /// The kind name of the value.
    pub fn kind(&self) -> (r: String)
        ensures
            r@ == kind_name(self@),
        decreases self,
    {
        match self {
            AgentValue::Unit => to_string("unit"),
            AgentValue::Boolean(_) => to_string("boolean"),
            AgentValue::Integer(_) => to_string("integer"),
            AgentValue::Number(_) => to_string("number"),
            AgentValue::String(_) => to_string("string"),
            AgentValue::Object(_) => to_string("object"),
            AgentValue::Array(a) => {
                proof {
                    lemma_array_model(*a);
                }
                if a.len() == 0 {
                    to_string("array")
                } else {
                    assert(decreases_to!(self => a@[0]));
                    a[0].kind()
                }
            },
        }
    }
}

impl AgentValue {
    /// Value equality: numbers compare as floats, arrays and objects element by
    /// element.
    pub fn equals(&self, other: &AgentValue) -> (r: bool)
        ensures
            r == models_equal(self@, other@),
        decreases self,
    {
        match (self, other) {
            (AgentValue::Unit, AgentValue::Unit) => true,
            (AgentValue::Boolean(x), AgentValue::Boolean(y)) => *x == *y,
            (AgentValue::Integer(x), AgentValue::Integer(y)) => *x == *y,
            (AgentValue::Number(x), AgentValue::Number(y)) => x.float_eq(y),
            (AgentValue::String(x), AgentValue::String(y)) => *x == *y,
            (AgentValue::Array(x), AgentValue::Array(y)) => {
                proof {
                    lemma_array_model(*x);
                    lemma_array_model(*y);
                }
                let ghost mx = models(x@);
                let ghost my = models(y@);
                if x.len() != y.len() {
                    proof {
                        if mx.len() > 0 && my.len() > 0 {
                            lemma_elements_equal_len(mx, my);
                        }
                    }
                    return false;
                }
                let mut i: usize = 0;
                assert(mx.subrange(0, mx.len() as int) =~= mx);
                assert(my.subrange(0, my.len() as int) =~= my);
                while i < x.len()
                    invariant
                        *self == AgentValue::Array(*x),
                        mx == models(x@),
                        my == models(y@),
                        x@.len() == y@.len(),
                        i <= x@.len(),
                        models_equal(self@, other@) == elements_equal(
                            mx.subrange(i as int, mx.len() as int),
                            my.subrange(i as int, my.len() as int),
                        ),
                    decreases x.len() - i,
                {
                    proof {
                        assert(decreases_to!(x => x@[i as int]));
                        assert(decreases_to!(self => self->Array_0));
                    }
                    let same = x[i].equals(&y[i]);
                    let ghost rx = mx.subrange(i as int, mx.len() as int);
                    let ghost ry = my.subrange(i as int, my.len() as int);
                    assert(rx[0] == x@[i as int]@);
                    assert(ry[0] == y@[i as int]@);
                    if !same {
                        return false;
                    }
                    assert(rx.subrange(1, rx.len() as int) =~= mx.subrange(i + 1, mx.len() as int));
                    assert(ry.subrange(1, ry.len() as int) =~= my.subrange(i + 1, my.len() as int));
                    i = i + 1;
                }
                true
            },
            (AgentValue::Object(x), AgentValue::Object(y)) => {
                proof {
                    lemma_object_model(*x);
                    lemma_object_model(*y);
                }
                let ghost px = pair_models(x.pairs());
                let ghost py = pair_models(y.pairs());
                let n = x.len();
                if n != y.len() {
                    proof {
                        lemma_entries_equal_len(px, py);
                    }
                    return false;
                }
                let mut i: usize = 0;
                assert(px.subrange(0, px.len() as int) =~= px);
                assert(py.subrange(0, py.len() as int) =~= py);
                while i < n
                    invariant
                        *self == AgentValue::Object(*x),
                        px == pair_models(x.pairs()),
                        py == pair_models(y.pairs()),
                        n == x.pairs().len() == y.pairs().len(),
                        i <= n,
                        models_equal(self@, other@) == entries_equal(
                            px.subrange(i as int, px.len() as int),
                            py.subrange(i as int, py.len() as int),
                        ),
                    decreases n - i,
                {
                    proof {
                        x.lemma_value_decreases(i as int);
                        assert(decreases_to!(self => self->Object_0));
                    }
                    let same_key = crate::text::str_eq(x.key_at(i).as_str(), y.key_at(i).as_str());
                    let ghost rx = px.subrange(i as int, px.len() as int);
                    let ghost ry = py.subrange(i as int, py.len() as int);
                    assert(rx[0] == (x.pairs()[i as int].0, x.pairs()[i as int].1@));
                    assert(ry[0] == (y.pairs()[i as int].0, y.pairs()[i as int].1@));
                    if !same_key {
                        return false;
                    }
                    let same_value = x.value_at(i).equals(y.value_at(i));
                    if !same_value {
                        return false;
                    }
                    assert(rx.subrange(1, rx.len() as int) =~= px.subrange(i + 1, px.len() as int));
                    assert(ry.subrange(1, ry.len() as int) =~= py.subrange(i + 1, py.len() as int));
                    i = i + 1;
                }
                true
            },
            _ => false,
        }
    }

    /// A copy of the value, all the way down.
    pub fn duplicate(&self) -> (r: AgentValue)
        ensures
            r@ == self@,
        decreases self,
    {
        match self {
            AgentValue::Unit => AgentValue::Unit,
            AgentValue::Boolean(b) => AgentValue::Boolean(*b),
            AgentValue::Integer(i) => AgentValue::Integer(*i),
            AgentValue::Number(f) => AgentValue::Number(*f),
            AgentValue::String(s) => AgentValue::String(s.clone()),
            AgentValue::Array(a) => {
                let out = duplicate_values(a);
                proof {
                    lemma_array_model(*a);
                    lemma_array_model(out);
                    assert(models(out@) =~= models(a@));
                }
                AgentValue::Array(out)
            },
            AgentValue::Object(m) => {
                proof {
                    lemma_object_model(*m);
                }
                let n = m.len();
                let mut out: KeyMap<AgentValue> = KeyMap::new();
                let mut i: usize = 0;
                while i < n
                    invariant
                        *self == AgentValue::Object(*m),
                        i <= n == m.pairs().len(),
                        increasing(m.pairs()),
                        out.pairs().len() == i,
                        forall|t: int| 0 <= t < i ==> #[trigger] out.pairs()[t].0 == m.pairs()[t].0,
                        forall|t: int| 0 <= t < i ==> #[trigger] out.pairs()[t].1@ == m.pairs()[t].1@,
                    decreases n - i,
                {
                    proof {
                        m.lemma_value_decreases(i as int);
                        assert(decreases_to!(self => self->Object_0));
                    }
                    let key = m.key_at(i).clone();
                    let v = m.value_at(i).duplicate();
                    proof {
                        assert forall|t: int| 0 <= t < out.pairs().len() implies chars_less(#[trigger] out.pairs()[t].0, key@) by {
                            assert(chars_less(m.pairs()[t].0, m.pairs()[i as int].0));
                        }
                    }
                    let ghost before = out.pairs();
                    let ghost vm = v@;
                    out.push_last(key, v);
                    assert(out.pairs()[i as int].1@ == vm);
                    assert(forall|t: int| 0 <= t < i ==> #[trigger] out.pairs()[t] == before[t]);
                    i = i + 1;
                }
                proof {
                    lemma_object_model(out);
                    assert(pair_models(out.pairs()) =~= pair_models(m.pairs()));
                }
                AgentValue::Object(out)
            },
        }
    }
}

/// Sequences equal element by element have the same length.
pub proof fn lemma_elements_equal_len(x: Seq<ValueModel>, y: Seq<ValueModel>)
    ensures
        elements_equal(x, y) ==> x.len() == y.len(),
    decreases x.len(),
{
    if x.len() > 0 && y.len() > 0 {
        lemma_elements_equal_len(x.subrange(1, x.len() as int), y.subrange(1, y.len() as int));
    }
}

/// Sequences equal entry by entry have the same length.
pub proof fn lemma_entries_equal_len(x: Seq<(Seq<char>, ValueModel)>, y: Seq<(Seq<char>, ValueModel)>)
    ensures
        entries_equal(x, y) ==> x.len() == y.len(),
    decreases x.len(),
{
    if x.len() > 0 && y.len() > 0 {
        lemma_entries_equal_len(x.subrange(1, x.len() as int), y.subrange(1, y.len() as int));
    }
}

/// Copies of a sequence of values.
pub fn duplicate_values(a: &Vec<AgentValue>) -> (r: Vec<AgentValue>)
    ensures
        models(r@) == models(a@),
    decreases a,
{
    let mut out: Vec<AgentValue> = Vec::new();
    let mut i: usize = 0;
    while i < a.len()
        invariant
            i <= a@.len(),
            out@.len() == i,
            forall|t: int| 0 <= t < i ==> #[trigger] out@[t]@ == a@[t]@,
        decreases a.len() - i,
    {
        proof {
            assert(decreases_to!(a => a@[i as int]));
        }
        let v = a[i].duplicate();
        out.push(v);
        i = i + 1;
    }
    assert(models(out@) =~= models(a@));
    out
}

impl Clone for AgentValue {
    fn clone(&self) -> (r: Self)
        ensures
            r@ == self@,
    {
        self.duplicate()
    }
}

impl Default for AgentValue {
    /// The unit value.
    fn default() -> (r: Self)
        ensures
            r@ == ValueModel::Unit,
    {
        AgentValue::Unit
    }
}

impl PartialEq for AgentValue {
    fn eq(&self, other: &Self) -> (r: bool) {
        self.equals(other)
    }
}

impl vstd::std_specs::cmp::PartialEqSpecImpl for AgentValue {
    open spec fn obeys_eq_spec() -> bool {
        true
    }

    open spec fn eq_spec(&self, other: &Self) -> bool {
        models_equal(self@, other@)
    }
}

} // verus!
