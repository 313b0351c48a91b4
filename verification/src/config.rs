//! Agent configurations: named values.

use crate::float64::{float_to_i64, i64_to_float_bits, Float64};
use crate::keymap::KeyMap;
use crate::text::to_string;
use crate::keymap::pairs_to_map;
use crate::value::{pair_models, AgentValue, ValueModel};
use vstd::prelude::*;

verus! {

/// The configuration of an agent: values by name, in increasing name order.
#[derive(Debug)]
pub struct AgentConfig {
    entries: KeyMap<AgentValue>,
}

/// Configurations by name.
pub type AgentConfigs = KeyMap<AgentConfig>;

impl View for AgentConfig {
    type V = Map<Seq<char>, AgentValue>;

    closed spec fn view(&self) -> Map<Seq<char>, AgentValue> {
        self.entries.map()
    }
}

impl AgentConfig {
    /// The entries in increasing name order.
    pub closed spec fn pairs(self) -> Seq<(Seq<char>, AgentValue)> {
        self.entries.pairs()
    }

    /// The models of the values by name.
    pub open spec fn model(self) -> Map<Seq<char>, ValueModel> {
        pairs_to_map(pair_models(self.pairs()))
    }

    /// The model holds the model of each value, under the same names.
    pub proof fn lemma_model(self)
        ensures
            forall|k: Seq<char>| #[trigger] self.model().contains_key(k) == self@.contains_key(k),
            forall|k: Seq<char>| self@.contains_key(k) ==> #[trigger] self.model()[k] == self@[k]@,
    {
        let f = |v: AgentValue| v@;
        assert forall|i: int| 0 <= i < self.pairs().len() implies #[trigger] pair_models(self.pairs())[i] == (self.pairs()[i].0, f(self.pairs()[i].1)) by {}
        crate::keymap::lemma_map_of_mapped(self.pairs(), pair_models(self.pairs()), f);
    }

    /// An empty configuration.
    pub fn new() -> (r: Self)
        ensures
            r@ == Map::<Seq<char>, AgentValue>::empty(),
            r.pairs() == Seq::<(Seq<char>, AgentValue)>::empty(),
            r.model() == Map::<Seq<char>, ValueModel>::empty(),
    {
        let r = AgentConfig { entries: KeyMap::new() };
        assert(pair_models(r.pairs()) =~= Seq::<(Seq<char>, ValueModel)>::empty());
        r
    }

    /// Sets the value of `key`.
    pub fn set(&mut self, key: String, value: AgentValue)
        ensures
            final(self)@ == old(self)@.insert(key@, value),
            final(self).model() == old(self).model().insert(key@, value@),
    {
        let ghost k = key@;
        let ghost vm = value@;
        self.entries.insert(key, value);
        proof {
            old(self).lemma_model();
            self.lemma_model();
            assert(self.model() =~= old(self).model().insert(k, vm));
        }
    }

    pub fn contains_key(&self, key: &str) -> (r: bool)
        ensures
            r == self@.contains_key(key@),
    {
        self.entries.contains_key(key)
    }

    /// The number of entries.
    pub fn len(&self) -> (r: usize)
        ensures
            r == self.pairs().len(),
            crate::keymap::increasing(self.pairs()),
    {
        self.entries.len()
    }

    /// The name of the entry at position `i` in name order.
    pub fn key_at(&self, i: usize) -> (r: &String)
        requires
            i < self.pairs().len(),
        ensures
            r@ == self.pairs()[i as int].0,
    {
        self.entries.key_at(i)
    }

    /// The value of the entry at position `i` in name order.
    pub fn value_at(&self, i: usize) -> (r: &AgentValue)
        requires
            i < self.pairs().len(),
        ensures
            *r == self.pairs()[i as int].1,
    {
        self.entries.value_at(i)
    }

    /// The value of `key`, if set.
    pub open spec fn lookup(self, key: Seq<char>) -> Option<AgentValue> {
        if self@.contains_key(key) {
            Some(self@[key])
        } else {
            None
        }
    }

    pub fn get(&self, key: &str) -> (r: Option<&AgentValue>)
        ensures
            match r {
                Some(v) => self.lookup(key@) == Some(*v),
                None => self.lookup(key@) is None,
            },
    {
        self.entries.get(key)
    }

    pub fn get_bool(&self, key: &str) -> (r: Option<bool>)
        ensures
            r == (match self.lookup(key@) {
                Some(AgentValue::Boolean(b)) => Some(b),
                _ => None,
            }),
    {
        match self.get(key) {
            Some(v) => v.as_bool(),
            None => None,
        }
    }

    pub fn get_bool_or(&self, key: &str, default: bool) -> (r: bool)
        ensures
            r == (match self.lookup(key@) {
                Some(AgentValue::Boolean(b)) => b,
                _ => default,
            }),
    {
        match self.get_bool(key) {
            Some(b) => b,
            None => default,
        }
    }

    pub fn get_bool_or_default(&self, key: &str) -> (r: bool)
        ensures
            r == (match self.lookup(key@) {
                Some(AgentValue::Boolean(b)) => b,
                _ => false,
            }),
    {
        self.get_bool_or(key, false)
    }

    /// Integers as they are, numbers rounded toward zero.
    pub fn get_integer(&self, key: &str) -> (r: Option<i64>)
        ensures
            r == (match self.lookup(key@) {
                Some(AgentValue::Integer(i)) => Some(i),
                Some(AgentValue::Number(f)) => Some(float_to_i64(f.bits)),
                _ => None,
            }),
    {
        match self.get(key) {
            Some(v) => v.as_i64(),
            None => None,
        }
    }

    pub fn get_integer_or(&self, key: &str, default: i64) -> (r: i64)
        ensures
            r == (match self.lookup(key@) {
                Some(AgentValue::Integer(i)) => i,
                Some(AgentValue::Number(f)) => float_to_i64(f.bits),
                _ => default,
            }),
    {
        match self.get_integer(key) {
            Some(i) => i,
            None => default,
        }
    }

    pub fn get_integer_or_default(&self, key: &str) -> (r: i64)
        ensures
            r == (match self.lookup(key@) {
                Some(AgentValue::Integer(i)) => i,
                Some(AgentValue::Number(f)) => float_to_i64(f.bits),
                _ => 0,
            }),
    {
        self.get_integer_or(key, 0)
    }

    /// Numbers as they are, integers converted to the nearest float.
    pub fn get_number(&self, key: &str) -> (r: Option<Float64>)
        ensures
            match self.lookup(key@) {
                Some(AgentValue::Integer(i)) => r matches Some(f) && f.bits == i64_to_float_bits(i),
                Some(AgentValue::Number(f)) => r == Some(f),
                _ => r is None,
            },
    {
        match self.get(key) {
            Some(v) => v.as_f64(),
            None => None,
        }
    }

    pub fn get_number_or(&self, key: &str, default: Float64) -> (r: Float64)
        ensures
            match self.lookup(key@) {
                Some(AgentValue::Integer(i)) => r.bits == i64_to_float_bits(i),
                Some(AgentValue::Number(f)) => r == f,
                _ => r == default,
            },
    {
        match self.get_number(key) {
            Some(f) => f,
            None => default,
        }
    }

    /// Defaults to positive zero.
    pub fn get_number_or_default(&self, key: &str) -> (r: Float64)
        ensures
            match self.lookup(key@) {
                Some(AgentValue::Integer(i)) => r.bits == i64_to_float_bits(i),
                Some(AgentValue::Number(f)) => r == f,
                _ => r.bits == 0,
            },
    {
        self.get_number_or(key, Float64::from_bits(0))
    }

    pub fn get_string(&self, key: &str) -> (r: Option<String>)
        ensures
            match self.lookup(key@) {
                Some(AgentValue::String(s)) => r matches Some(t) && t@ == s@,
                _ => r is None,
            },
    {
        match self.get(key) {
            Some(v) => match v.as_str() {
                Some(s) => Some(to_string(s)),
                None => None,
            },
            None => None,
        }
    }

    pub fn get_string_or(&self, key: &str, default: &str) -> (r: String)
        ensures
            match self.lookup(key@) {
                Some(AgentValue::String(s)) => r@ == s@,
                _ => r@ == default@,
            },
    {
        match self.get_string(key) {
            Some(s) => s,
            None => to_string(default),
        }
    }

    /// Defaults to the empty string.
    pub fn get_string_or_default(&self, key: &str) -> (r: String)
        ensures
            match self.lookup(key@) {
                Some(AgentValue::String(s)) => r@ == s@,
                _ => r@ == Seq::<char>::empty(),
            },
    {
        match self.get_string(key) {
            Some(s) => s,
            None => String::new(),
        }
    }

    pub fn get_array(&self, key: &str) -> (r: Option<&Vec<AgentValue>>)
        ensures
            match self.lookup(key@) {
                Some(AgentValue::Array(a)) => r == Some(&a),
                _ => r is None,
            },
    {
        match self.get(key) {
            Some(v) => v.as_array(),
            None => None,
        }
    }

    pub fn get_array_or<'a>(&'a self, key: &str, default: &'a Vec<AgentValue>) -> (r: &'a Vec<AgentValue>)
        ensures
            match self.lookup(key@) {
                Some(AgentValue::Array(a)) => *r == a,
                _ => r == default,
            },
    {
        match self.get_array(key) {
            Some(a) => a,
            None => default,
        }
    }

    pub fn get_object(&self, key: &str) -> (r: Option<&KeyMap<AgentValue>>)
        ensures
            match self.lookup(key@) {
                Some(AgentValue::Object(m)) => r == Some(&m),
                _ => r is None,
            },
    {
        match self.get(key) {
            Some(v) => v.as_object(),
            None => None,
        }
    }

    /// A copy of the configuration.
    pub fn duplicate(&self) -> (r: Self)
        ensures
            r.model() == self.model(),
            r.pairs().len() == self.pairs().len(),
            forall|i: int| 0 <= i < self.pairs().len() ==> #[trigger] r.pairs()[i].0 == self.pairs()[i].0 && r.pairs()[i].1@ == self.pairs()[i].1@,
    {
        let n = self.entries.len();
        let mut out: KeyMap<AgentValue> = KeyMap::new();
        let mut i: usize = 0;
        while i < n
            invariant
                i <= n == self.pairs().len(),
                crate::keymap::increasing(self.pairs()),
                out.pairs().len() == i,
                forall|t: int| 0 <= t < i ==> #[trigger] out.pairs()[t].0 == self.pairs()[t].0,
                forall|t: int| 0 <= t < i ==> #[trigger] out.pairs()[t].1@ == self.pairs()[t].1@,
            decreases n - i,
        {
            let key = self.entries.key_at(i).clone();
            let v = self.entries.value_at(i).duplicate();
            proof {
                assert forall|t: int| 0 <= t < out.pairs().len() implies crate::text::chars_less(#[trigger] out.pairs()[t].0, key@) by {
                    assert(crate::text::chars_less(self.pairs()[t].0, self.pairs()[i as int].0));
                }
            }
            out.push_last(key, v);
            i = i + 1;
        }
        let r = AgentConfig { entries: out };
        assert(pair_models(r.pairs()) =~= pair_models(self.pairs()));
        r
    }
}

impl Clone for AgentConfig {
    fn clone(&self) -> (r: Self)
        ensures
            r.model() == self.model(),
            r.pairs().len() == self.pairs().len(),
            forall|i: int| 0 <= i < self.pairs().len() ==> #[trigger] r.pairs()[i].0 == self.pairs()[i].0 && r.pairs()[i].1@ == self.pairs()[i].1@,
    {
        self.duplicate()
    }
}

/// Reading a configuration gives back what setting it wrote, and setting
/// one name leaves the others as they were.
pub proof fn lemma_config_read_after_write(
    before: AgentConfig,
    key: Seq<char>,
    value: AgentValue,
    other: Seq<char>,
    after: AgentConfig,
)
    requires
        after@ == before@.insert(key, value),
    ensures
        after.lookup(key) == Some(value),
        other != key ==> after.lookup(other) == before.lookup(other),
{
}

} // verus!
