//! Maps of agent values: their models and copies.

use crate::keymap::{increasing, KeyMap};
use crate::text::chars_less;
use crate::value::{pair_models, AgentValue, ValueModel};
use vstd::prelude::*;

verus! {

/// The models of the values of a map, by key.
pub open spec fn entries_model(m: KeyMap<AgentValue>) -> Map<Seq<char>, ValueModel> {
    crate::keymap::pairs_to_map(pair_models(m.pairs()))
}

/// The entries model holds the model of each value of the map, under the
/// same keys.
pub proof fn lemma_entries_model(m: KeyMap<AgentValue>)
    ensures
        forall|k: Seq<char>| #[trigger] entries_model(m).contains_key(k) == m.map().contains_key(k),
        forall|k: Seq<char>| m.map().contains_key(k) ==> #[trigger] entries_model(m)[k] == m.map()[k]@,
{
    let f = |v: AgentValue| v@;
    assert forall|i: int| 0 <= i < m.pairs().len() implies #[trigger] pair_models(m.pairs())[i] == (m.pairs()[i].0, f(m.pairs()[i].1)) by {}
    crate::keymap::lemma_map_of_mapped(m.pairs(), pair_models(m.pairs()), f);
}

/// A copy of a map of values.
pub fn duplicate_entries(m: &KeyMap<AgentValue>) -> (r: KeyMap<AgentValue>)
    ensures
        pair_models(r.pairs()) == pair_models(m.pairs()),
        entries_model(r) == entries_model(*m),
{
    let n = m.len();
    let mut out: KeyMap<AgentValue> = KeyMap::new();
    let mut i: usize = 0;
    while i < n
        invariant
            i <= n == m.pairs().len(),
            increasing(m.pairs()),
            out.pairs().len() == i,
            forall|t: int| 0 <= t < i ==> #[trigger] out.pairs()[t].0 == m.pairs()[t].0,
            forall|t: int| 0 <= t < i ==> #[trigger] out.pairs()[t].1@ == m.pairs()[t].1@,
        decreases n - i,
    {
        let key = m.key_at(i).clone();
        let v = m.value_at(i).duplicate();
        proof {
            assert forall|t: int| 0 <= t < out.pairs().len() implies chars_less(#[trigger] out.pairs()[t].0, key@) by {
                assert(chars_less(m.pairs()[t].0, m.pairs()[i as int].0));
            }
        }
        let ghost before = out.pairs();
        let ghost vm = v@;
        out.push_last(key, v);
        assert(out.pairs()[i as int].1@ == vm);
        assert(forall|t: int| 0 <= t < i ==> #[trigger] out.pairs()[t] == before[t]);
        i = i + 1;
    }
    assert(pair_models(out.pairs()) =~= pair_models(m.pairs()));
    out
}

} // verus!
