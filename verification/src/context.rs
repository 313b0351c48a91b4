//! The context that travels with agent data: an identifier and variables.

use crate::ids::IdCounter;
use crate::keymap::KeyMap;
use crate::entries::{duplicate_entries, entries_model, lemma_entries_model};
use crate::value::{AgentValue, ValueModel};
use vstd::prelude::*;

verus! {

/// The context of a piece of data on its way through a flow.
#[derive(Debug)]
pub struct AgentContext {
    id: usize,
    vars: Option<KeyMap<AgentValue>>,
}

/// Hands out the next context identifier.
pub fn new_id(counter: &mut IdCounter) -> (r: usize)
    ensures
        r == old(counter).upcoming(),
        final(counter).upcoming() == crate::ids::successor(old(counter).upcoming()),
{
    counter.fetch_next()
}

impl AgentContext {
    /// The identifier of the context.
    pub closed spec fn spec_id(self) -> usize {
        self.id
    }

    /// The models of the variables, by name; empty where none was set.
    pub closed spec fn vars(self) -> Map<Seq<char>, ValueModel> {
        match self.vars {
            Some(m) => entries_model(m),
            None => Map::empty(),
        }
    }

    /// A context without variables under the next identifier of `counter`.
    pub fn new(counter: &mut IdCounter) -> (r: Self)
        ensures
            r.spec_id() == old(counter).upcoming(),
            r.vars() == Map::<Seq<char>, ValueModel>::empty(),
            final(counter).upcoming() == crate::ids::successor(old(counter).upcoming()),
    {
        AgentContext { id: new_id(counter), vars: None }
    }

    pub fn id(&self) -> (r: usize)
        ensures
            r == self.spec_id(),
    {
        self.id
    }

    /// The variable named `key`, if set.
    pub fn get_var(&self, key: &str) -> (r: Option<&AgentValue>)
        ensures
            match r {
                Some(v) => self.vars().contains_key(key@) && v@ == self.vars()[key@],
                None => !self.vars().contains_key(key@),
            },
    {
        match &self.vars {
            Some(vars) => {
                proof {
                    lemma_entries_model(*vars);
                }
                vars.get(key)
            },
            None => None,
        }
    }

    /// A context with the same identifier and variables, and with `key` set
    /// to `value`.
    pub fn with_var(&self, key: String, value: AgentValue) -> (r: Self)
        ensures
            r.spec_id() == self.spec_id(),
            r.vars() == self.vars().insert(key@, value@),
    {
        let mut vars = match &self.vars {
            Some(vars) => duplicate_entries(vars),
            None => KeyMap::new(),
        };
        let ghost before = vars;
        let ghost k = key@;
        let ghost vm = value@;
        proof {
            if self.vars is None {
                assert(entries_model(before) =~= Map::<Seq<char>, ValueModel>::empty()) by {
                    assert(crate::value::pair_models(before.pairs()) =~= Seq::<(Seq<char>, ValueModel)>::empty());
                }
            }
            assert(entries_model(before) == self.vars());
        }
        vars.insert(key, value);
        proof {
            lemma_entries_model(before);
            lemma_entries_model(vars);
            assert(entries_model(vars) =~= entries_model(before).insert(k, vm));
        }
        AgentContext { id: self.id, vars: Some(vars) }
    }
}

impl Default for AgentContext {
    fn default() -> (r: Self)
        ensures
            r.spec_id() == 0,
            r.vars() == Map::<Seq<char>, ValueModel>::empty(),
    {
        AgentContext { id: 0, vars: None }
    }
}

impl Clone for AgentContext {
    fn clone(&self) -> (r: Self)
        ensures
            r.spec_id() == self.spec_id(),
            r.vars() == self.vars(),
    {
        let vars = match &self.vars {
            Some(vars) => Some(duplicate_entries(vars)),
            None => None,
        };
        AgentContext { id: self.id, vars }
    }
}

/// Reading a variable gives back what setting it wrote, and setting one
/// variable leaves the others as they were.
pub proof fn lemma_var_read_after_write(ctx: AgentContext, key: Seq<char>, value: ValueModel, other: Seq<char>, after: AgentContext)
    requires
        after.spec_id() == ctx.spec_id(),
        after.vars() == ctx.vars().insert(key, value),
    ensures
        after.vars().contains_key(key),
        after.vars()[key] == value,
        other != key ==> after.vars().contains_key(other) == ctx.vars().contains_key(other),
        other != key && ctx.vars().contains_key(other) ==> after.vars()[other] == ctx.vars()[other],
        after.spec_id() == ctx.spec_id(),
{
}

} // verus!
